//! What solution and project files say.

use crate::patterns;
use crate::strings;
use crate::text;
use vstd::prelude::*;

verus! {

/// Finds the projects of a solution: the first group is the name, the second
/// the path.
pub const SOLUTION_PROJECT: &'static str =
    r#"Project\([^)]*\)\s*=\s*"(?P<name>[^"]+)",\s*"(?P<path>[^"]+)""#;

/// The trimmed text between `<tag>` and the next `</tag>`.
pub open spec fn xml_text(xml: Seq<char>, tag: Seq<char>) -> Option<Seq<char>> {
    match text::after(xml, "<"@ + tag + ">"@) {
        Some(rest) => match text::before(rest, "</"@ + tag + ">"@) {
            Some(inner) => Some(text::trimmed(inner)),
            None => None,
        },
        None => None,
    }
}

/// The value of the first `Sdk` attribute from `<Project` on.
pub open spec fn project_sdk(xml: Seq<char>) -> Option<Seq<char>> {
    match text::from_on(xml, "<Project"@) {
        Some(element) => match text::after(element, "Sdk=\""@) {
            Some(rest) => text::before(rest, "\""@),
            None => None,
        },
        None => None,
    }
}

/// The project with this manifest may expose an API.
pub open spec fn may_expose_api(manifest: Seq<char>) -> bool {
    ||| text::occurs(text::or_empty(project_sdk(manifest)), "Microsoft.NET.Sdk.Web"@)
    ||| text::occurs(manifest, "Microsoft.AspNetCore.App"@)
    ||| text::occurs(manifest, "Microsoft.AspNetCore."@)
    ||| text::occurs(manifest, "Swashbuckle"@)
    ||| text::occurs(manifest, "Microsoft.AspNetCore.OpenApi"@)
    ||| text::occurs(manifest, "OpenApi"@)
}

/// The projects, each with its name and its path, that matches of
/// `SOLUTION_PROJECT` give.
pub open spec fn matched_projects(found: Seq<patterns::Groups>) -> Seq<(Seq<char>, Seq<char>)>
    decreases found.len(),
{
    if found.len() == 0 {
        Seq::empty()
    } else {
        let front = matched_projects(found.drop_last());
        let name = patterns::group_text(found.last(), 1);
        let path = patterns::group_text(found.last(), 2);
        if name.len() > 0 && path.len() > 0 {
            front.push((name, text::with_char(path, '\\', '/')))
        } else {
            front
        }
    }
}

/// The projects of a solution.
pub open spec fn solution_projects(solution: Seq<char>) -> Seq<(Seq<char>, Seq<char>)> {
    matched_projects(patterns::regex_captures_iter(SOLUTION_PROJECT@, solution))
}

/// `c` is an ASCII letter or digit.
pub open spec fn is_alphanumeric(c: char) -> bool {
    ('a' <= c <= 'z') || ('A' <= c <= 'Z') || ('0' <= c <= '9')
}

/// `c` in lower case where it is an ASCII letter or digit, else a dash.
pub open spec fn id_char(c: char) -> char {
    if is_alphanumeric(c) {
        text::lower_char(c)
    } else {
        '-'
    }
}

/// `s` with `id_char` for each character.
pub open spec fn dashed(s: Seq<char>) -> Seq<char> {
    s.map_values(|c: char| id_char(c))
}

/// The runs of ASCII letters and digits of `s`, in lower case, with single
/// dashes between them.
pub open spec fn id_of(s: Seq<char>) -> Seq<char> {
    text::joined(text::nonempty(text::pieces(dashed(s), '-')), "-"@)
}

/// The names and paths that `v` holds.
pub open spec fn pair_views(v: Seq<(String, String)>) -> Seq<(Seq<char>, Seq<char>)> {
    v.map_values(|p: (String, String)| (p.0@, p.1@))
}

/// The trimmed text between `<tag>` and the next `</tag>`.
pub fn parse_xml_text(xml: &str, tag: &str) -> (r: Option<String>)
    ensures
        text::opt_text(r) == xml_text(xml@, tag@),
{
    let mut open = "<".to_owned();
    open.append(tag);
    open.append(">");
    let mut close = "</".to_owned();
    close.append(tag);
    close.append(">");
    match strings::text_after(xml, open.as_str()) {
        Some(rest) => match strings::text_before(rest.as_str(), close.as_str()) {
            Some(inner) => Some(strings::trim(inner.as_str())),
            None => None,
        },
        None => None,
    }
}

/// The value of the `Sdk` attribute of the project.
pub fn parse_project_sdk(xml: &str) -> (r: Option<String>)
    ensures
        text::opt_text(r) == project_sdk(xml@),
{
    match strings::text_from(xml, "<Project") {
        Some(element) => match strings::text_after(element.as_str(), "Sdk=\"") {
            Some(rest) => strings::text_before(rest.as_str(), "\""),
            None => None,
        },
        None => None,
    }
}

/// Whether the project with this manifest may expose an API.
pub fn project_may_expose_api(manifest: &str) -> (r: bool)
    ensures
        r == may_expose_api(manifest@),
{
    let sdk = match parse_project_sdk(manifest) {
        Some(s) => s,
        None => String::new(),
    };
    let uses_aspnet = strings::contains(sdk.as_str(), "Microsoft.NET.Sdk.Web")
        || strings::contains(manifest, "Microsoft.AspNetCore.App") || strings::contains(
        manifest,
        "Microsoft.AspNetCore.",
    );
    let exposes_openapi = strings::contains(manifest, "Swashbuckle") || strings::contains(
        manifest,
        "Microsoft.AspNetCore.OpenApi",
    ) || strings::contains(manifest, "OpenApi");
    uses_aspnet || exposes_openapi
}

/// The projects that matches of `SOLUTION_PROJECT` give.
pub fn projects_from_matches(found: &Vec<Vec<Option<String>>>) -> (r: Vec<(String, String)>)
    ensures
        pair_views(r@) == matched_projects(patterns::matches_of(found@)),
{
    let ghost ms = patterns::matches_of(found@);
    let mut r: Vec<(String, String)> = Vec::new();
    let mut i: usize = 0;
    while i < found.len()
        invariant
            ms == patterns::matches_of(found@),
            i <= found@.len(),
            pair_views(r@) == matched_projects(ms.take(i as int)),
        decreases found@.len() - i,
    {
        let ghost front = pair_views(r@);
        assert(ms.take(i + 1).drop_last() == ms.take(i as int));
        assert(ms.take(i + 1).last() == patterns::groups_of(found@[i as int]@));
        let name = patterns::group(&found[i], 1);
        let path = patterns::group(&found[i], 2);
        if !name.as_str().is_empty() && !path.as_str().is_empty() {
            let path = strings::replace_char(path.as_str(), '\\', '/');
            let ghost p = (name@, path@);
            r.push((name, path));
            assert(pair_views(r@) == front.push(p));
        }
        i = i + 1;
    }
    assert(ms.take(i as int) == ms);
    r
}

/// The projects of a solution, each with its name and its path.
pub fn parse_solution_projects(solution: &str) -> (r: Vec<(String, String)>)
    ensures
        pair_views(r@) == solution_projects(solution@),
{
    projects_from_matches(&patterns::captures_iter(SOLUTION_PROJECT, solution))
}

/// The runs of ASCII letters and digits of `value`, in lower case, with single
/// dashes between them.
pub fn sanitize_id(value: &str) -> (r: String)
    ensures
        r@ == id_of(value@),
{
    let x = strings::chars_of(value);
    let mut s = String::new();
    let mut i: usize = 0;
    while i < x.len()
        invariant
            x@ == value@,
            i <= x@.len(),
            s@ == dashed(value@).take(i as int),
        decreases x@.len() - i,
    {
        let c = x[i];
        if ('a' <= c && c <= 'z') || ('A' <= c && c <= 'Z') || ('0' <= c && c <= '9') {
            s.push(strings::to_lower_char(c));
        } else {
            s.push('-');
        }
        i = i + 1;
    }
    assert(dashed(value@).take(i as int) == dashed(value@));
    let parts = strings::split(s.as_str(), '-');
    let parts = strings::drop_empty(&parts);
    strings::join(&parts, "-")
}

} // verus!
