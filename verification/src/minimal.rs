//! Endpoints of minimal APIs: calls like `app.MapGet("/route", ...)`.

use crate::attributes;
use crate::model;
use crate::model::{EndpointRecord, EndpointView};
use crate::patterns;
use crate::routes;
use crate::routes::RouteGroups;
use crate::source;
use crate::strings;
use crate::text;
use vstd::prelude::*;

verus! {

/// Finds an assignment: the first group is the variable, the second what is
/// assigned to it.
pub const GROUP_ASSIGNMENT: &'static str =
    r#"(?:(?:var|let)\s+)?(?P<name>[A-Za-z_][A-Za-z0-9_]*)\s*=\s*(?P<expr>.+)$"#;

/// The receiver, the method and the route of the call `.Map<method>(` in
/// `line`; none without a string literal behind it.
pub open spec fn call_of(line: Seq<char>, method: Seq<char>) -> Option<
    (Seq<char>, Seq<char>, Seq<char>),
> {
    let needle = ".Map"@ + method + "("@;
    match text::after(line, needle) {
        Some(args) => match attributes::first_literal(args) {
            Some(route) => Some((text::trimmed(text::up_to(line, needle)), method, route)),
            None => None,
        },
        None => None,
    }
}

/// `line` has a call `.Map<method>(`.
pub open spec fn calls(line: Seq<char>, method: Seq<char>) -> bool {
    text::occurs(line, ".Map"@ + method + "("@)
}

/// The receiver, the method and the route of the endpoint that `line` maps. Of
/// several methods the first of the list counts.
pub open spec fn minimal_call(line: Seq<char>) -> Option<(Seq<char>, Seq<char>, Seq<char>)> {
    if calls(line, "Get"@) {
        call_of(line, "Get"@)
    } else if calls(line, "Post"@) {
        call_of(line, "Post"@)
    } else if calls(line, "Put"@) {
        call_of(line, "Put"@)
    } else if calls(line, "Delete"@) {
        call_of(line, "Delete"@)
    } else if calls(line, "Patch"@) {
        call_of(line, "Patch"@)
    } else {
        None
    }
}

/// The authorization schemes that the call in `line` asks for.
pub open spec fn line_schemes(line: Seq<char>) -> Seq<Seq<char>> {
    match text::after(line, ".RequireAuthorization("@) {
        Some(args) => match attributes::first_literal(args) {
            Some(scheme) => seq![scheme],
            None => Seq::empty(),
        },
        None => Seq::empty(),
    }
}

/// The trimmed line `t` is empty or a comment.
pub open spec fn skipped(t: Seq<char>) -> bool {
    t.len() == 0 || text::begins(t, "//"@)
}

/// `groups` after an assignment that matched with the groups `found`.
pub open spec fn with_assignment(
    groups: Map<Seq<char>, Seq<char>>,
    found: patterns::Groups,
) -> Map<Seq<char>, Seq<char>> {
    let name = patterns::group_text(found, 1);
    let prefix = routes::group_prefix(patterns::group_text(found, 2), groups);
    if name.len() > 0 && prefix.len() > 0 {
        groups.insert(name, prefix)
    } else {
        groups
    }
}

/// `groups` after `line`.
pub open spec fn groups_after(
    groups: Map<Seq<char>, Seq<char>>,
    line: Seq<char>,
) -> Map<Seq<char>, Seq<char>> {
    let t = text::trimmed(line);
    if !skipped(t) && text::occurs(t, ".MapGroup("@) {
        match patterns::regex_captures(GROUP_ASSIGNMENT@, t) {
            Some(found) => with_assignment(groups, found),
            None => groups,
        }
    } else {
        groups
    }
}

/// The groups after the first `n` lines.
pub open spec fn group_table(lines: Seq<Seq<char>>, n: int) -> Map<Seq<char>, Seq<char>>
    decreases n,
{
    if n <= 0 {
        Map::empty()
    } else {
        groups_after(group_table(lines, n - 1), lines[n - 1])
    }
}

/// The endpoint that `line` maps, where `groups` are known and `number` is the
/// number of the line.
pub open spec fn line_endpoint(
    project_id: Seq<char>,
    source_path: Seq<char>,
    line: Seq<char>,
    number: u32,
    groups: Map<Seq<char>, Seq<char>>,
) -> Option<EndpointView> {
    let t = text::trimmed(line);
    if skipped(t) {
        None
    } else {
        match minimal_call(t) {
            Some((receiver, method, route)) => Some(
                EndpointView {
                    id: project_id + ":"@ + source_path + ":"@ + text::decimal(number as nat) + ":"@
                        + method + ":minimal"@,
                    project_id,
                    method: text::upper(method),
                    route: routes::combined(
                        routes::group_prefix(receiver, groups),
                        route,
                        None,
                        None,
                        None,
                    ),
                    source_path,
                    line: number,
                    style: "minimal-api"@,
                    symbol: None,
                    requires_auth: text::occurs(t, ".RequireAuthorization("@),
                    allows_anonymous: text::occurs(t, ".AllowAnonymous("@),
                    auth_schemes: line_schemes(t),
                },
            ),
            None => None,
        }
    }
}

/// The endpoints that the first `n` lines of `source` map.
pub open spec fn endpoints_until(
    project_id: Seq<char>,
    source_path: Seq<char>,
    source: Seq<char>,
    n: int,
) -> Seq<EndpointView>
    decreases n,
{
    if n <= 0 {
        Seq::empty()
    } else {
        let lines = text::lines_of(source);
        let front = endpoints_until(project_id, source_path, source, n - 1);
        match line_endpoint(
            project_id,
            source_path,
            lines[n - 1],
            source::line_number(source, source::line_offset(lines, n - 1) as int),
            group_table(lines, n),
        ) {
            Some(e) => front.push(e),
            None => front,
        }
    }
}

/// The endpoints that `source` maps, in the order of its lines.
pub open spec fn minimal_endpoints(
    project_id: Seq<char>,
    source_path: Seq<char>,
    source: Seq<char>,
) -> Seq<EndpointView> {
    endpoints_until(project_id, source_path, source, text::lines_of(source).len() as int)
}

/// The texts of a call, if any.
pub open spec fn opt_call(c: Option<(String, String, String)>) -> Option<
    (Seq<char>, Seq<char>, Seq<char>),
> {
    match c {
        Some(t) => Some((t.0@, t.1@, t.2@)),
        None => None,
    }
}

/// Whether the call in `line` asks for authorization.
pub fn line_requires_authorization(line: &str) -> (r: bool)
    ensures
        r == text::occurs(line@, ".RequireAuthorization("@),
{
    strings::contains(line, ".RequireAuthorization(")
}

/// Whether the call in `line` allows anonymous access.
pub fn line_allows_anonymous(line: &str) -> (r: bool)
    ensures
        r == text::occurs(line@, ".AllowAnonymous("@),
{
    strings::contains(line, ".AllowAnonymous(")
}

/// The authorization schemes that the call in `line` asks for.
pub fn authorization_schemes_from_line(line: &str) -> (r: Vec<String>)
    ensures
        text::texts(r@) == line_schemes(line@),
{
    let mut schemes: Vec<String> = Vec::new();
    match strings::text_after(line, ".RequireAuthorization(") {
        Some(args) => match attributes::parse_first_string_literal(args.as_str()) {
            Some(first) => {
                schemes.push(first);
                assert(text::texts(schemes@) == seq![first@]);
            },
            None => {},
        },
        None => {},
    }
    schemes
}

/// The call `.Map<method>(` in `line`: whether there is one, and if so its
/// receiver, method and route.
fn find_call(line: &str, method: &str) -> (r: (bool, Option<(String, String, String)>))
    ensures
        r.0 == calls(line@, method@),
        r.0 ==> opt_call(r.1) == call_of(line@, method@),
{
    let mut needle = ".Map".to_owned();
    needle.append(method);
    needle.append("(");
    match strings::split_once(line, needle.as_str()) {
        Some((receiver, args)) => match attributes::parse_first_string_literal(args.as_str()) {
            Some(route) => {
                let receiver = strings::trim(receiver.as_str());
                (true, Some((receiver, method.to_owned(), route)))
            },
            None => (true, None),
        },
        None => (false, None),
    }
}

/// The receiver, the method and the route of the endpoint that `line` maps.
pub fn parse_minimal_endpoint_call(line: &str) -> (r: Option<(String, String, String)>)
    ensures
        opt_call(r) == minimal_call(line@),
{
    let (found, call) = find_call(line, "Get");
    if found {
        return call;
    }
    let (found, call) = find_call(line, "Post");
    if found {
        return call;
    }
    let (found, call) = find_call(line, "Put");
    if found {
        return call;
    }
    let (found, call) = find_call(line, "Delete");
    if found {
        return call;
    }
    let (found, call) = find_call(line, "Patch");
    if found {
        return call;
    }
    None
}

/// Enters the group that an assignment gives, where `GROUP_ASSIGNMENT` matched
/// it with the groups `found`.
pub fn assign_group(groups: &mut RouteGroups, found: &Vec<Option<String>>)
    ensures
        final(groups)@ == with_assignment(old(groups)@, patterns::groups_of(found@)),
{
    let name = patterns::group(found, 1);
    if !name.as_str().is_empty() {
        let expr = patterns::group(found, 2);
        let prefix = routes::resolve_group_prefix_expr(expr.as_str(), groups);
        if !prefix.as_str().is_empty() {
            groups.insert(name, prefix);
        }
    }
}

/// The endpoint that `line` maps.
pub fn endpoint_of_line(
    project_id: &str,
    source_path: &str,
    line: &str,
    number: u32,
    groups: &RouteGroups,
) -> (r: Option<EndpointRecord>)
    ensures
        match r {
            Some(e) => line_endpoint(project_id@, source_path@, line@, number, groups@) == Some(e@),
            None => line_endpoint(project_id@, source_path@, line@, number, groups@) is None,
        },
{
    let t = strings::trim(line);
    let t = t.as_str();
    if t.is_empty() || strings::starts_with(t, "//") {
        return None;
    }
    match parse_minimal_endpoint_call(t) {
        Some((receiver, method, route)) => {
            let prefix = routes::resolve_group_prefix_expr(receiver.as_str(), groups);
            let mut id = project_id.to_owned();
            id.append(":");
            id.append(source_path);
            id.append(":");
            let digits = strings::decimal_of(number);
            id.append(digits.as_str());
            id.append(":");
            id.append(method.as_str());
            id.append(":minimal");
            Some(
                EndpointRecord {
                    id,
                    project_id: project_id.to_owned(),
                    method: strings::to_upper(method.as_str()),
                    route: routes::combine_routes(
                        prefix.as_str(),
                        route.as_str(),
                        None,
                        None,
                        None,
                    ),
                    source_path: source_path.to_owned(),
                    line: number,
                    style: "minimal-api".to_owned(),
                    symbol: None,
                    requires_auth: line_requires_authorization(t),
                    allows_anonymous: line_allows_anonymous(t),
                    auth_schemes: authorization_schemes_from_line(t),
                },
            )
        },
        None => None,
    }
}

/// The endpoints that `source` maps, in the order of its lines.
pub fn parse_minimal_api_endpoints(project_id: &str, source_path: &str, source: &str) -> (r: Vec<
    EndpointRecord,
>)
    ensures
        model::endpoint_views(r@) == minimal_endpoints(project_id@, source_path@, source@),
{
    let lines = strings::lines(source);
    let ghost views = text::lines_of(source@);
    let mut endpoints: Vec<EndpointRecord> = Vec::new();
    let mut groups = RouteGroups::new();
    let mut offset: usize = 0;
    let mut i: usize = 0;
    while i < lines.len()
        invariant
            views == text::lines_of(source@),
            views == text::texts(lines@),
            i <= lines@.len(),
            groups@ == group_table(views, i as int),
            offset == source::capped(source::line_offset(views, i as int)),
            model::endpoint_views(endpoints@) == endpoints_until(
                project_id@,
                source_path@,
                source@,
                i as int,
            ),
        decreases lines@.len() - i,
    {
        let line = lines[i].as_str();
        assert(line@ == views[i as int]);
        let t = strings::trim(line);
        if !t.as_str().is_empty() && !strings::starts_with(t.as_str(), "//") && strings::contains(
            t.as_str(),
            ".MapGroup(",
        ) {
            match patterns::captures(GROUP_ASSIGNMENT, t.as_str()) {
                Some(found) => assign_group(&mut groups, &found),
                None => {},
            }
        }
        assert(groups@ == group_table(views, i + 1));
        let ghost front = model::endpoint_views(endpoints@);
        if parse_minimal_endpoint_call(t.as_str()).is_some() {
            let number: u32 = source::line_number_for_offset(source, offset);
            match endpoint_of_line(project_id, source_path, line, number, &groups) {
                Some(e) => {
                    let ghost v = e@;
                    endpoints.push(e);
                    assert(model::endpoint_views(endpoints@) == front.push(v));
                },
                None => {},
            }
        }
        offset = source::next_offset(offset, line, Ghost(source::line_offset(views, i as int)));
        i = i + 1;
    }
    endpoints
}

} // verus!
