//! Paths with `/` between their parts, and what file names say of a file.

use crate::strings;
use crate::text;
use crate::text::CharClass;
use vstd::prelude::*;

verus! {

/// `path` names a solution file.
pub open spec fn solution_path(path: Seq<char>) -> bool {
    text::ends(path, ".sln"@)
}

/// `path` names a project file.
pub open spec fn project_path(path: Seq<char>) -> bool {
    text::ends(path, ".csproj"@) || text::ends(path, ".fsproj"@) || text::ends(path, ".vbproj"@)
}

/// `path` lies in a directory of build results or of version control.
pub open spec fn ignored_source(path: Seq<char>) -> bool {
    ||| text::begins(path, "obj/"@)
    ||| text::begins(path, "bin/"@)
    ||| text::occurs(path, "/obj/"@)
    ||| text::occurs(path, "/bin/"@)
    ||| text::occurs(path, "/.git/"@)
}

/// `file` is one of the usual names of an OpenAPI document.
pub open spec fn oas_file_name(file: Seq<char>) -> bool {
    ||| file == "openapi.yaml"@
    ||| file == "openapi.yml"@
    ||| file == "openapi.json"@
    ||| file == "swagger.yaml"@
    ||| file == "swagger.yml"@
    ||| file == "swagger.json"@
}

/// `path` may be an OpenAPI document, going by its name and directories in any
/// case of letters.
pub open spec fn oas_path(path: Seq<char>) -> bool {
    let p = text::lower(path);
    ||| oas_file_name(text::pieces(p, '/').last())
    ||| {
        &&& text::occurs(p, "/openapi/"@) || text::occurs(p, "/swagger/"@) || text::occurs(
            p,
            "/docs/"@,
        )
        &&& text::ends(p, ".json"@) || text::ends(p, ".yaml"@) || text::ends(p, ".yml"@)
    }
}

/// The directory that `path` lies in, if `path` has a `/`.
pub open spec fn relative_parent(path: Seq<char>) -> Option<Seq<char>> {
    match text::last_position(path, '/') {
        Some(i) => Some(path.take(i)),
        None => None,
    }
}

/// The directory that `path` lies in.
pub open spec fn parent(path: Seq<char>) -> Seq<char> {
    match text::last_position(path, '/') {
        Some(i) => if i > 0 {
            path.take(i)
        } else {
            "/"@
        },
        None => "."@,
    }
}

/// The file name of `path` without its last extension.
pub open spec fn stem(path: Seq<char>) -> Seq<char> {
    let file = text::pieces(path, '/').last();
    match text::last_position(file, '.') {
        Some(i) => file.take(i),
        None => file,
    }
}

/// `rel` below `base`.
pub open spec fn path_below(base: Seq<char>, rel: Seq<char>) -> Seq<char> {
    if base.len() == 0 || base == "."@ {
        rel
    } else if text::ends(base, "/"@) {
        base + rel
    } else {
        base + "/"@ + rel
    }
}

/// The parts of a path once `.` and `..` are worked out. A `..` with nothing
/// above it is dropped.
pub open spec fn resolved_parts(parts: Seq<Seq<char>>) -> Seq<Seq<char>>
    decreases parts.len(),
{
    if parts.len() == 0 {
        parts
    } else {
        let front = resolved_parts(parts.drop_last());
        let part = parts.last();
        if part.len() == 0 || part == "."@ {
            front
        } else if part == ".."@ {
            if front.len() > 0 {
                front.drop_last()
            } else {
                front
            }
        } else {
            front.push(part)
        }
    }
}

/// `path` without `.`, `..` and repeated `/`; absolute exactly if `path` is.
pub open spec fn normal_path(path: Seq<char>) -> Seq<char> {
    let rel = text::joined(resolved_parts(text::pieces(path, '/')), "/"@);
    if text::begins(path, "/"@) {
        "/"@ + rel
    } else {
        rel
    }
}

/// `path` with `/` for `\`, without the `./`s it begins with and the `/`s at
/// its ends.
pub open spec fn normal_relative(path: Seq<char>) -> Seq<char> {
    text::strip(
        text::without_prefixes(text::with_char(path, '\\', '/'), "./"@),
        CharClass::Only('/'),
    )
}

/// The path of a source below the workspace, where `root` is the directory of
/// its project and `rel` its path in there.
pub open spec fn source_path(root: Seq<char>, rel: Seq<char>) -> Seq<char> {
    if root.len() == 0 {
        rel
    } else {
        text::strip_back(root, CharClass::Only('/')) + "/"@ + rel
    }
}

/// Whether `path` names a solution file.
pub fn is_solution_path(path: &str) -> (r: bool)
    ensures
        r == solution_path(path@),
{
    strings::ends_with(path, ".sln")
}

/// Whether `path` names a project file.
pub fn is_project_path(path: &str) -> (r: bool)
    ensures
        r == project_path(path@),
{
    strings::ends_with(path, ".csproj") || strings::ends_with(path, ".fsproj")
        || strings::ends_with(path, ".vbproj")
}

/// Whether `path` lies in a directory that holds no sources.
pub fn is_ignored_source_path(path: &str) -> (r: bool)
    ensures
        r == ignored_source(path@),
{
    strings::starts_with(path, "obj/") || strings::starts_with(path, "bin/") || strings::contains(
        path,
        "/obj/",
    ) || strings::contains(path, "/bin/") || strings::contains(path, "/.git/")
}

/// What follows the last `/` of `path`.
fn file_name(path: &str) -> (r: String)
    ensures
        r@ == text::pieces(path@, '/').last(),
{
    let mut parts = strings::split(path, '/');
    proof {
        text::lemma_pieces_nonempty(path@, '/');
    }
    let ghost ps = text::texts(parts@);
    assert(ps.last() == parts@.last()@);
    match parts.pop() {
        Some(p) => p,
        None => String::new(),
    }
}

/// Whether `path` may be an OpenAPI document.
pub fn looks_like_oas_path(path: &str) -> (r: bool)
    ensures
        r == oas_path(path@),
{
    let p = strings::to_lower(path);
    let p = p.as_str();
    let file = file_name(p);
    let file = file.as_str();
    let likely_name = strings::same_text(file, "openapi.yaml") || strings::same_text(
        file,
        "openapi.yml",
    ) || strings::same_text(file, "openapi.json") || strings::same_text(file, "swagger.yaml")
        || strings::same_text(file, "swagger.yml") || strings::same_text(file, "swagger.json");
    likely_name || ((strings::contains(p, "/openapi/") || strings::contains(p, "/swagger/")
        || strings::contains(p, "/docs/")) && (strings::ends_with(p, ".json")
        || strings::ends_with(p, ".yaml") || strings::ends_with(p, ".yml")))
}

/// The directory that `path` lies in.
pub fn parent_dir(path: &str) -> (r: String)
    ensures
        r@ == parent(path@),
{
    match strings::split_last(path, '/') {
        Some((dir, _)) => {
            proof {
                text::lemma_last_position(path@, '/');
            }
            if dir.as_str().is_empty() {
                "/".to_owned()
            } else {
                dir
            }
        },
        None => ".".to_owned(),
    }
}

/// The directory that `path` lies in, if `path` has a `/`.
pub fn parent_dir_rel(path: &str) -> (r: Option<String>)
    ensures
        text::opt_text(r) == relative_parent(path@),
{
    match strings::split_last(path, '/') {
        Some((dir, _)) => Some(dir),
        None => None,
    }
}

/// The file name of `path` without its last extension.
pub fn file_stem(path: &str) -> (r: String)
    ensures
        r@ == stem(path@),
{
    let file = file_name(path);
    match strings::split_last(file.as_str(), '.') {
        Some((name, _)) => name,
        None => file,
    }
}

/// `rel` below `base`.
pub fn join_path(base: &str, rel: &str) -> (r: String)
    ensures
        r@ == path_below(base@, rel@),
{
    if base.is_empty() || strings::same_text(base, ".") {
        rel.to_owned()
    } else {
        let mut r = base.to_owned();
        if !strings::ends_with(base, "/") {
            r.append("/");
        }
        r.append(rel);
        r
    }
}

/// `path` without `.`, `..` and repeated `/`.
pub fn normalize_path(path: &str) -> (r: String)
    ensures
        r@ == normal_path(path@),
{
    let parts = strings::split(path, '/');
    let ghost ps = text::texts(parts@);
    let mut out: Vec<String> = Vec::new();
    let mut i: usize = 0;
    while i < parts.len()
        invariant
            ps == text::texts(parts@),
            i <= parts@.len(),
            text::texts(out@) == resolved_parts(ps.take(i as int)),
        decreases parts@.len() - i,
    {
        let ghost front = text::texts(out@);
        assert(ps.take(i + 1).drop_last() == ps.take(i as int));
        assert(ps.take(i + 1).last() == parts@[i as int]@);
        let part = parts[i].as_str();
        if part.is_empty() || strings::same_text(part, ".") {
        } else if strings::same_text(part, "..") {
            if out.len() > 0 {
                out.pop();
                assert(text::texts(out@) == front.drop_last());
            }
        } else {
            out.push(part.to_owned());
            assert(text::texts(out@) == front.push(part@));
        }
        i = i + 1;
    }
    assert(ps.take(i as int) == ps);
    let rel = strings::join(&out, "/");
    if strings::starts_with(path, "/") {
        let mut r = "/".to_owned();
        r.append(rel.as_str());
        r
    } else {
        rel
    }
}

/// `path` with `/` for `\`, without leading `./`s and the `/`s at its ends.
pub fn normalize_rel_path(path: &str) -> (r: String)
    ensures
        r@ == normal_relative(path@),
{
    proof {
        reveal_strlit("./");
    }
    let p = strings::replace_char(path, '\\', '/');
    let q = strings::strip_prefixes(p.as_str(), "./");
    strings::strip_ends(q.as_str(), CharClass::Only('/'))
}

/// `path` without the `/`s at its end.
pub fn trim_trailing_slash(path: &str) -> (r: String)
    ensures
        r@ == text::strip_back(path@, CharClass::Only('/')),
{
    strings::strip_end(path, CharClass::Only('/'))
}

/// The path of a source below the workspace.
pub fn workspace_source_path(root: &str, rel: &str) -> (r: String)
    ensures
        r@ == source_path(root@, rel@),
{
    if root.is_empty() {
        rel.to_owned()
    } else {
        let mut r = trim_trailing_slash(root);
        r.append("/");
        r.append(rel);
        r
    }
}

} // verus!
