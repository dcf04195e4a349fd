//! Laws of minimal APIs.

use crate::attribute_laws;
use crate::attributes;
use crate::minimal;
use crate::model::EndpointView;
use crate::patterns;
use crate::routes;
use crate::source;
use crate::text;
use crate::text_laws;
use vstd::prelude::*;

verus! {

/// The call that maps an endpoint for the HTTP method `k`, in the order in which
/// they are looked for.
pub open spec fn call(k: int) -> Seq<char> {
    ".Map"@ + attribute_laws::http_names()[k] + "("@
}

/// A line with a call and a string literal behind it maps an endpoint, whatever
/// else stands on it: its receiver is what stands before the call, and its route
/// the literal. Of several calls the first of the list counts.
pub proof fn law_call_found(
    k: int,
    a: Seq<char>,
    gap: Seq<char>,
    route: Seq<char>,
    b: Seq<char>,
)
    requires
        0 <= k < 5,
        !gap.contains('"'),
        !route.contains('"'),
        ({
            let line = a + call(k) + (gap + attribute_laws::quote() + route
                + attribute_laws::quote() + b);
            &&& text_laws::free_before(line, call(k), a.len() as int)
            &&& forall|j: int| 0 <= j < k ==> text_laws::free_of(line, #[trigger] call(j))
        }),
    ensures
        minimal::minimal_call(
            a + call(k) + (gap + attribute_laws::quote() + route + attribute_laws::quote() + b),
        ) == Some((text::trimmed(a), attribute_laws::http_names()[k], route)),
{
    let args = gap + attribute_laws::quote() + route + attribute_laws::quote() + b;
    let line = a + call(k) + args;
    attribute_laws::law_first_literal(gap, route, b);
    text_laws::law_cut(a, call(k), args);
    lemma_first_call(line, k);
}

/// The first call of the list that a line has counts.
proof fn lemma_first_call(line: Seq<char>, k: int)
    requires
        0 <= k <= 5,
        forall|j: int| 0 <= j < k ==> text_laws::free_of(line, #[trigger] call(j)),
        k < 5 ==> text::find(line, call(k)) is Some,
    ensures
        k < 5 ==> minimal::minimal_call(line) == minimal::call_of(
            line,
            attribute_laws::http_names()[k],
        ),
        k == 5 ==> minimal::minimal_call(line) is None,
{
    let names = attribute_laws::http_names();
    assert(names[0] == "Get"@ && names[1] == "Post"@ && names[2] == "Put"@ && names[3]
        == "Delete"@ && names[4] == "Patch"@);
    assert forall|j: int| 0 <= j < k implies !text::occurs(line, #[trigger] call(j)) by {
        text_laws::law_uncut(line, call(j));
    }
    assert(0 < k ==> !text::occurs(line, call(0)));
    assert(1 < k ==> !text::occurs(line, call(1)));
    assert(2 < k ==> !text::occurs(line, call(2)));
    assert(3 < k ==> !text::occurs(line, call(3)));
    assert(4 < k ==> !text::occurs(line, call(4)));
}

/// A line without a call maps nothing, nor does one whose call has no literal
/// behind it.
pub proof fn law_no_call_found(line: Seq<char>, k: int)
    requires
        0 <= k <= 5,
        forall|j: int| 0 <= j < k ==> text_laws::free_of(line, #[trigger] call(j)),
        k < 5 ==> text::after(line, call(k)) is Some && attributes::first_literal(
            text::after(line, call(k))->0,
        ) is None,
    ensures
        minimal::minimal_call(line) is None,
{
    lemma_first_call(line, k);
}

/// Line `t`, which is trimmed, is neither empty nor a comment.
pub open spec fn counts(t: Seq<char>) -> bool {
    t.len() > 0 && !(t.len() >= 2 && t[0] == '/' && t[1] == '/')
}

proof fn lemma_counts(t: Seq<char>)
    ensures
        counts(t) == !minimal::skipped(t),
{
    reveal_strlit("//");
    text_laws::law_ends_of(t, "//"@);
    if t.len() >= 2 {
        assert(t.take(2)[0] == t[0] && t.take(2)[1] == t[1]);
        if t[0] == '/' && t[1] == '/' {
            assert(t.take(2) =~= "//"@);
        }
    }
}

/// `e` is the endpoint that line `k` maps.
pub open spec fn is_call_at(
    e: EndpointView,
    project_id: Seq<char>,
    source_path: Seq<char>,
    source: Seq<char>,
    k: int,
) -> bool {
    let lines = text::lines_of(source);
    let t = text::trimmed(lines[k]);
    let number = source::line_number(source, source::line_offset(lines, k) as int);
    let colon = seq![':'];
    &&& counts(t)
    &&& minimal::minimal_call(t) matches Some((receiver, method, route)) && {
        &&& e.id == project_id + colon + source_path + colon + text::decimal(number as nat)
            + colon + method + colon + "minimal"@
        &&& e.project_id == project_id
        &&& e.method == text::upper(method)
        &&& e.route == routes::combined(
            routes::group_prefix(receiver, minimal::group_table(lines, k + 1)),
            route,
            None,
            None,
            None,
        )
        &&& e.source_path == source_path
        &&& e.line == number
        &&& e.style == "minimal-api"@
        &&& e.symbol is None
        &&& e.requires_auth == text::occurs(t, ".RequireAuthorization("@)
        &&& e.allows_anonymous == text::occurs(t, ".AllowAnonymous("@)
        &&& e.auth_schemes == minimal::line_schemes(t)
    }
}

/// What a line gives is what it maps.
proof fn lemma_line(
    project_id: Seq<char>,
    source_path: Seq<char>,
    source: Seq<char>,
    k: int,
)
    ensures
        ({
            let lines = text::lines_of(source);
            let t = text::trimmed(lines[k]);
            match minimal::line_endpoint(
                project_id,
                source_path,
                lines[k],
                source::line_number(source, source::line_offset(lines, k) as int),
                minimal::group_table(lines, k + 1),
            ) {
                Some(e) => is_call_at(e, project_id, source_path, source, k),
                None => !(counts(t) && minimal::minimal_call(t) is Some),
            }
        }),
{
    reveal_strlit(":");
    reveal_strlit(":minimal");
    reveal_strlit("minimal");
    assert(":"@ =~= seq![':']);
    assert(":minimal"@ =~= seq![':'] + "minimal"@);
    let lines = text::lines_of(source);
    let t = text::trimmed(lines[k]);
    lemma_counts(t);
    let number = source::line_number(source, source::line_offset(lines, k) as int);
    match minimal::minimal_call(t) {
        Some((receiver, method, route)) => {
            let colon = seq![':'];
            let front = project_id + colon + source_path + colon + text::decimal(number as nat)
                + colon + method;
            assert(front + ":minimal"@ =~= front + colon + "minimal"@);
        },
        None => {},
    }
}

/// Every line that counts and has a call with a string literal behind it is
/// listed, whatever else stands on it or on other lines.
pub proof fn law_calls_listed(
    project_id: Seq<char>,
    source_path: Seq<char>,
    source: Seq<char>,
    k: int,
)
    requires
        0 <= k < text::lines_of(source).len(),
        counts(text::trimmed(text::lines_of(source)[k])),
        minimal::minimal_call(text::trimmed(text::lines_of(source)[k])) is Some,
    ensures
        exists|j: int|
            0 <= j < minimal::minimal_endpoints(project_id, source_path, source).len()
                && is_call_at(
                #[trigger] minimal::minimal_endpoints(project_id, source_path, source)[j],
                project_id,
                source_path,
                source,
                k,
            ),
{
    let lines = text::lines_of(source);
    let front = minimal::endpoints_until(project_id, source_path, source, k);
    let upto = minimal::endpoints_until(project_id, source_path, source, k + 1);
    lemma_line(project_id, source_path, source, k);
    let j = front.len() as int;
    assert(is_call_at(upto[j], project_id, source_path, source, k));
    lemma_prefix(project_id, source_path, source, k + 1, lines.len() as int, j);
    let all = minimal::minimal_endpoints(project_id, source_path, source);
    assert(is_call_at(all[j], project_id, source_path, source, k));
}

/// A line with a call for an HTTP method and two quotation marks behind it gives
/// an endpoint with the number of the line, the method, and what stands between
/// the marks as its route below that of its group.
pub proof fn law_call_lines_listed(
    project_id: Seq<char>,
    source_path: Seq<char>,
    source: Seq<char>,
    at: int,
    k: int,
    a: Seq<char>,
    gap: Seq<char>,
    route: Seq<char>,
    b: Seq<char>,
)
    requires
        0 <= at < text::lines_of(source).len(),
        0 <= k < 5,
        !gap.contains('"'),
        !route.contains('"'),
        ({
            let line = a + call(k) + (gap + attribute_laws::quote() + route
                + attribute_laws::quote() + b);
            &&& text::trimmed(text::lines_of(source)[at]) == line
            &&& counts(line)
            &&& text_laws::free_before(line, call(k), a.len() as int)
            &&& forall|j: int| 0 <= j < k ==> text_laws::free_of(line, #[trigger] call(j))
        }),
    ensures
        exists|j: int|
            0 <= j < minimal::minimal_endpoints(project_id, source_path, source).len() && {
                let e = #[trigger] minimal::minimal_endpoints(
                    project_id,
                    source_path,
                    source,
                )[j];
                let lines = text::lines_of(source);
                &&& e.line == source::line_number(
                    source,
                    source::line_offset(lines, at) as int,
                )
                &&& e.method == text::upper(attribute_laws::http_names()[k])
                &&& e.route == routes::combined(
                    routes::group_prefix(text::trimmed(a), minimal::group_table(lines, at + 1)),
                    route,
                    None,
                    None,
                    None,
                )
                &&& e.source_path == source_path
            },
{
    law_call_found(k, a, gap, route, b);
    law_calls_listed(project_id, source_path, source, at);
    let all = minimal::minimal_endpoints(project_id, source_path, source);
    let j = choose|j: int|
        0 <= j < all.len() && is_call_at(
            #[trigger] all[j],
            project_id,
            source_path,
            source,
            at,
        );
    assert(is_call_at(all[j], project_id, source_path, source, at));
}

/// Earlier endpoints stay at the front.
proof fn lemma_prefix(
    project_id: Seq<char>,
    source_path: Seq<char>,
    source: Seq<char>,
    n: int,
    m: int,
    j: int,
)
    requires
        n <= m,
        0 <= j < minimal::endpoints_until(project_id, source_path, source, n).len(),
    ensures
        j < minimal::endpoints_until(project_id, source_path, source, m).len(),
        minimal::endpoints_until(project_id, source_path, source, m)[j]
            == minimal::endpoints_until(project_id, source_path, source, n)[j],
    decreases m - n,
{
    if n < m {
        lemma_prefix(project_id, source_path, source, n, m - 1, j);
    }
}

/// Nothing else is listed: each endpoint is mapped by a line, and those of later
/// lines come later.
pub proof fn law_only_calls_listed(
    project_id: Seq<char>,
    source_path: Seq<char>,
    source: Seq<char>,
) -> (at: Seq<int>)
    ensures
        ({
            let es = minimal::minimal_endpoints(project_id, source_path, source);
            &&& at.len() == es.len()
            &&& forall|j: int|
                0 <= j < at.len() ==> 0 <= #[trigger] at[j] < text::lines_of(source).len()
                    && is_call_at(es[j], project_id, source_path, source, at[j])
            &&& forall|i: int, j: int| 0 <= i < j < at.len() ==> at[i] < at[j]
        }),
{
    lemma_only_calls(project_id, source_path, source, text::lines_of(source).len() as int)
}

proof fn lemma_only_calls(
    project_id: Seq<char>,
    source_path: Seq<char>,
    source: Seq<char>,
    n: int,
) -> (at: Seq<int>)
    requires
        0 <= n <= text::lines_of(source).len(),
    ensures
        ({
            let es = minimal::endpoints_until(project_id, source_path, source, n);
            &&& at.len() == es.len()
            &&& forall|j: int|
                0 <= j < at.len() ==> 0 <= #[trigger] at[j] < n && is_call_at(
                    es[j],
                    project_id,
                    source_path,
                    source,
                    at[j],
                )
            &&& forall|i: int, j: int| 0 <= i < j < at.len() ==> at[i] < at[j]
        }),
    decreases n,
{
    if n <= 0 {
        Seq::empty()
    } else {
        let front = lemma_only_calls(project_id, source_path, source, n - 1);
        lemma_line(project_id, source_path, source, n - 1);
        let es = minimal::endpoints_until(project_id, source_path, source, n);
        if es.len() == front.len() {
            front
        } else {
            let at = front.push(n - 1);
            assert forall|j: int| 0 <= j < at.len() implies 0 <= #[trigger] at[j] < n
                && is_call_at(es[j], project_id, source_path, source, at[j]) by {
                if j < front.len() {
                    assert(at[j] == front[j]);
                }
            }
            at
        }
    }
}

/// A line that assigns a group gives its variable the prefix of the group, and
/// changes no other variable; any other line changes none.
pub proof fn law_groups_step(lines: Seq<Seq<char>>, k: int)
    requires
        0 <= k,
    ensures
        ({
            let t = text::trimmed(lines[k]);
            let before = minimal::group_table(lines, k);
            let after = minimal::group_table(lines, k + 1);
            let found = patterns::regex_captures(minimal::GROUP_ASSIGNMENT@, t);
            let name = patterns::group_text(found->0, 1);
            let prefix = routes::group_prefix(patterns::group_text(found->0, 2), before);
            let assigns = counts(t) && text::occurs(t, ".MapGroup("@) && found is Some
                && name.len() > 0 && prefix.len() > 0;
            &&& assigns ==> after.contains_key(name) && after[name] == prefix
            &&& forall|x: Seq<char>|
                !(assigns && x == name) ==> #[trigger] after.contains_key(x)
                    == before.contains_key(x) && (before.contains_key(x) ==> after[x] == before[x])
        }),
        minimal::group_table(lines, 0).dom().len() == 0,
{
    lemma_counts(text::trimmed(lines[k]));
}

/// The scheme of a call is the first literal behind `.RequireAuthorization(`.
pub proof fn law_line_schemes(a: Seq<char>, gap: Seq<char>, scheme: Seq<char>, b: Seq<char>)
    requires
        !gap.contains('"'),
        !scheme.contains('"'),
    ensures
        ({
            let args = gap + attribute_laws::quote() + scheme + attribute_laws::quote() + b;
            let line = a + ".RequireAuthorization("@ + args;
            text_laws::free_before(line, ".RequireAuthorization("@, a.len() as int)
                ==> minimal::line_schemes(line) == seq![scheme]
        }),
        text_laws::free_before(
            a + ".RequireAuthorization("@ + gap,
            ".RequireAuthorization("@,
            a.len() as int,
        ) ==> minimal::line_schemes(a + ".RequireAuthorization("@ + gap).len() == 0,
        text_laws::free_of(a, ".RequireAuthorization("@) ==> minimal::line_schemes(a).len() == 0,
{
    let args = gap + attribute_laws::quote() + scheme + attribute_laws::quote() + b;
    let pat = ".RequireAuthorization("@;
    attribute_laws::law_first_literal(gap, scheme, b);
    if text_laws::free_before(a + pat + args, pat, a.len() as int) {
        text_laws::law_cut(a, pat, args);
    }
    if text_laws::free_before(a + pat + gap, pat, a.len() as int) {
        text_laws::law_cut(a, pat, gap);
    }
    if text_laws::free_of(a, pat) {
        text_laws::law_uncut(a, pat);
    }
}

/// The pattern that assignments are found by, part by part.
pub proof fn law_assignment_pattern()
    ensures
        minimal::GROUP_ASSIGNMENT@ == r"(?:(?:var|let)\s+)?"@
            + r"(?P<name>[A-Za-z_][A-Za-z0-9_]*)"@ + r"\s*=\s*"@ + r"(?P<expr>.+)$"@,
{
    reveal_strlit(r"(?:(?:var|let)\s+)?");
    reveal_strlit(r"(?P<name>[A-Za-z_][A-Za-z0-9_]*)");
    reveal_strlit(r"\s*=\s*");
    reveal_strlit(r"(?P<expr>.+)$");
    reveal_strlit(
        r#"(?:(?:var|let)\s+)?(?P<name>[A-Za-z_][A-Za-z0-9_]*)\s*=\s*(?P<expr>.+)$"#,
    );
    assert(minimal::GROUP_ASSIGNMENT@ =~= r"(?:(?:var|let)\s+)?"@
        + r"(?P<name>[A-Za-z_][A-Za-z0-9_]*)"@ + r"\s*=\s*"@ + r"(?P<expr>.+)$"@);
}

} // verus!
