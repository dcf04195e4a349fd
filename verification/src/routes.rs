//! Route templates: how they combine, and when two of them are the same route.

use crate::attributes;
use crate::strings;
use crate::text;
use crate::text::CharClass;
use vstd::prelude::*;

verus! {

/// `route` without white space, and then without `/`s, at both ends.
pub open spec fn bare_route(route: Seq<char>) -> Seq<char> {
    text::strip(text::trimmed(route), CharClass::Only('/'))
}

/// `route` with `token` for each `name`, where there is a token.
pub open spec fn fill_token(
    route: Seq<char>,
    name: Seq<char>,
    token: Option<Seq<char>>,
) -> Seq<char> {
    match token {
        Some(t) => text::replaced(route, name, t),
        None => route,
    }
}

/// `route` with the tokens `[controller]`, `[action]` and `[area]` filled in.
pub open spec fn fill_tokens(
    route: Seq<char>,
    controller: Option<Seq<char>>,
    action: Option<Seq<char>>,
    area: Option<Seq<char>>,
) -> Seq<char> {
    fill_token(
        fill_token(fill_token(route, "[controller]"@, controller), "[action]"@, action),
        "[area]"@,
        area,
    )
}

/// `prefix` and `suffix`, both bare, as one route.
pub open spec fn rooted(prefix: Seq<char>, suffix: Seq<char>) -> Seq<char> {
    if prefix.len() == 0 && suffix.len() == 0 {
        "/"@
    } else if suffix.len() == 0 {
        "/"@ + prefix
    } else if prefix.len() == 0 {
        "/"@ + suffix
    } else {
        "/"@ + prefix + "/"@ + suffix
    }
}

/// The route of an endpoint with the route `suffix` under `prefix`.
pub open spec fn combined(
    prefix: Seq<char>,
    suffix: Seq<char>,
    controller: Option<Seq<char>>,
    action: Option<Seq<char>>,
    area: Option<Seq<char>>,
) -> Seq<char> {
    rooted(
        bare_route(fill_tokens(prefix, controller, action, area)),
        bare_route(fill_tokens(suffix, controller, action, area)),
    )
}

/// The name in a route parameter: `segment` without its constraints, its
/// default value, and the mark of an optional one.
pub open spec fn parameter_name(segment: Seq<char>) -> Seq<char> {
    let named = text::up_to(text::up_to(text::trimmed(segment), ":"@), "="@);
    text::trimmed(text::strip_back(named, CharClass::Only('?')))
}

/// `route` with the name alone left of each parameter in braces. A brace that
/// is not closed takes in the rest of the route.
pub open spec fn named_parameters(route: Seq<char>) -> Seq<char>
    decreases route.len(),
{
    if route.len() == 0 {
        route
    } else if route[0] == '{' {
        let rest = route.skip(1);
        match text::find(rest, seq!['}']) {
            Some(i) => {
                proof {
                    text::lemma_find(rest, seq!['}']);
                }
                seq!['{'] + parameter_name(rest.take(i)) + seq!['}'] + named_parameters(
                    rest.skip(i + 1),
                )
            },
            None => seq!['{'] + parameter_name(rest),
        }
    } else {
        seq![route[0]] + named_parameters(route.skip(1))
    }
}

/// What two routes have in common exactly if they are one for merging.
pub open spec fn canonical_route(route: Seq<char>) -> Seq<char> {
    let bare = bare_route(named_parameters(route));
    if bare.len() == 0 {
        "/"@
    } else {
        "/"@ + bare
    }
}

/// What two endpoints have in common exactly if they are one.
pub open spec fn merge_key(method: Seq<char>, route: Seq<char>) -> (Seq<char>, Seq<char>) {
    (text::upper(method), canonical_route(route))
}

/// `value` without white space, and then without `/`s, at both ends.
pub fn trim_route_slashes(value: &str) -> (r: String)
    ensures
        r@ == bare_route(value@),
{
    let v = strings::trim(value);
    strings::strip_ends(v.as_str(), CharClass::Only('/'))
}

fn replace_token(route: String, name: &str, token: Option<&str>) -> (r: String)
    requires
        name@.len() > 0,
    ensures
        r@ == fill_token(route@, name@, text::opt_str(token)),
{
    match token {
        Some(t) => strings::replace(route.as_str(), name, t),
        None => route,
    }
}

fn replace_tokens(
    route: &str,
    controller: Option<&str>,
    action: Option<&str>,
    area: Option<&str>,
) -> (r: String)
    ensures
        r@ == fill_tokens(
            route@,
            text::opt_str(controller),
            text::opt_str(action),
            text::opt_str(area),
        ),
{
    proof {
        reveal_strlit("[controller]");
        reveal_strlit("[action]");
        reveal_strlit("[area]");
    }
    let r = replace_token(route.to_owned(), "[controller]", controller);
    let r = replace_token(r, "[action]", action);
    replace_token(r, "[area]", area)
}

/// The route of an endpoint with the route `suffix` under `prefix`, with the
/// tokens filled in.
pub fn combine_routes(
    prefix: &str,
    suffix: &str,
    controller_token: Option<&str>,
    action_token: Option<&str>,
    area_token: Option<&str>,
) -> (r: String)
    ensures
        r@ == combined(
            prefix@,
            suffix@,
            text::opt_str(controller_token),
            text::opt_str(action_token),
            text::opt_str(area_token),
        ),
{
    let p = replace_tokens(prefix, controller_token, action_token, area_token);
    let p = trim_route_slashes(p.as_str());
    let s = replace_tokens(suffix, controller_token, action_token, area_token);
    let s = trim_route_slashes(s.as_str());
    let mut r = "/".to_owned();
    if p.as_str().is_empty() {
        if !s.as_str().is_empty() {
            r.append(s.as_str());
        }
    } else {
        r.append(p.as_str());
        if !s.as_str().is_empty() {
            r.append("/");
            r.append(s.as_str());
        }
    }
    r
}

/// The name in a route parameter.
pub fn normalize_route_parameter(segment: &str) -> (r: String)
    ensures
        r@ == parameter_name(segment@),
{
    let v = strings::trim(segment);
    let v = strings::text_up_to(v.as_str(), ":");
    let v = strings::text_up_to(v.as_str(), "=");
    let v = strings::strip_end(v.as_str(), CharClass::Only('?'));
    strings::trim(v.as_str())
}

/// What two routes have in common exactly if they are one for merging.
pub fn canonicalize_route_for_merge(route: &str) -> (r: String)
    ensures
        r@ == canonical_route(route@),
{
    let x = strings::chars_of(route);
    let brace: Vec<char> = vec!['}'];
    assert(brace@ == seq!['}']);
    let mut out = String::new();
    let mut i: usize = 0;
    assert(route@.skip(0) == route@);
    while i < x.len()
        invariant
            x@ == route@,
            brace@ == seq!['}'],
            i <= x@.len(),
            out@ + named_parameters(route@.skip(i as int)) == named_parameters(route@),
        decreases x@.len() - i,
    {
        let ghost here = route@.skip(i as int);
        if x[i] == '{' {
            let rest = vstd::slice::slice_subrange(x.as_slice(), i + 1, x.len());
            assert(rest@ == here.skip(1));
            out.push('{');
            match strings::find_chars(rest, brace.as_slice()) {
                Some(k) => {
                    let segment = strings::string_of(vstd::slice::slice_subrange(rest, 0, k));
                    let name = normalize_route_parameter(segment.as_str());
                    out.append(name.as_str());
                    out.push('}');
                    assert(here.skip(1).skip(k + 1) == route@.skip(i + k + 2));
                    i = i + 1 + k + 1;
                },
                None => {
                    let segment = strings::string_of(rest);
                    let name = normalize_route_parameter(segment.as_str());
                    out.append(name.as_str());
                    i = x.len();
                    assert(route@.skip(i as int).len() == 0);
                },
            }
        } else {
            out.push(x[i]);
            assert(here.skip(1) == route@.skip(i + 1));
            i = i + 1;
        }
    }
    assert(route@.skip(i as int).len() == 0);
    assert(out@ + route@.skip(i as int) == out@);
    let bare = trim_route_slashes(out.as_str());
    let mut r = "/".to_owned();
    if !bare.as_str().is_empty() {
        r.append(bare.as_str());
    }
    r
}

/// What two endpoints have in common exactly if they are one.
pub fn endpoint_merge_key(method: &str, route: &str) -> (r: (String, String))
    ensures
        (r.0@, r.1@) == merge_key(method@, route@),
{
    (strings::to_upper(method), canonicalize_route_for_merge(route))
}

/// The route prefixes of the groups that variables hold.
pub struct RouteGroups {
    entries: Vec<(String, String)>,
}

/// What a table is after `entries` were put into it in order.
pub open spec fn table_of(entries: Seq<(String, String)>) -> Map<Seq<char>, Seq<char>>
    decreases entries.len(),
{
    if entries.len() == 0 {
        Map::empty()
    } else {
        table_of(entries.drop_last()).insert(entries.last().0@, entries.last().1@)
    }
}

impl View for RouteGroups {
    type V = Map<Seq<char>, Seq<char>>;

    closed spec fn view(&self) -> Map<Seq<char>, Seq<char>> {
        table_of(self.entries@)
    }
}

impl RouteGroups {
    /// A table without groups.
    pub fn new() -> (r: RouteGroups)
        ensures
            r@ == Map::<Seq<char>, Seq<char>>::empty(),
    {
        RouteGroups { entries: Vec::new() }
    }

    /// Sets the prefix of the group that `name` holds.
    pub fn insert(&mut self, name: String, prefix: String)
        ensures
            final(self)@ == old(self)@.insert(name@, prefix@),
    {
        let ghost before = self.entries@;
        self.entries.push((name, prefix));
        assert(self.entries@.drop_last() == before);
    }

    /// The prefix of the group that `name` holds.
    pub fn get(&self, name: &str) -> (r: Option<String>)
        ensures
            text::opt_text(r) == (if self@.contains_key(name@) {
                Some(self@[name@])
            } else {
                None
            }),
    {
        let mut j: usize = self.entries.len();
        let ghost all = self.entries@;
        assert(all.take(j as int) == all);
        while j > 0
            invariant
                all == self.entries@,
                j <= all.len(),
                self@.contains_key(name@) == table_of(all.take(j as int)).contains_key(name@),
                self@.contains_key(name@) ==> self@[name@] == table_of(
                    all.take(j as int),
                )[name@],
            decreases j,
        {
            assert(all.take(j as int).drop_last() == all.take(j - 1));
            j = j - 1;
            if strings::same_text(self.entries[j].0.as_str(), name) {
                return Some(self.entries[j].1.clone());
            }
        }
        None
    }
}

/// The prefix that the name at the front of `expr` stands for, if it is that of
/// a group.
pub open spec fn base_prefix(expr: Seq<char>, groups: Map<Seq<char>, Seq<char>>) -> Seq<char> {
    let name = text::trimmed(text::up_to(expr, "."@));
    if !text::occurs(name, "("@) && groups.contains_key(name) {
        groups[name]
    } else {
        Seq::empty()
    }
}

/// `prefix` with the routes of the `.MapGroup(` calls in `rest` below it, up to
/// the first call without a string literal behind it.
pub open spec fn chained_prefix(prefix: Seq<char>, rest: Seq<char>) -> Seq<char>
    decreases rest.len(),
{
    match text::after(rest, ".MapGroup("@) {
        Some(args) => match attributes::first_literal(args) {
            Some(route) => {
                proof {
                    lemma_after_shorter(rest);
                }
                chained_prefix(combined(prefix, route, None, None, None), args)
            },
            None => prefix,
        },
        None => prefix,
    }
}

/// What stands behind a `.MapGroup(` is shorter than the whole.
pub proof fn lemma_after_shorter(s: Seq<char>)
    ensures
        text::after(s, ".MapGroup("@) matches Some(rest) ==> rest.len() < s.len(),
{
    reveal_strlit(".MapGroup(");
    text::lemma_find(s, ".MapGroup("@);
}

/// The route prefix of the group that `expr` gives.
pub open spec fn group_prefix(expr: Seq<char>, groups: Map<Seq<char>, Seq<char>>) -> Seq<char> {
    let e = text::trimmed(expr);
    chained_prefix(base_prefix(e, groups), e)
}

/// The route prefix of the group that `expr` gives.
pub fn resolve_group_prefix_expr(expr: &str, groups: &RouteGroups) -> (r: String)
    ensures
        r@ == group_prefix(expr@, groups@),
{
    let mut rest = strings::trim(expr);
    let first = strings::text_up_to(rest.as_str(), ".");
    let first = strings::trim(first.as_str());
    let mut prefix = String::new();
    if !strings::contains(first.as_str(), "(") {
        match groups.get(first.as_str()) {
            Some(p) => {
                prefix = p;
            },
            None => {},
        }
    }
    loop
        invariant
            chained_prefix(prefix@, rest@) == group_prefix(expr@, groups@),
        decreases rest@.len(),
    {
        proof {
            lemma_after_shorter(rest@);
        }
        match strings::text_after(rest.as_str(), ".MapGroup(") {
            Some(args) => match attributes::parse_first_string_literal(args.as_str()) {
                Some(route) => {
                    prefix = combine_routes(prefix.as_str(), route.as_str(), None, None, None);
                    rest = args;
                },
                None => {
                    return prefix;
                },
            },
            None => {
                return prefix;
            },
        }
    }
}

} // verus!
