//! Laws of controllers.

use crate::attributes;
use crate::controllers;
use crate::controllers::{ControllerView, ScopeView};
use crate::model::EndpointView;
use crate::patterns;
use crate::routes;
use crate::source;
use crate::text;
use crate::text::CharClass;
use crate::text_laws;
use crate::text_lemmas;
use vstd::prelude::*;

verus! {

/// A line that begins with a brace, and declares no class, stays in the
/// controller, however it is indented.
pub proof fn law_brace_keeps_controller(scope: ScopeView, line: Seq<char>)
    requires
        text::begins(text::trimmed(line), "{"@),
    ensures
        ({
            let after = controllers::scope_after(scope, line, None);
            &&& after.controller == scope.controller
            &&& after.indent == scope.indent
            &&& after.pending.len() == 0
        }),
{
    lemma_no_attribute(line);
}

/// A line that begins with a brace is no attribute.
proof fn lemma_no_attribute(line: Seq<char>)
    requires
        text::begins(text::trimmed(line), "{"@),
    ensures
        !controllers::is_attribute(line),
{
    reveal_strlit("{");
    reveal_strlit("[");
    let t = text::trimmed(line);
    assert(t.subrange(0, 1)[0] == '{');
    if text::begins(t, "["@) {
        assert(t.subrange(0, 1)[0] == '[');
    }
}

/// The opening brace of a class may stand on a line of its own: what is known
/// after it is what is known after the declaration of the class.
pub proof fn law_brace_below_class(
    scope: ScopeView,
    line: Seq<char>,
    class: patterns::Groups,
    brace: Seq<char>,
)
    requires
        !controllers::is_attribute(line),
        text::begins(text::trimmed(brace), "{"@),
    ensures
        ({
            let declared = controllers::scope_after(scope, line, Some(class));
            controllers::scope_after(declared, brace, None) == declared
        }),
{
    let declared = controllers::scope_after(scope, line, Some(class));
    law_brace_keeps_controller(declared, brace);
    assert(controllers::scope_after(declared, brace, None) =~= declared);
}

/// `line` has more than `n` characters of white space at its front.
pub open spec fn indented_beyond(line: Seq<char>, n: nat) -> bool {
    n < line.len() && forall|i: int| 0 <= i <= n ==> text::is_white(#[trigger] line[i])
}

/// The white space at the front of an indented line is counted.
proof fn lemma_indented(line: Seq<char>, n: nat)
    ensures
        indented_beyond(line, n) <==> text::white_prefix(line) > n,
{
    let m = text_lemmas::lemma_strip_front(line, CharClass::White);
    assert(text::white_prefix(line) == m);
    if indented_beyond(line, n) {
        if m <= n {
            assert(text::is_white(line[m]));
        }
    }
    if m > n {
        assert forall|i: int| 0 <= i <= n implies text::is_white(#[trigger] line[i]) by {
            assert(text::in_class(CharClass::White, line[i]));
        }
    }
}

/// A line that is indented further than the class, and declares no class, stays
/// in the controller, whatever stands on it.
pub proof fn law_indented_line_stays(scope: ScopeView, line: Seq<char>)
    requires
        scope.indent matches Some(n) ==> indented_beyond(line, n),
    ensures
        ({
            let after = controllers::scope_after(scope, line, None);
            &&& after.controller == scope.controller
            &&& after.indent == scope.indent
        }),
{
    match scope.indent {
        Some(n) => lemma_indented(line, n),
        None => {},
    }
}

/// A blank line stays in the controller, and nothing is left of the attributes
/// above it.
pub proof fn law_blank_line_stays(scope: ScopeView, line: Seq<char>)
    requires
        text_laws::all_of(line, CharClass::White),
    ensures
        ({
            let after = controllers::scope_after(scope, line, None);
            &&& after.controller == scope.controller
            &&& after.indent == scope.indent
            &&& after.pending.len() == 0
        }),
{
    let e = Seq::<char>::empty();
    text_laws::law_strip(line, e, e, CharClass::White);
    assert(line + e + e =~= line);
    reveal_strlit("[");
    text_laws::law_ends_of(e, "["@);
}

/// A line that is not indented further than the class, and is neither blank nor
/// an attribute nor a brace that opens something, is outside the controller.
pub proof fn law_unindented_line_leaves(scope: ScopeView, u: Seq<char>, rest: Seq<char>)
    requires
        text_laws::all_of(u, CharClass::White),
        rest.len() > 0,
        !text::is_white(rest[0]),
        rest[0] != '{',
        rest[0] != '[',
        scope.indent matches Some(n) && u.len() <= n,
    ensures
        ({
            let after = controllers::scope_after(scope, u + rest, None);
            after.controller is None && after.indent is None && after.pending.len() == 0
        }),
{
    text_laws::law_white_prefix(u, rest);
    lemma_first_of_trimmed(u, rest);
}

/// What a line begins with, behind its white space.
proof fn lemma_first_of_trimmed(u: Seq<char>, rest: Seq<char>)
    requires
        text_laws::all_of(u, CharClass::White),
        rest.len() > 0,
        !text::is_white(rest[0]),
    ensures
        text::trimmed(u + rest).len() > 0,
        text::trimmed(u + rest)[0] == rest[0],
        text::begins(text::trimmed(u + rest), "["@) == (rest[0] == '['),
        text::begins(text::trimmed(u + rest), "{"@) == (rest[0] == '{'),
{
    let k = CharClass::White;
    let b = text_lemmas::lemma_strip_back(rest, k);
    assert(b > 0) by {
        if b == 0 {
            assert(text::in_class(k, rest[0]));
        }
    }
    let m = rest.take(b);
    let v = rest.skip(b);
    assert(m + v =~= rest);
    assert(u + m + v =~= u + rest);
    assert(text_laws::all_of(v, k)) by {
        assert forall|i: int| 0 <= i < v.len() implies text::is_white(#[trigger] v[i]) by {
            assert(text::in_class(k, rest[i + b]));
        }
    }
    assert(text_laws::bare_of(m, k)) by {
        assert(!text::is_white(seq![m[0]][0]));
        assert(!text::is_white(seq![m.last()][0]));
    }
    text_laws::law_strip(u, m, v, k);
    lemma_opens(m);
}

/// A text begins with a bracket or a brace if that is its first character.
proof fn lemma_opens(t: Seq<char>)
    ensures
        text::begins(t, "["@) == (t.len() > 0 && t[0] == '['),
        text::begins(t, "{"@) == (t.len() > 0 && t[0] == '{'),
{
    reveal_strlit("[");
    reveal_strlit("{");
    text_laws::law_ends_of(t, "["@);
    text_laws::law_ends_of(t, "{"@);
    if t.len() > 0 {
        assert(t.take(1)[0] == t[0]);
        if t[0] == '[' {
            assert(t.take(1) =~= "["@);
        }
        if t[0] == '{' {
            assert(t.take(1) =~= "{"@);
        }
    }
}

/// `line` is an attribute: behind its white space it begins with a bracket.
pub open spec fn attribute_line(line: Seq<char>) -> bool {
    text::trimmed(line).len() > 0 && text::trimmed(line)[0] == '['
}

/// An attribute is remembered, trimmed, and changes nothing else.
pub proof fn law_attribute_remembered(
    scope: ScopeView,
    line: Seq<char>,
    class: Option<patterns::Groups>,
)
    requires
        attribute_line(line),
    ensures
        ({
            let after = controllers::scope_after(scope, line, class);
            &&& after.controller == scope.controller
            &&& after.indent == scope.indent
            &&& after.pending == scope.pending.push(text::trimmed(line))
        }),
{
    lemma_opens(text::trimmed(line));
}

/// A class declaration begins a controller, or leaves the one before it.
pub proof fn law_class_opens(scope: ScopeView, line: Seq<char>, class: patterns::Groups)
    requires
        !attribute_line(line),
    ensures
        ({
            let after = controllers::scope_after(scope, line, Some(class));
            let controller = controllers::class_controller(
                scope.pending,
                patterns::group_text(class, 1),
            );
            &&& after.controller == controller
            &&& controller is Some ==> after.indent == Some(text::white_prefix(line))
            &&& controller is None ==> after.indent is None
            &&& after.pending.len() == 0
        }),
{
    lemma_opens(text::trimmed(line));
}

/// The text of a group is what it matched; a group that is not there, or took no
/// part, has none.
pub proof fn law_group_text(g: patterns::Groups, i: int)
    ensures
        0 <= i < g.len() && g[i] is Some ==> patterns::group_text(g, i) == g[i]->0,
        0 <= i < g.len() && g[i] is None ==> patterns::group_text(g, i).len() == 0,
        i < 0 || g.len() <= i ==> patterns::group_text(g, i).len() == 0,
{
}

/// A class is a controller if its name ends in `Controller`, or if it is marked
/// as one by an attribute; its token is the name without that ending.
pub proof fn law_controllers_are_marked(attrs: Seq<Seq<char>>, stem: Seq<char>, name: Seq<char>)
    ensures
        ({
            let suffixed = controllers::class_controller(attrs, stem + "Controller"@);
            &&& suffixed is Some
            &&& suffixed->0.token == stem
            &&& suffixed->0.name == stem + "Controller"@
        }),
        ({
            let other = controllers::class_controller(attrs, name);
            let marked = exists|i: int|
                0 <= i < attrs.len() && (text::occurs(#[trigger] attrs[i], "ApiController"@)
                    || text::occurs(attrs[i], "[Route("@));
            &&& !text::ends(name, "Controller"@) ==> (other is Some <==> marked)
            &&& other is Some && !text::ends(name, "Controller"@) ==> other->0.token == name
            &&& other is Some ==> other->0.name == name
        }),
{
    let full = stem + "Controller"@;
    text_laws::law_ends_of(stem, "Controller"@);
    assert(full.take(full.len() - "Controller"@.len()) =~= stem);
    let marked = exists|i: int|
        0 <= i < attrs.len() && (text::occurs(#[trigger] attrs[i], "ApiController"@)
            || text::occurs(attrs[i], "[Route("@));
    if marked {
        let i = choose|i: int|
            0 <= i < attrs.len() && (text::occurs(#[trigger] attrs[i], "ApiController"@)
                || text::occurs(attrs[i], "[Route("@));
        assert(text::occurs(attrs[i], "ApiController"@) || text::occurs(attrs[i], "[Route("@));
    }
}

/// A controller has the area, the route and the access that its attributes give.
pub proof fn law_controller_attributes(attrs: Seq<Seq<char>>, name: Seq<char>)
    requires
        controllers::class_controller(attrs, name) is Some,
    ensures
        ({
            let c = controllers::class_controller(attrs, name)->0;
            let route = attributes::marked_literal(attrs, "[Route("@);
            &&& c.area == attributes::marked_literal(attrs, "[Area("@)
            &&& route is Some ==> c.base_route == route->0
            &&& route is None ==> c.base_route.len() == 0
            &&& c.auth == attributes::attribute_auth(attrs)
        }),
{
}

/// The endpoint of a method: named by its project, file, line, HTTP method and
/// name; its route lies below that of the controller, and is that of its HTTP
/// attribute or else of its route attribute.
pub proof fn law_method_endpoint(
    project_id: Seq<char>,
    source_path: Seq<char>,
    number: u32,
    controller: ControllerView,
    attrs: Seq<Seq<char>>,
    name: Seq<char>,
    i: int,
)
    requires
        0 <= i < attributes::http_methods(attrs).len(),
    ensures
        ({
            let es = controllers::method_endpoints(
                project_id,
                source_path,
                number,
                controller,
                attrs,
                name,
            );
            let e = es[i];
            let (verb, own) = attributes::http_methods(attrs)[i];
            let named = attributes::marked_literal(attrs, "[Route("@);
            let auth = attributes::effective_auth(
                controller.auth,
                attributes::attribute_auth(attrs),
            );
            let colon = seq![':'];
            &&& es.len() == attributes::http_methods(attrs).len()
            &&& e.id == project_id + colon + source_path + colon + text::decimal(number as nat)
                + colon + verb + colon + name
            &&& e.project_id == project_id
            &&& e.method == verb
            &&& e.source_path == source_path
            &&& e.line == number
            &&& e.style == "controller"@
            &&& e.symbol == Some(controller.name + seq!['.'] + name)
            &&& e.requires_auth == auth.requires_auth
            &&& e.allows_anonymous == auth.allows_anonymous
            &&& e.auth_schemes == auth.schemes
            &&& e.route == routes::combined(
                controller.base_route,
                if own is Some {
                    own->0
                } else if named is Some {
                    named->0
                } else {
                    Seq::empty()
                },
                Some(controller.token),
                Some(name),
                controller.area,
            )
        }),
{
    reveal_strlit(":");
    reveal_strlit(".");
    assert(":"@ =~= seq![':']);
    assert("."@ =~= seq!['.']);
}

/// The attributes that stand right above line `k`, trimmed, from top to bottom.
pub open spec fn attributes_above(lines: Seq<Seq<char>>, k: int) -> Seq<Seq<char>>
    decreases k,
{
    if k <= 0 || !attribute_line(lines[k - 1]) {
        Seq::empty()
    } else {
        attributes_above(lines, k - 1).push(text::trimmed(lines[k - 1]))
    }
}

/// The attributes that are remembered are those right above.
proof fn lemma_pending(lines: Seq<Seq<char>>, k: int)
    requires
        0 <= k <= lines.len(),
    ensures
        controllers::scope_until(lines, k).pending == attributes_above(lines, k),
    decreases k,
{
    if k > 0 {
        lemma_pending(lines, k - 1);
        lemma_opens(text::trimmed(lines[k - 1]));
        assert(controllers::scope_until(lines, k).pending =~= attributes_above(lines, k));
    }
}

/// Line `a` declares the controller `c`.
pub open spec fn declares_controller(lines: Seq<Seq<char>>, a: int, c: ControllerView) -> bool {
    &&& !attribute_line(lines[a])
    &&& patterns::regex_captures(controllers::CLASS_DECLARATION@, lines[a]) matches Some(found)
        && controllers::class_controller(
        attributes_above(lines, a),
        patterns::group_text(found, 1),
    ) == Some(c)
}

/// Line `k` lies in the body of the class that line `a` declares: it declares no
/// class itself, and it is blank, begins with a brace, or is indented further.
pub open spec fn in_body(lines: Seq<Seq<char>>, a: int, k: int) -> bool {
    let line = lines[k];
    &&& attribute_line(line) || patterns::regex_captures(controllers::CLASS_DECLARATION@, line)
        is None
    &&& text_laws::all_of(line, CharClass::White) || text::begins(text::trimmed(line), "{"@)
        || indented_beyond(line, text::white_prefix(lines[a])) || attribute_line(line)
}

/// The controller lasts through the body of its class.
proof fn lemma_controller_lasts(lines: Seq<Seq<char>>, a: int, c: ControllerView, k: int)
    requires
        0 <= a < k <= lines.len(),
        declares_controller(lines, a, c),
        forall|j: int| a < j < k ==> #[trigger] in_body(lines, a, j),
    ensures
        controllers::scope_until(lines, k).controller == Some(c),
        controllers::scope_until(lines, k).indent == Some(text::white_prefix(lines[a])),
    decreases k,
{
    let before = controllers::scope_until(lines, k - 1);
    let line = lines[k - 1];
    if k == a + 1 {
        lemma_pending(lines, a);
        let found = patterns::regex_captures(controllers::CLASS_DECLARATION@, line)->0;
        law_class_opens(before, line, found);
    } else {
        lemma_controller_lasts(lines, a, c, k - 1);
        assert(in_body(lines, a, k - 1));
        let class = patterns::regex_captures(controllers::CLASS_DECLARATION@, line);
        if attribute_line(line) {
            law_attribute_remembered(before, line, class);
        } else if text_laws::all_of(line, CharClass::White) {
            law_blank_line_stays(before, line);
        } else if text::begins(text::trimmed(line), "{"@) {
            law_brace_keeps_controller(before, line);
        } else {
            law_indented_line_stays(before, line);
        }
    }
}

/// Line `b` declares a method: it is indented further than the class that line
/// `a` declares, and is neither an attribute nor a class.
pub open spec fn declares_method(lines: Seq<Seq<char>>, a: int, b: int) -> bool {
    &&& !attribute_line(lines[b])
    &&& indented_beyond(lines[b], text::white_prefix(lines[a]))
    &&& patterns::regex_captures(controllers::CLASS_DECLARATION@, lines[b]) is None
    &&& patterns::regex_captures(controllers::METHOD_DECLARATION@, lines[b]) is Some
}

/// Earlier endpoints stay at the front.
proof fn lemma_endpoints_prefix(
    project_id: Seq<char>,
    source_path: Seq<char>,
    source: Seq<char>,
    n: int,
    m: int,
    j: int,
)
    requires
        n <= m,
        0 <= j < controllers::endpoints_until(project_id, source_path, source, n).len(),
    ensures
        j < controllers::endpoints_until(project_id, source_path, source, m).len(),
        controllers::endpoints_until(project_id, source_path, source, m)[j]
            == controllers::endpoints_until(project_id, source_path, source, n)[j],
    decreases m - n,
{
    if n < m {
        lemma_endpoints_prefix(project_id, source_path, source, n, m - 1, j);
    }
}

/// Every method of a controller with HTTP attributes right above it is listed,
/// once for each of them: at its own line, and however many lines, methods and
/// attributes stand between it and the declaration of its class.
pub proof fn law_methods_listed(
    project_id: Seq<char>,
    source_path: Seq<char>,
    source: Seq<char>,
    a: int,
    c: ControllerView,
    b: int,
    i: int,
)
    requires
        0 <= a < b < text::lines_of(source).len(),
        declares_controller(text::lines_of(source), a, c),
        forall|k: int| a < k < b ==> #[trigger] in_body(text::lines_of(source), a, k),
        declares_method(text::lines_of(source), a, b),
        0 <= i < attributes::http_methods(
            attributes_above(text::lines_of(source), b),
        ).len(),
    ensures
        ({
            let lines = text::lines_of(source);
            let attrs = attributes_above(lines, b);
            let found = patterns::regex_captures(controllers::METHOD_DECLARATION@, lines[b])->0;
            controllers::controller_endpoints(project_id, source_path, source).contains(
                controllers::method_endpoints(
                    project_id,
                    source_path,
                    source::line_number(source, source::line_offset(lines, b) as int),
                    c,
                    attrs,
                    patterns::group_text(found, 1),
                )[i],
            )
        }),
{
    let lines = text::lines_of(source);
    let attrs = attributes_above(lines, b);
    let found = patterns::regex_captures(controllers::METHOD_DECLARATION@, lines[b])->0;
    let number = source::line_number(source, source::line_offset(lines, b) as int);
    let name = patterns::group_text(found, 1);
    lemma_controller_lasts(lines, a, c, b);
    lemma_pending(lines, b);
    lemma_opens(text::trimmed(lines[b]));
    lemma_indented(lines[b], text::white_prefix(lines[a]));
    let own = controllers::method_endpoints(project_id, source_path, number, c, attrs, name);
    let front = controllers::endpoints_until(project_id, source_path, source, b);
    let upto = controllers::endpoints_until(project_id, source_path, source, b + 1);
    assert(upto == front + own);
    assert(own.len() == attributes::http_methods(attrs).len());
    let j = front.len() + i;
    assert(upto[j] == own[i]);
    lemma_endpoints_prefix(project_id, source_path, source, b + 1, lines.len() as int, j);
    assert(controllers::controller_endpoints(project_id, source_path, source)[j] == own[i]);
}

/// A controller that is known was declared, and nothing since then has left it.
proof fn lemma_controller_declared(lines: Seq<Seq<char>>, k: int) -> (a: int)
    requires
        0 <= k <= lines.len(),
    ensures
        controllers::scope_until(lines, k).controller matches Some(c) ==> 0 <= a < k
            && declares_controller(lines, a, c) && controllers::scope_until(lines, k).indent
            == Some(text::white_prefix(lines[a])) && forall|j: int|
            a < j < k ==> #[trigger] in_body(lines, a, j),
    decreases k,
{
    if k <= 0 {
        0
    } else {
        let before = controllers::scope_until(lines, k - 1);
        let line = lines[k - 1];
        let class = patterns::regex_captures(controllers::CLASS_DECLARATION@, line);
        lemma_opens(text::trimmed(line));
        lemma_pending(lines, k - 1);
        if !attribute_line(line) && class is Some {
            law_class_opens(before, line, class->0);
            k - 1
        } else {
            let a = lemma_controller_declared(lines, k - 1);
            if controllers::scope_until(lines, k).controller is Some {
                lemma_indented(line, text::white_prefix(lines[a]));
                assert(in_body(lines, a, k - 1)) by {
                    if text::trimmed(line).len() == 0 {
                        lemma_blank(line);
                    }
                }
            }
            a
        }
    }
}

/// A line that is empty when trimmed is blank.
proof fn lemma_blank(line: Seq<char>)
    requires
        text::trimmed(line).len() == 0,
    ensures
        text_laws::all_of(line, CharClass::White),
{
    let k = CharClass::White;
    let a = text_lemmas::lemma_strip_front(line, k);
    let b = text_lemmas::lemma_strip_back(line.skip(a), k);
    assert forall|i: int| 0 <= i < line.len() implies text::is_white(#[trigger] line[i]) by {
        if i < a {
            assert(text::in_class(k, line[i]));
        } else {
            assert(text::in_class(k, line.skip(a)[i - a]));
        }
    }
}

/// `e` is the endpoint of the method that line `b` declares in the class that
/// line `a` declares, for its HTTP attribute `i`.
pub open spec fn is_method_of(
    e: EndpointView,
    project_id: Seq<char>,
    source_path: Seq<char>,
    source: Seq<char>,
    a: int,
    c: ControllerView,
    b: int,
    i: int,
) -> bool {
    let lines = text::lines_of(source);
    &&& 0 <= a < b < lines.len()
    &&& declares_controller(lines, a, c)
    &&& forall|k: int| a < k <= b ==> #[trigger] in_body(lines, a, k)
    &&& !attribute_line(lines[b])
    &&& patterns::regex_captures(controllers::METHOD_DECLARATION@, lines[b]) matches Some(found)
        && 0 <= i < attributes::http_methods(attributes_above(lines, b)).len() && e
        == controllers::method_endpoints(
        project_id,
        source_path,
        source::line_number(source, source::line_offset(lines, b) as int),
        c,
        attributes_above(lines, b),
        patterns::group_text(found, 1),
    )[i]
}

/// Nothing else is listed: every endpoint is that of a method with HTTP
/// attributes right above it, in the body of a controller.
pub proof fn law_only_methods_listed(
    project_id: Seq<char>,
    source_path: Seq<char>,
    source: Seq<char>,
    j: int,
)
    requires
        0 <= j < controllers::controller_endpoints(project_id, source_path, source).len(),
    ensures
        exists|a: int, c: ControllerView, b: int, i: int|
            is_method_of(
                controllers::controller_endpoints(project_id, source_path, source)[j],
                project_id,
                source_path,
                source,
                a,
                c,
                b,
                i,
            ),
{
    lemma_only_methods(
        project_id,
        source_path,
        source,
        text::lines_of(source).len() as int,
        j,
    );
}

proof fn lemma_only_methods(
    project_id: Seq<char>,
    source_path: Seq<char>,
    source: Seq<char>,
    n: int,
    j: int,
)
    requires
        0 <= n <= text::lines_of(source).len(),
        0 <= j < controllers::endpoints_until(project_id, source_path, source, n).len(),
    ensures
        exists|a: int, c: ControllerView, b: int, i: int|
            is_method_of(
                controllers::endpoints_until(project_id, source_path, source, n)[j],
                project_id,
                source_path,
                source,
                a,
                c,
                b,
                i,
            ),
    decreases n,
{
    let front = controllers::endpoints_until(project_id, source_path, source, n - 1);
    let e = controllers::endpoints_until(project_id, source_path, source, n)[j];
    if n > 0 && j < front.len() {
        lemma_only_methods(project_id, source_path, source, n - 1, j);
    } else if n > 0 {
        let lines = text::lines_of(source);
        let b = n - 1;
        let i = j - front.len();
        let scope = controllers::scope_until(lines, b);
        let a = lemma_controller_declared(lines, b);
        lemma_pending(lines, b);
        lemma_opens(text::trimmed(lines[b]));
        let c = scope.controller->0;
        lemma_indented(lines[b], text::white_prefix(lines[a]));
        assert(in_body(lines, a, b)) by {
            if text::trimmed(lines[b]).len() == 0 {
                lemma_blank(lines[b]);
            }
        }
        assert(is_method_of(e, project_id, source_path, source, a, c, b, i));
    }
}

/// The endpoints of a source are in the order of its lines: what the first lines
/// give stands at the front, and each further line adds one endpoint for each of
/// its HTTP attributes, or none.
pub proof fn law_lines_add_up(
    project_id: Seq<char>,
    source_path: Seq<char>,
    source: Seq<char>,
    n: int,
)
    requires
        0 <= n < text::lines_of(source).len(),
    ensures
        ({
            let lines = text::lines_of(source);
            let front = controllers::endpoints_until(project_id, source_path, source, n);
            let all = controllers::endpoints_until(project_id, source_path, source, n + 1);
            &&& front.len() <= all.len()
            &&& all.take(front.len() as int) == front
            &&& all.len() == front.len() || all.len() == front.len() + attributes::http_methods(
                attributes_above(lines, n),
            ).len()
        }),
        controllers::endpoints_until(project_id, source_path, source, 0).len() == 0,
        controllers::controller_endpoints(project_id, source_path, source)
            == controllers::endpoints_until(
            project_id,
            source_path,
            source,
            text::lines_of(source).len() as int,
        ),
{
    lemma_pending(text::lines_of(source), n);
    let front = controllers::endpoints_until(project_id, source_path, source, n);
    let all = controllers::endpoints_until(project_id, source_path, source, n + 1);
    assert(all.take(front.len() as int) =~= front);
}

/// The patterns that classes and methods are found by, part by part.
pub proof fn law_declaration_patterns()
    ensures
        controllers::CLASS_DECLARATION@ == r"\bclass\s+"@ + r"([A-Za-z_][A-Za-z0-9_]*)"@,
        controllers::METHOD_DECLARATION@ == r"^\s*"@ + r"(?:public|internal|protected)\s+"@
            + r"(?:async\s+)?"@ + r"(?:[A-Za-z_][A-Za-z0-9_<>,\.\?\[\]]*\s+)+"@
            + r"(?P<name>[A-Za-z_][A-Za-z0-9_]*)\s*\("@,
{
    reveal_strlit(r"\bclass\s+");
    reveal_strlit(r"([A-Za-z_][A-Za-z0-9_]*)");
    reveal_strlit(r#"\bclass\s+([A-Za-z_][A-Za-z0-9_]*)"#);
    assert(controllers::CLASS_DECLARATION@ =~= r"\bclass\s+"@ + r"([A-Za-z_][A-Za-z0-9_]*)"@);
    reveal_strlit(r"^\s*");
    reveal_strlit(r"(?:public|internal|protected)\s+");
    reveal_strlit(r"(?:async\s+)?");
    reveal_strlit(r"(?:[A-Za-z_][A-Za-z0-9_<>,\.\?\[\]]*\s+)+");
    reveal_strlit(r"(?P<name>[A-Za-z_][A-Za-z0-9_]*)\s*\(");
    reveal_strlit(
        r#"^\s*(?:public|internal|protected)\s+(?:async\s+)?(?:[A-Za-z_][A-Za-z0-9_<>,\.\?\[\]]*\s+)+(?P<name>[A-Za-z_][A-Za-z0-9_]*)\s*\("#,
    );
    assert(controllers::METHOD_DECLARATION@ =~= r"^\s*"@ + r"(?:public|internal|protected)\s+"@
        + r"(?:async\s+)?"@ + r"(?:[A-Za-z_][A-Za-z0-9_<>,\.\?\[\]]*\s+)+"@
        + r"(?P<name>[A-Za-z_][A-Za-z0-9_]*)\s*\("@);
}

} // verus!
