//! Laws of routes: what does not matter for merging.

use crate::attribute_laws;
use crate::routes;
use crate::text;
use crate::text::CharClass;
use crate::text_laws;
use crate::text_lemmas;
use vstd::prelude::*;

verus! {

/// Every brace of `s` is closed.
pub open spec fn braces_closed(s: Seq<char>) -> bool
    decreases s.len(),
{
    if s.len() == 0 {
        true
    } else if s[0] == '{' {
        match text::find(s.skip(1), seq!['}']) {
            Some(i) => 0 <= i < s.skip(1).len() && braces_closed(s.skip(1).skip(i + 1)),
            None => false,
        }
    } else {
        braces_closed(s.skip(1))
    }
}

/// A route with `segment` in braces.
pub open spec fn with_segment(front: Seq<char>, segment: Seq<char>, back: Seq<char>) -> Seq<char> {
    front + (seq!['{'] + segment + seq!['}'] + back)
}

/// `name` ends in white space behind the mark of an optional parameter, and has
/// no default value.
pub open spec fn blank_after_mark(name: Seq<char>) -> bool {
    &&& name.len() > 0
    &&& text::is_white(name.last())
    &&& !name.contains('=')
    &&& text::trimmed(name).len() > 0
    &&& text::trimmed(name).last() == '?'
}

/// The parameters in closed braces do not depend on what follows.
proof fn lemma_named_append(front: Seq<char>, tail: Seq<char>)
    requires
        braces_closed(front),
    ensures
        routes::named_parameters(front + tail) == routes::named_parameters(front)
            + routes::named_parameters(tail),
    decreases front.len(),
{
    let all = front + tail;
    if front.len() == 0 {
        assert(all =~= tail);
    } else if front[0] == '{' {
        let rest = front.skip(1);
        text_lemmas::lemma_find_char(rest, '}');
        let i = text::find(rest, seq!['}'])->0;
        assert(all.skip(1) =~= rest + tail);
        text_lemmas::lemma_find_char_is(all.skip(1), '}', i);
        assert(all.skip(1).take(i) =~= rest.take(i));
        assert(all.skip(1).skip(i + 1) =~= rest.skip(i + 1) + tail);
        lemma_named_append(rest.skip(i + 1), tail);
        assert(routes::named_parameters(all) =~= routes::named_parameters(front)
            + routes::named_parameters(tail));
    } else {
        assert(all.skip(1) =~= front.skip(1) + tail);
        lemma_named_append(front.skip(1), tail);
        assert(routes::named_parameters(all) =~= routes::named_parameters(front)
            + routes::named_parameters(tail));
    }
}

/// What is left of a route with a parameter.
proof fn lemma_named_segment(front: Seq<char>, segment: Seq<char>, back: Seq<char>)
    requires
        braces_closed(front),
        !segment.contains('}'),
    ensures
        routes::named_parameters(with_segment(front, segment, back)) == routes::named_parameters(
            front,
        ) + (seq!['{'] + routes::parameter_name(segment) + seq!['}'] + routes::named_parameters(
            back,
        )),
{
    let tail = seq!['{'] + segment + seq!['}'] + back;
    lemma_named_append(front, tail);
    let rest = tail.skip(1);
    let n = segment.len() as int;
    assert(rest =~= segment + seq!['}'] + back);
    assert forall|j: int| 0 <= j < n implies rest[j] != '}' by {
        assert(segment.contains(segment[j]));
    }
    text_lemmas::lemma_find_char_is(rest, '}', n);
    assert(rest.take(n) =~= segment);
    assert(rest.skip(n + 1) =~= back);
}

/// Routes that differ in parameters of the same name are one for merging.
proof fn lemma_same_name(front: Seq<char>, s: Seq<char>, t: Seq<char>, back: Seq<char>)
    requires
        braces_closed(front),
        !s.contains('}'),
        !t.contains('}'),
        routes::parameter_name(s) == routes::parameter_name(t),
    ensures
        routes::canonical_route(with_segment(front, s, back)) == routes::canonical_route(
            with_segment(front, t, back),
        ),
{
    lemma_named_segment(front, s, back);
    lemma_named_segment(front, t, back);
}

/// White space at the end of a name does not matter, unless it stands behind
/// the mark of an optional parameter.
proof fn lemma_blank_end(x: Seq<char>)
    requires
        x.len() > 0 ==> !text::is_white(x[0]),
        ({
            let b = text::strip_back(x, CharClass::White);
            x.len() > 0 && text::is_white(x.last()) ==> b.len() > 0 ==> b.last() != '?'
        }),
    ensures
        text::trimmed(text::strip_back(x, CharClass::Only('?'))) == text::trimmed(
            text::strip_back(text::strip_back(x, CharClass::White), CharClass::Only('?')),
        ),
{
    let m = text_lemmas::lemma_strip_back(x, CharClass::White);
    let b = x.take(m);
    if m < x.len() {
        assert(text::in_class(CharClass::White, x[x.len() - 1]));
        assert(x.take(x.len() as int) =~= x);
        text_lemmas::lemma_strip_back_is(x, CharClass::Only('?'), x.len() as int);
        assert(m > 0) by {
            if m == 0 {
                assert(text::in_class(CharClass::White, x[0]));
            }
        }
        assert(b.take(m) =~= b);
        assert(b.last() == x[m - 1]);
        text_lemmas::lemma_strip_back_is(b, CharClass::Only('?'), m);
        assert(x.skip(0) =~= x);
        assert(b.skip(0) =~= b);
        text_lemmas::lemma_strip_front_is(x, CharClass::White, 0);
        text_lemmas::lemma_strip_front_is(b, CharClass::White, 0);
        text_lemmas::lemma_strip_back_is(b, CharClass::White, m);
    } else {
        assert(b =~= x);
    }
}

/// The name in a parameter is what stands before the first of `:` and `=`.
proof fn lemma_name_cut(name: Seq<char>, sep: char, rest: Seq<char>)
    requires
        sep == ':' || sep == '=',
        !name.contains(':'),
        sep == '=' ==> !name.contains('='),
        !blank_after_mark(name),
    ensures
        routes::parameter_name(name + seq![sep] + rest) == routes::parameter_name(name),
{
    reveal_strlit(":");
    reveal_strlit("=");
    assert(":"@ =~= seq![':']);
    assert("="@ =~= seq!['=']);
    let w = CharClass::White;
    let seg = name + seq![sep] + rest;
    let a = text_lemmas::lemma_strip_front(name, w);
    let x = name.skip(a);
    // `sep` stands in `seg` at `l`, and in the trimmed `t` at `x.len()`.
    let l = name.len() as int;
    assert(seg[l] == sep);
    assert forall|i: int| 0 <= i < a implies text::in_class(w, #[trigger] seg[i]) by {
        assert(seg[i] == name[i]);
    }
    assert(!text::in_class(w, seg[a])) by {
        if a < l {
            assert(seg[a] == name[a]);
        }
    }
    text_lemmas::lemma_strip_front_is(seg, w, a);
    let u = seg.skip(a);
    let n = text_lemmas::lemma_strip_back(u, w);
    assert(u[l - a] == sep);
    assert(n > l - a) by {
        if n <= l - a {
            assert(text::in_class(w, u[l - a]));
        }
    }
    let t = u.take(n);
    assert(text::trimmed(seg) == t);
    assert(t[l - a] == sep);
    assert forall|j: int| 0 <= j < l - a implies t[j] != ':' && t[j] == x[j] by {
        assert(name.contains(name[j + a]));
        assert(t[j] == name[j + a]);
    }
    let cut = text::up_to(t, seq![':']);
    if sep == ':' {
        text_lemmas::lemma_find_char_is(t, ':', l - a);
        assert(cut =~= x);
    } else {
        text_lemmas::lemma_find_char(t, ':');
        match text::find(t, seq![':']) {
            Some(i) => {
                assert(i > l - a);
                assert(cut == t.take(i));
            },
            None => {},
        }
        assert(cut.len() > l - a && cut[l - a] == '=');
        assert forall|j: int| 0 <= j < l - a implies cut[j] != '=' by {
            assert(cut[j] == t[j]);
            assert(name.contains(name[j + a]));
        }
        text_lemmas::lemma_find_char_is(cut, '=', l - a);
        assert(text::up_to(cut, seq!['=']) =~= x);
    }
    // The same for `name` itself.
    let m = text_lemmas::lemma_strip_back(x, w);
    let b = x.take(m);
    assert(text::trimmed(name) == b);
    text_lemmas::lemma_find_char(b, ':');
    assert(!b.contains(':')) by {
        if b.contains(':') {
            let i = choose|i: int| 0 <= i < b.len() && b[i] == ':';
            assert(name[i + a] == ':');
        }
    }
    assert(text::up_to(b, seq![':']) == b);
    if name.contains('=') {
        let i0 = choose|i: int| 0 <= i < name.len() && name[i] == '=';
        assert(i0 >= a) by {
            if i0 < a {
                assert(text::in_class(w, name[i0]));
            }
        }
        assert(x[i0 - a] == '=');
        assert(x.contains('='));
        text_lemmas::lemma_find_char(x, '=');
        let i = text::find(x, seq!['='])->0;
        assert(i < m) by {
            if i >= m {
                assert(text::in_class(w, x[i]));
            }
        }
        text_lemmas::lemma_find_char_is(b, '=', i);
        assert(b.take(i) =~= x.take(i));
    } else {
        text_lemmas::lemma_find_char(b, '=');
        assert(!b.contains('=')) by {
            if b.contains('=') {
                let i = choose|i: int| 0 <= i < b.len() && b[i] == '=';
                assert(name[i + a] == '=');
            }
        }
        text_lemmas::lemma_find_char(x, '=');
        assert(!x.contains('=')) by {
            if x.contains('=') {
                let i = choose|i: int| 0 <= i < x.len() && x[i] == '=';
                assert(name[i + a] == '=');
            }
        }
        if x.len() > 0 {
            assert(x.last() == name.last());
        }
        lemma_blank_end(x);
    }
}

/// A constraint on a parameter does not matter for merging: `{id:int}` is
/// `{id}`.
pub proof fn law_constraint_ignored(
    front: Seq<char>,
    name: Seq<char>,
    constraint: Seq<char>,
    back: Seq<char>,
)
    requires
        braces_closed(front),
        !name.contains(':'),
        !name.contains('}'),
        !constraint.contains('}'),
        !blank_after_mark(name),
    ensures
        routes::canonical_route(with_segment(front, name + seq![':'] + constraint, back))
            == routes::canonical_route(with_segment(front, name, back)),
{
    lemma_name_cut(name, ':', constraint);
    lemma_no_brace(name, ':', constraint);
    lemma_same_name(front, name + seq![':'] + constraint, name, back);
}

/// The default value of a parameter does not matter for merging: `{id=1}` is
/// `{id}`.
pub proof fn law_default_ignored(
    front: Seq<char>,
    name: Seq<char>,
    value: Seq<char>,
    back: Seq<char>,
)
    requires
        braces_closed(front),
        !name.contains(':'),
        !name.contains('='),
        !name.contains('}'),
        !value.contains('}'),
        !blank_after_mark(name),
    ensures
        routes::canonical_route(with_segment(front, name + seq!['='] + value, back))
            == routes::canonical_route(with_segment(front, name, back)),
{
    lemma_name_cut(name, '=', value);
    lemma_no_brace(name, '=', value);
    lemma_same_name(front, name + seq!['='] + value, name, back);
}

/// What two texts and `sep` do not have, the whole does not have.
proof fn lemma_no_brace(s: Seq<char>, sep: char, t: Seq<char>)
    requires
        sep != '}',
        !s.contains('}'),
        !t.contains('}'),
    ensures
        !(s + seq![sep] + t).contains('}'),
{
    let all = s + seq![sep] + t;
    if all.contains('}') {
        let i = choose|i: int| 0 <= i < all.len() && all[i] == '}';
        if i < s.len() {
            assert(s[i] == '}');
        } else if i > s.len() {
            assert(t[i - s.len() - 1] == '}');
        }
    }
}

/// The mark of an optional parameter does not matter for merging: `{id?}` is
/// `{id}`.
pub proof fn law_optional_ignored(front: Seq<char>, name: Seq<char>, back: Seq<char>)
    requires
        braces_closed(front),
        !name.contains(':'),
        !name.contains('='),
        !name.contains('}'),
        !blank_after_mark(name),
    ensures
        routes::canonical_route(with_segment(front, name + seq!['?'], back))
            == routes::canonical_route(with_segment(front, name, back)),
{
    reveal_strlit(":");
    reveal_strlit("=");
    assert(":"@ =~= seq![':']);
    assert("="@ =~= seq!['=']);
    let w = CharClass::White;
    let seg = name + seq!['?'];
    let l = name.len() as int;
    let a = text_lemmas::lemma_strip_front(name, w);
    let x = name.skip(a);
    assert forall|i: int| 0 <= i < a implies text::in_class(w, #[trigger] seg[i]) by {
        assert(seg[i] == name[i]);
    }
    assert(!text::in_class(w, seg[a])) by {
        if a < l {
            assert(seg[a] == name[a]);
        }
    }
    text_lemmas::lemma_strip_front_is(seg, w, a);
    let u = seg.skip(a);
    assert(u =~= x.push('?'));
    assert(u.take(u.len() as int) =~= u);
    text_lemmas::lemma_strip_back_is(u, w, u.len() as int);
    let m = text_lemmas::lemma_strip_back(x, w);
    let b = x.take(m);
    lemma_plain_tail(name, u, a);
    lemma_plain_tail(name, b, a);
    assert(u.drop_last() =~= x);
    assert(text::strip_back(u, CharClass::Only('?')) == text::strip_back(
        x,
        CharClass::Only('?'),
    ));
    if x.len() > 0 {
        assert(x.last() == name.last());
    }
    lemma_blank_end(x);
    lemma_no_brace(name, '?', Seq::empty());
    assert(name + seq!['?'] + Seq::<char>::empty() =~= seg);
    lemma_same_name(front, seg, name, back);
}

/// In what is left of a name without `:` and `=` there is nothing to cut off.
proof fn lemma_plain_tail(name: Seq<char>, s: Seq<char>, a: int)
    requires
        !name.contains(':'),
        !name.contains('='),
        0 <= a <= name.len(),
        forall|i: int|
            0 <= i < s.len() ==> (#[trigger] s[i]) == '?' || (i + a < name.len() && s[i] == name[i
                + a]),
    ensures
        text::up_to(text::up_to(s, seq![':']), seq!['=']) == s,
{
    text_lemmas::lemma_find_char(s, ':');
    text_lemmas::lemma_find_char(s, '=');
    assert forall|c: char| c == ':' || c == '=' implies !#[trigger] s.contains(c) by {
        if s.contains(c) {
            let i = choose|i: int| 0 <= i < s.len() && s[i] == c;
            assert(name.contains(name[i + a]));
        }
    }
}

/// The case of the letters of a method does not matter for merging.
pub proof fn law_method_case_ignored(method: Seq<char>, route: Seq<char>)
    ensures
        routes::merge_key(text::lower(method), route) == routes::merge_key(method, route),
        routes::merge_key(text::upper(method), route) == routes::merge_key(method, route),
{
    assert forall|c: char| #[trigger]
        text::upper_char(text::lower_char(c)) == text::upper_char(c) && text::upper_char(
            text::upper_char(c),
        ) == text::upper_char(c) by {}
    assert(text::upper(text::lower(method)) =~= text::upper(method));
    assert(text::upper(text::upper(method)) =~= text::upper(method));
}

/// Every combined route begins with one `/`, and ends in `/` only where it is
/// `/` alone.
pub proof fn law_combined_rooted(
    prefix: Seq<char>,
    suffix: Seq<char>,
    controller: Option<Seq<char>>,
    action: Option<Seq<char>>,
    area: Option<Seq<char>>,
)
    ensures
        ({
            let r = routes::combined(prefix, suffix, controller, action, area);
            &&& text::begins(r, "/"@)
            &&& r.len() > 1 ==> r[1] != '/' && r.last() != '/'
            &&& r.last() == '/' ==> r == "/"@
        }),
{
    reveal_strlit("/");
    let r = routes::combined(prefix, suffix, controller, action, area);
    let p = routes::fill_tokens(prefix, controller, action, area);
    let s = routes::fill_tokens(suffix, controller, action, area);
    lemma_bare_ends(p);
    lemma_bare_ends(s);
    assert(r.subrange(0, 1) =~= "/"@);
    if routes::bare_route(s).len() > 0 {
        assert(r.last() == routes::bare_route(s).last());
    } else if routes::bare_route(p).len() > 0 {
        assert(r.last() == routes::bare_route(p).last());
    }
}

/// A bare route has no `/` at its ends.
proof fn lemma_bare_ends(route: Seq<char>)
    ensures
        ({
            let b = routes::bare_route(route);
            b.len() > 0 ==> b[0] != '/' && b.last() != '/'
        }),
{
    let t = text::trimmed(route);
    let k = CharClass::Only('/');
    let a = text_lemmas::lemma_strip_front(t, k);
    let b = text_lemmas::lemma_strip_back(t.skip(a), k);
}

/// Every canonical route begins with `/`, and has no other one at its ends.
pub proof fn law_canonical_rooted(route: Seq<char>)
    ensures
        ({
            let r = routes::canonical_route(route);
            &&& text::begins(r, "/"@)
            &&& r.len() > 1 ==> r[1] != '/' && r.last() != '/'
        }),
{
    reveal_strlit("/");
    let r = routes::canonical_route(route);
    lemma_bare_ends(routes::named_parameters(route));
    assert(r.subrange(0, 1) =~= "/"@);
}

/// `s` has neither white space nor `/` at its ends.
pub open spec fn plain(s: Seq<char>) -> bool {
    text_laws::bare_of(s, CharClass::White) && text_laws::bare_of(s, CharClass::Only('/'))
}

/// A route loses white space at its ends, and then `/`s, and nothing else.
pub proof fn law_bare_route(
    w1: Seq<char>,
    s1: Seq<char>,
    m: Seq<char>,
    s2: Seq<char>,
    w2: Seq<char>,
)
    requires
        text_laws::all_of(w1, CharClass::White),
        text_laws::all_of(w2, CharClass::White),
        text_laws::all_of(s1, CharClass::Only('/')),
        text_laws::all_of(s2, CharClass::Only('/')),
        text_laws::bare_of(s1 + m + s2, CharClass::White),
        text_laws::bare_of(m, CharClass::Only('/')),
    ensures
        routes::bare_route(w1 + (s1 + m + s2) + w2) == m,
{
    text_laws::law_strip(w1, s1 + m + s2, w2, CharClass::White);
    text_laws::law_strip(s1, m, s2, CharClass::Only('/'));
}

/// A plain route stays what it is.
proof fn lemma_plain_bare(m: Seq<char>)
    requires
        plain(m),
    ensures
        routes::bare_route(m) == m,
{
    let e = Seq::<char>::empty();
    assert(e + m + e =~= m);
    assert(e + (e + m + e) + e =~= m);
    law_bare_route(e, e, m, e, e);
}

/// A route below a prefix: both without white space and `/`s at their ends, each
/// behind one `/`.
pub proof fn law_combined_plain(
    s1: Seq<char>,
    p: Seq<char>,
    s2: Seq<char>,
    s3: Seq<char>,
    s: Seq<char>,
    s4: Seq<char>,
)
    requires
        text_laws::all_of(s1, CharClass::Only('/')),
        text_laws::all_of(s2, CharClass::Only('/')),
        text_laws::all_of(s3, CharClass::Only('/')),
        text_laws::all_of(s4, CharClass::Only('/')),
        plain(p),
        plain(s),
    ensures
        ({
            let r = routes::combined(s1 + p + s2, s3 + s + s4, None, None, None);
            let slash = seq!['/'];
            &&& p.len() > 0 && s.len() > 0 ==> r == slash + p + slash + s
            &&& p.len() > 0 && s.len() == 0 ==> r == slash + p
            &&& p.len() == 0 && s.len() > 0 ==> r == slash + s
            &&& p.len() == 0 && s.len() == 0 ==> r == slash
        }),
{
    reveal_strlit("/");
    assert("/"@ =~= seq!['/']);
    lemma_slashed_bare(s1, p, s2);
    lemma_slashed_bare(s3, s, s4);
}

/// Any two routes combine as what is left of them at their ends.
pub proof fn law_combined_bare(p: Seq<char>, s: Seq<char>)
    ensures
        ({
            let r = routes::combined(p, s, None, None, None);
            let a = routes::bare_route(p);
            let b = routes::bare_route(s);
            let slash = seq!['/'];
            &&& a.len() > 0 && b.len() > 0 ==> r == slash + a + slash + b
            &&& a.len() > 0 && b.len() == 0 ==> r == slash + a
            &&& a.len() == 0 ==> r == slash + b
        }),
{
    reveal_strlit("/");
    assert("/"@ =~= seq!['/']);
    let b = routes::bare_route(s);
    if b.len() == 0 {
        assert(seq!['/'] + b =~= seq!['/']);
    }
}

/// A plain route with `/`s around it.
proof fn lemma_slashed_bare(a: Seq<char>, m: Seq<char>, b: Seq<char>)
    requires
        text_laws::all_of(a, CharClass::Only('/')),
        text_laws::all_of(b, CharClass::Only('/')),
        plain(m),
    ensures
        routes::bare_route(a + m + b) == m,
{
    let e = Seq::<char>::empty();
    let t = a + m + b;
    assert(text_laws::bare_of(t, CharClass::White)) by {
        if t.len() > 0 {
            let first = seq![t[0]];
            let last = seq![t.last()];
            if a.len() > 0 {
                assert(t[0] == a[0]);
                assert(a[0] == '/');
            } else if m.len() > 0 {
                assert(t[0] == m[0]);
                assert(!text_laws::all_of(seq![m[0]], CharClass::White));
            } else {
                assert(t[0] == b[0]);
                assert(b[0] == '/');
            }
            if b.len() > 0 {
                assert(t.last() == b[b.len() - 1]);
                assert(b[b.len() - 1] == '/');
            } else if m.len() > 0 {
                assert(t.last() == m.last());
                assert(!text_laws::all_of(seq![m.last()], CharClass::White));
            } else {
                assert(t.last() == a[a.len() - 1]);
                assert(a[a.len() - 1] == '/');
            }
            assert(first[0] == '/' ==> !text::is_white(first[0]));
            assert(last[0] == '/' ==> !text::is_white(last[0]));
            assert(!text_laws::all_of(first, CharClass::White));
            assert(!text_laws::all_of(last, CharClass::White));
        }
    }
    law_bare_route(e, a, m, b, e);
    assert(e + t + e =~= t);
}

/// Filling in a token is writing what it stands for: first the controller, then
/// the action, then the area, in both routes.
pub proof fn law_tokens_filled(
    prefix: Seq<char>,
    suffix: Seq<char>,
    token: Seq<char>,
    action: Option<Seq<char>>,
    area: Option<Seq<char>>,
)
    ensures
        routes::combined(prefix, suffix, Some(token), action, area) == routes::combined(
            text::replaced(prefix, "[controller]"@, token),
            text::replaced(suffix, "[controller]"@, token),
            None,
            action,
            area,
        ),
        routes::combined(prefix, suffix, None, Some(token), area) == routes::combined(
            text::replaced(prefix, "[action]"@, token),
            text::replaced(suffix, "[action]"@, token),
            None,
            None,
            area,
        ),
        routes::combined(prefix, suffix, None, None, Some(token)) == routes::combined(
            text::replaced(prefix, "[area]"@, token),
            text::replaced(suffix, "[area]"@, token),
            None,
            None,
            None,
        ),
{
}

/// What stands outside braces is kept, character by character.
pub proof fn law_outside_kept(front: Seq<char>, s: Seq<char>, back: Seq<char>)
    requires
        braces_closed(front),
        !s.contains('{'),
    ensures
        routes::named_parameters(front + (s + back)) == routes::named_parameters(front) + s
            + routes::named_parameters(back),
{
    lemma_named_append(front, s + back);
    lemma_named_plain(s, back);
    assert(routes::named_parameters(front) + (s + routes::named_parameters(back))
        =~= routes::named_parameters(front) + s + routes::named_parameters(back));
}

/// A text without braces has no parameters to name.
proof fn lemma_named_plain(s: Seq<char>, back: Seq<char>)
    requires
        !s.contains('{'),
    ensures
        routes::named_parameters(s + back) == s + routes::named_parameters(back),
    decreases s.len(),
{
    let all = s + back;
    if s.len() == 0 {
        assert(all =~= back);
        assert(s + routes::named_parameters(back) =~= routes::named_parameters(back));
    } else {
        assert(s.contains(s[0]));
        let t = s.skip(1);
        assert(!t.contains('{')) by {
            if t.contains('{') {
                let i = choose|i: int| 0 <= i < t.len() && t[i] == '{';
                assert(s[i + 1] == '{');
            }
        }
        lemma_named_plain(t, back);
        assert(all.skip(1) =~= t + back);
        assert(seq![s[0]] + (t + routes::named_parameters(back)) =~= s
            + routes::named_parameters(back));
    }
}

/// What stands in braces is reduced to the name of the parameter; a brace that is
/// not closed takes in the rest.
pub proof fn law_inside_named(front: Seq<char>, segment: Seq<char>, back: Seq<char>)
    requires
        braces_closed(front),
        !segment.contains('}'),
    ensures
        routes::named_parameters(with_segment(front, segment, back)) == routes::named_parameters(
            front,
        ) + (seq!['{'] + routes::parameter_name(segment) + seq!['}'] + routes::named_parameters(
            back,
        )),
        routes::named_parameters(front + (seq!['{'] + segment)) == routes::named_parameters(front)
            + (seq!['{'] + routes::parameter_name(segment)),
{
    lemma_named_segment(front, segment, back);
    let tail = seq!['{'] + segment;
    lemma_named_append(front, tail);
    assert(tail.skip(1) =~= segment);
    text_lemmas::lemma_find_char(segment, '}');
}

/// A plain name is kept as the name of its parameter.
pub proof fn law_plain_name_kept(name: Seq<char>)
    requires
        !name.contains(':'),
        !name.contains('='),
        text_laws::bare_of(name, CharClass::White),
        name.len() > 0 ==> name.last() != '?',
    ensures
        routes::parameter_name(name) == name,
{
    reveal_strlit(":");
    reveal_strlit("=");
    assert(":"@ =~= seq![':']);
    assert("="@ =~= seq!['=']);
    let e = Seq::<char>::empty();
    assert(e + name + e =~= name);
    text_laws::law_strip(e, name, e, CharClass::White);
    lemma_plain_tail(name, name, 0);
    let n = name.len() as int;
    assert(name.take(n) =~= name);
    text_lemmas::lemma_strip_back_is(name, CharClass::Only('?'), n);
}

/// White space around what stands in braces does not matter, and the name itself
/// has none at its ends.
pub proof fn law_padding_ignored(w1: Seq<char>, segment: Seq<char>, w2: Seq<char>)
    requires
        text_laws::all_of(w1, CharClass::White),
        text_laws::all_of(w2, CharClass::White),
        text_laws::bare_of(segment, CharClass::White),
    ensures
        routes::parameter_name(w1 + segment + w2) == routes::parameter_name(segment),
        text_laws::bare_of(routes::parameter_name(segment), CharClass::White),
{
    let e = Seq::<char>::empty();
    let k = CharClass::White;
    text_laws::law_strip(w1, segment, w2, k);
    text_laws::law_strip(e, segment, e, k);
    assert(e + segment + e =~= segment);
    let named = text::up_to(text::up_to(text::trimmed(segment), ":"@), "="@);
    let s = text::strip_back(named, CharClass::Only('?'));
    let a = text_lemmas::lemma_strip_front(s, k);
    let u = s.skip(a);
    let b = text_lemmas::lemma_strip_back(u, k);
    let r = routes::parameter_name(segment);
    assert(r == u.take(b));
    if r.len() > 0 {
        assert(!text::is_white(seq![r[0]][0]));
        assert(!text::is_white(seq![r.last()][0]));
    }
}

/// The canonical route is a `/`, and then the route with its parameters named,
/// without white space and `/`s at its ends.
pub proof fn law_canonical_form(
    route: Seq<char>,
    w1: Seq<char>,
    s1: Seq<char>,
    m: Seq<char>,
    s2: Seq<char>,
    w2: Seq<char>,
)
    requires
        routes::named_parameters(route) == w1 + (s1 + m + s2) + w2,
        text_laws::all_of(w1, CharClass::White),
        text_laws::all_of(w2, CharClass::White),
        text_laws::all_of(s1, CharClass::Only('/')),
        text_laws::all_of(s2, CharClass::Only('/')),
        text_laws::bare_of(s1 + m + s2, CharClass::White),
        text_laws::bare_of(m, CharClass::Only('/')),
    ensures
        routes::canonical_route(route) == seq!['/'] + m,
{
    reveal_strlit("/");
    assert("/"@ =~= seq!['/']);
    law_bare_route(w1, s1, m, s2, w2);
    if m.len() == 0 {
        assert(seq!['/'] + m =~= seq!['/']);
    }
}

/// A route without braces, and without white space and `/`s at its ends, is its
/// own canonical route behind a `/`.
pub proof fn law_plain_route_kept(route: Seq<char>)
    requires
        !route.contains('{'),
        plain(route),
    ensures
        routes::canonical_route(route) == seq!['/'] + route,
        routes::canonical_route(seq!['/'] + route) == seq!['/'] + route,
{
    let e = Seq::<char>::empty();
    assert(route + e =~= route);
    lemma_named_plain(route, e);
    assert(routes::named_parameters(route) =~= route);
    assert(e + (e + route + e) + e =~= route);
    assert(e + route + e =~= route);
    law_canonical_form(route, e, e, route, e, e);
    let slashed = seq!['/'] + route;
    assert(!slashed.contains('{')) by {
        if slashed.contains('{') {
            let i = choose|i: int| 0 <= i < slashed.len() && slashed[i] == '{';
            assert(route[i - 1] == '{');
        }
    }
    lemma_named_plain(slashed, e);
    assert(slashed + e =~= slashed);
    assert(routes::named_parameters(slashed) =~= slashed);
    lemma_slashed_bare(seq!['/'], route, e);
    assert(seq!['/'] + route + e =~= slashed);
    reveal_strlit("/");
    assert("/"@ =~= seq!['/']);
    if route.len() == 0 {
        assert(slashed =~= seq!['/']);
    }
}

/// Different plain routes stay apart, and so do different methods in upper case.
pub proof fn law_routes_stay_apart(
    m: Seq<char>,
    r: Seq<char>,
    n: Seq<char>,
    s: Seq<char>,
)
    requires
        !r.contains('{'),
        !s.contains('{'),
        plain(r),
        plain(s),
        forall|i: int| 0 <= i < m.len() ==> !('a' <= #[trigger] m[i] <= 'z'),
        forall|i: int| 0 <= i < n.len() ==> !('a' <= #[trigger] n[i] <= 'z'),
    ensures
        routes::merge_key(m, r) == routes::merge_key(n, s) <==> m == n && r == s,
        routes::merge_key(m, seq!['/'] + r) == routes::merge_key(n, seq!['/'] + s) <==> m == n && r
            == s,
{
    law_plain_route_kept(r);
    law_plain_route_kept(s);
    assert(text::upper(m) =~= m);
    assert(text::upper(n) =~= n);
    if seq!['/'] + r == seq!['/'] + s {
        assert((seq!['/'] + r).skip(1) =~= r);
        assert((seq!['/'] + s).skip(1) =~= s);
    }
}

/// Routes stay apart where a parameter stands between the same texts under
/// different plain names.
pub proof fn law_names_stay_apart(
    front: Seq<char>,
    a: Seq<char>,
    b: Seq<char>,
    back: Seq<char>,
)
    requires
        braces_closed(front),
        !a.contains('}') && !a.contains(':') && !a.contains('='),
        !b.contains('}') && !b.contains(':') && !b.contains('='),
        text_laws::bare_of(a, CharClass::White) && (a.len() > 0 ==> a.last() != '?'),
        text_laws::bare_of(b, CharClass::White) && (b.len() > 0 ==> b.last() != '?'),
        routes::named_parameters(with_segment(front, a, back)) == routes::named_parameters(
            with_segment(front, b, back),
        ),
    ensures
        a == b,
{
    law_inside_named(front, a, back);
    law_inside_named(front, b, back);
    law_plain_name_kept(a);
    law_plain_name_kept(b);
    let f = routes::named_parameters(front);
    let g = routes::named_parameters(back);
    let x = f + (seq!['{'] + a + seq!['}'] + g);
    let y = f + (seq!['{'] + b + seq!['}'] + g);
    assert(x.len() == f.len() + a.len() + 2 + g.len());
    assert(y.len() == f.len() + b.len() + 2 + g.len());
    let n = f.len() + 1int;
    assert(x.subrange(n, n + a.len()) =~= a);
    assert(y.subrange(n, n + b.len()) =~= b);
}

/// A merge key is the method in upper case and the canonical route.
pub proof fn law_merge_key(method: Seq<char>, route: Seq<char>)
    ensures
        routes::merge_key(method, route).0 == text::upper(method),
        routes::merge_key(method, route).1 == routes::canonical_route(route),
{
}

/// An expression without `.MapGroup(` has the prefix of the group that the name
/// at its front holds, and none if it holds no group or is a call.
pub proof fn law_group_of_name(expr: Seq<char>, groups: Map<Seq<char>, Seq<char>>)
    requires
        text_laws::free_of(text::trimmed(expr), ".MapGroup("@),
    ensures
        ({
            let e = text::trimmed(expr);
            let name = text::trimmed(text::up_to(e, "."@));
            let known = groups.contains_key(name) && !text::occurs(name, "("@);
            &&& known ==> routes::group_prefix(expr, groups) == groups[name]
            &&& !known ==> routes::group_prefix(expr, groups).len() == 0
        }),
{
    text_laws::law_uncut(text::trimmed(expr), ".MapGroup("@);
}

/// Each `.MapGroup(` with a literal behind it adds its route below what stands
/// before it; one without a literal ends the chain.
pub proof fn law_group_chain(
    prefix: Seq<char>,
    a: Seq<char>,
    gap: Seq<char>,
    route: Seq<char>,
    b: Seq<char>,
)
    requires
        !gap.contains('"'),
        !route.contains('"'),
    ensures
        ({
            let args = gap + attribute_laws::quote() + route + attribute_laws::quote() + b;
            text_laws::free_before(
                a + ".MapGroup("@ + args,
                ".MapGroup("@,
                a.len() as int,
            ) ==> routes::chained_prefix(prefix, a + ".MapGroup("@ + args)
                == routes::chained_prefix(
                routes::combined(prefix, route, None, None, None),
                args,
            )
        }),
        text_laws::free_before(a + ".MapGroup("@ + gap, ".MapGroup("@, a.len() as int)
            ==> routes::chained_prefix(prefix, a + ".MapGroup("@ + gap) == prefix,
        text_laws::free_of(a, ".MapGroup("@) ==> routes::chained_prefix(prefix, a) == prefix,
{
    let args = gap + attribute_laws::quote() + route + attribute_laws::quote() + b;
    let pat = ".MapGroup("@;
    attribute_laws::law_first_literal(gap, route, b);
    if text_laws::free_before(a + pat + args, pat, a.len() as int) {
        text_laws::law_cut(a, pat, args);
        routes::lemma_after_shorter(a + pat + args);
    }
    if text_laws::free_before(a + pat + gap, pat, a.len() as int) {
        text_laws::law_cut(a, pat, gap);
    }
    if text_laws::free_of(a, pat) {
        text_laws::law_uncut(a, pat);
    }
}

/// The prefix of an expression is that of the name at its front, and then what
/// its calls add.
pub proof fn law_group_prefix(expr: Seq<char>, groups: Map<Seq<char>, Seq<char>>)
    ensures
        ({
            let e = text::trimmed(expr);
            let name = text::trimmed(text::up_to(e, "."@));
            let known = groups.contains_key(name) && !text::occurs(name, "("@);
            routes::group_prefix(expr, groups) == routes::chained_prefix(
                if known {
                    groups[name]
                } else {
                    Seq::empty()
                },
                e,
            )
        }),
{
}

} // verus!
