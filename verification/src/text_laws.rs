//! Laws of texts: what searching, trimming, splitting and replacing give back of
//! a text that is put together from known parts.

use crate::text;
use crate::text::CharClass;
use crate::text_lemmas;
use vstd::prelude::*;

verus! {

/// `pat` does not stand in `s` at any position before `n`.
pub open spec fn free_before(s: Seq<char>, pat: Seq<char>, n: int) -> bool {
    forall|j: int|
        0 <= j < n && j + pat.len() <= s.len() ==> (#[trigger] s.skip(j)).take(pat.len() as int)
            != pat
}

/// `pat` does not stand anywhere in `s`.
pub open spec fn free_of(s: Seq<char>, pat: Seq<char>) -> bool {
    free_before(s, pat, (s.len() + 1) as int)
}

/// All characters of `s` are of the class `k`.
pub open spec fn all_of(s: Seq<char>, k: CharClass) -> bool {
    forall|i: int| 0 <= i < s.len() ==> match k {
        CharClass::White => text::is_white(#[trigger] s[i]),
        CharClass::Only(c) => s[i] == c,
    }
}

/// `s` is empty, or neither its first nor its last character is of the class
/// `k`.
pub open spec fn bare_of(s: Seq<char>, k: CharClass) -> bool {
    s.len() > 0 ==> !all_of(seq![s[0]], k) && !all_of(seq![s.last()], k)
}

/// Where `pat` stands in `s` at `j`, it does so character by character.
proof fn lemma_stands(s: Seq<char>, pat: Seq<char>, j: int)
    requires
        0 <= j,
        j + pat.len() <= s.len(),
    ensures
        text::occurs_at(s, pat, j) <==> s.skip(j).take(pat.len() as int) == pat,
{
    let w = s.skip(j).take(pat.len() as int);
    assert(w =~= s.subrange(j, j + pat.len()));
}

/// A text is cut at the first place where a pattern stands.
pub proof fn law_cut(a: Seq<char>, pat: Seq<char>, b: Seq<char>)
    requires
        free_before(a + pat + b, pat, a.len() as int),
    ensures
        ({
            let s = a + pat + b;
            &&& text::find(s, pat) == Some(a.len() as int)
            &&& text::before(s, pat) == Some(a)
            &&& text::after(s, pat) == Some(b)
            &&& text::from_on(s, pat) == Some(pat + b)
            &&& text::up_to(s, pat) == a
        }),
{
    let s = a + pat + b;
    let n = a.len() as int;
    lemma_stands(s, pat, n);
    assert(s.skip(n).take(pat.len() as int) =~= pat);
    assert forall|j: int| 0 <= j < n implies !text::occurs_at(s, pat, j) by {
        if j + pat.len() <= s.len() {
            assert(s.skip(j).take(pat.len() as int) != pat);
            lemma_stands(s, pat, j);
        }
    }
    text::lemma_find_is(s, pat, n);
    assert(s.take(n) =~= a);
    assert(s.skip(n + pat.len()) =~= b);
    assert(s.skip(n) =~= pat + b);
}

/// A text without a pattern is not cut.
pub proof fn law_uncut(s: Seq<char>, pat: Seq<char>)
    requires
        free_of(s, pat),
    ensures
        !text::occurs(s, pat),
        text::find(s, pat) is None,
        text::before(s, pat) is None,
        text::after(s, pat) is None,
        text::from_on(s, pat) is None,
        text::up_to(s, pat) == s,
{
    assert forall|j: int| !text::occurs_at(s, pat, j) by {
        if 0 <= j && j + pat.len() <= s.len() {
            assert(s.skip(j).take(pat.len() as int) != pat);
            lemma_stands(s, pat, j);
        }
    }
}

/// A pattern occurs in a text exactly if the text is something, the pattern and
/// something more.
pub proof fn law_occurs(s: Seq<char>, pat: Seq<char>)
    ensures
        text::occurs(s, pat) <==> exists|a: Seq<char>, b: Seq<char>| s == #[trigger] (a + pat + b),
{
    if text::occurs(s, pat) {
        let i = choose|i: int| text::occurs_at(s, pat, i);
        lemma_stands(s, pat, i);
        let a = s.take(i);
        let b = s.skip(i + pat.len());
        assert(s.subrange(i, i + pat.len()) == pat);
        assert(s =~= s.take(i) + s.subrange(i, i + pat.len()) + b);
        assert(s == a + pat + b);
    }
    if exists|a: Seq<char>, b: Seq<char>| s == #[trigger] (a + pat + b) {
        let (a, b) = choose|a: Seq<char>, b: Seq<char>| s == #[trigger] (a + pat + b);
        assert(s.subrange(a.len() as int, (a.len() + pat.len()) as int) =~= pat);
        assert(text::occurs_at(s, pat, a.len() as int));
    }
}

/// A text begins with what stands at its front, and ends with what stands at its
/// back.
pub proof fn law_ends_of(s: Seq<char>, pat: Seq<char>)
    ensures
        text::begins(s, pat) <==> pat.len() <= s.len() && s.take(pat.len() as int) == pat,
        text::ends(s, pat) <==> pat.len() <= s.len() && s.skip(s.len() - pat.len()) == pat,
        text::begins(pat + s, pat),
        text::ends(s + pat, pat),
{
    if pat.len() <= s.len() {
        assert(s.subrange(0, pat.len() as int) =~= s.take(pat.len() as int));
        assert(s.subrange(s.len() - pat.len(), s.len() as int) =~= s.skip(s.len() - pat.len()));
    }
    assert((pat + s).subrange(0, pat.len() as int) =~= pat);
    assert((s + pat).subrange(s.len() as int, (s.len() + pat.len()) as int) =~= pat);
}

/// The last position of a character has that character and none behind it.
pub proof fn law_last_position(a: Seq<char>, c: char, b: Seq<char>)
    requires
        !b.contains(c),
    ensures
        text::last_position(a + seq![c] + b, c) == Some(a.len() as int),
        text::last_position(b, c) is None,
    decreases b.len(),
{
    let s = a + seq![c] + b;
    if b.len() == 0 {
        assert(s.last() == c);
    } else {
        assert(b.contains(b[b.len() - 1]));
        let f = b.drop_last();
        assert(!f.contains(c)) by {
            if f.contains(c) {
                let i = choose|i: int| 0 <= i < f.len() && f[i] == c;
                assert(b[i] == c);
            }
        }
        law_last_position(a, c, f);
        assert(s.drop_last() =~= a + seq![c] + f);
    }
}

/// Prefixes are cut off as often as they stand at the front.
pub proof fn law_prefixes_cut(s: Seq<char>, pat: Seq<char>)
    requires
        pat.len() > 0,
    ensures
        text::without_prefixes(pat + s, pat) == text::without_prefixes(s, pat),
        !(pat.len() <= s.len() && s.take(pat.len() as int) == pat) ==> text::without_prefixes(s, pat)
            == s,
{
    law_ends_of(s, pat);
    assert((pat + s).skip(pat.len() as int) =~= s);
}

/// A text is stripped of what is of the class at its ends, and of nothing else.
pub proof fn law_strip(u: Seq<char>, m: Seq<char>, v: Seq<char>, k: CharClass)
    requires
        all_of(u, k),
        all_of(v, k),
        bare_of(m, k),
    ensures
        text::strip(u + m + v, k) == m,
        m.len() > 0 || v.len() == 0 ==> text::strip_front(u + m + v, k) == m + v,
        m.len() > 0 || u.len() == 0 ==> text::strip_back(u + m + v, k) == u + m,
        k == CharClass::White ==> text::trimmed(u + m + v) == m,
{
    let s = u + m + v;
    let n = u.len() as int;
    let e = (u + m).len() as int;
    assert forall|i: int| 0 <= i < u.len() implies text::in_class(k, #[trigger] u[i]) by {}
    assert forall|i: int| 0 <= i < v.len() implies text::in_class(k, #[trigger] v[i]) by {}
    if m.len() > 0 {
        assert(!text::in_class(k, m[0])) by {
            assert(!all_of(seq![m[0]], k));
        }
        assert(!text::in_class(k, m.last())) by {
            assert(!all_of(seq![m.last()], k));
        }
        assert forall|i: int| 0 <= i < n implies text::in_class(k, #[trigger] s[i]) by {
            assert(s[i] == u[i]);
        }
        text_lemmas::lemma_strip_front_is(s, k, n);
        assert(s.skip(n) =~= m + v);
        let t = m + v;
        assert forall|i: int| m.len() <= i < t.len() implies text::in_class(
            k,
            #[trigger] t[i],
        ) by {
            assert(t[i] == v[i - m.len()]);
        }
        text_lemmas::lemma_strip_back_is(t, k, m.len() as int);
        assert(t.take(m.len() as int) =~= m);
        assert forall|i: int| e <= i < s.len() implies text::in_class(k, #[trigger] s[i]) by {
            assert(s[i] == v[i - e]);
        }
        assert(s[e - 1] == m.last());
        text_lemmas::lemma_strip_back_is(s, k, e);
        assert(s.take(e) =~= u + m);
    } else {
        assert forall|i: int| 0 <= i < s.len() implies text::in_class(k, #[trigger] s[i]) by {
            if i < n {
                assert(s[i] == u[i]);
            } else {
                assert(s[i] == v[i - n]);
            }
        }
        text_lemmas::lemma_strip_front_is(s, k, s.len() as int);
        text_lemmas::lemma_strip_back_is(s, k, 0);
        let t = s.skip(s.len() as int);
        assert(t =~= Seq::empty());
        assert(text::strip_back(t, k) =~= Seq::empty());
        assert(m =~= Seq::empty());
        if v.len() == 0 {
            assert(m + v =~= t);
        }
        if u.len() == 0 {
            assert(u + m =~= s.take(0));
        }
    }
}

/// The white space that a text begins with is counted.
pub proof fn law_white_prefix(u: Seq<char>, rest: Seq<char>)
    requires
        all_of(u, CharClass::White),
        rest.len() > 0 ==> !text::is_white(rest[0]),
    ensures
        text::white_prefix(u + rest) == u.len(),
{
    let s = u + rest;
    let k = CharClass::White;
    assert forall|i: int| 0 <= i < u.len() implies text::in_class(k, #[trigger] s[i]) by {
        assert(s[i] == u[i]);
    }
    text_lemmas::lemma_strip_front_is(s, k, u.len() as int);
}

/// What stands before the first `c` is the first piece.
pub proof fn law_first_piece(l: Seq<char>, c: char, rest: Seq<char>)
    requires
        !l.contains(c),
    ensures
        text::pieces(l, c) == seq![l],
        text::pieces(l + seq![c] + rest, c) == seq![l] + text::pieces(rest, c),
    decreases rest.len(),
{
    text_lemmas::lemma_one_piece(l, c);
    let s = l + seq![c] + rest;
    if rest.len() == 0 {
        assert(s.drop_last() =~= l);
        assert(rest =~= Seq::empty());
        assert(text::pieces(s, c) =~= seq![l] + text::pieces(rest, c));
    } else {
        law_first_piece(l, c, rest.drop_last());
        text::lemma_pieces_nonempty(rest.drop_last(), c);
        assert(s.drop_last() =~= l + seq![c] + rest.drop_last());
        assert(text::pieces(s, c) =~= seq![l] + text::pieces(rest, c));
    }
}

/// Joining undoes splitting, and splitting undoes joining where no part has the
/// separator.
pub proof fn law_split_and_join(s: Seq<char>, parts: Seq<Seq<char>>, c: char)
    requires
        parts.len() > 0,
        forall|i: int| 0 <= i < parts.len() ==> !(#[trigger] parts[i]).contains(c),
    ensures
        text::joined(text::pieces(s, c), seq![c]) == s,
        text::pieces(text::joined(parts, seq![c]), c) == parts,
{
    text_lemmas::lemma_pieces_joined(parts, c);
    lemma_joined_pieces(s, c);
}

/// Joining undoes splitting.
proof fn lemma_joined_pieces(s: Seq<char>, c: char)
    ensures
        text::joined(text::pieces(s, c), seq![c]) == s,
    decreases s.len(),
{
    let all = text::pieces(s, c);
    if s.len() == 0 {
        assert(s =~= Seq::empty());
    } else {
        let p = text::pieces(s.drop_last(), c);
        lemma_joined_pieces(s.drop_last(), c);
        text::lemma_pieces_nonempty(s.drop_last(), c);
        assert(s =~= s.drop_last().push(s.last()));
        if s.last() == c {
            assert(all.drop_last() =~= p);
            assert(text::joined(all, seq![c]) =~= s);
        } else {
            assert(all.drop_last() =~= p.drop_last());
            assert(text::joined(all, seq![c]) =~= s);
        }
    }
}

/// Texts are joined with the separator between them and nowhere else.
pub proof fn law_joined(a: Seq<Seq<char>>, x: Seq<char>, b: Seq<Seq<char>>, sep: Seq<char>)
    ensures
        text::joined(seq![x], sep) == x,
        text::joined(Seq::<Seq<char>>::empty(), sep).len() == 0,
        a.len() > 0 && b.len() > 0 ==> text::joined(a + b, sep) == text::joined(a, sep) + sep
            + text::joined(b, sep),
    decreases b.len(),
{
    if a.len() > 0 && b.len() > 0 {
        assert((a + b).drop_last() =~= a + b.drop_last());
        if b.len() == 1 {
            assert(a + b.drop_last() =~= a);
        } else {
            law_joined(a, x, b.drop_last(), sep);
            assert(text::joined(a + b, sep) =~= text::joined(a, sep) + sep + text::joined(b, sep));
        }
    }
}

/// The lines of a text: a line feed, with or without a carriage return before
/// it, ends a line, and the last line may do without.
pub proof fn law_lines(l: Seq<char>, rest: Seq<char>)
    requires
        !l.contains('\n'),
    ensures
        text::lines_of(Seq::<char>::empty()).len() == 0,
        l.len() > 0 ==> text::lines_of(l) == seq![l],
        !(l.len() > 0 && l.last() == '\r') ==> text::lines_of(l + seq!['\n'] + rest) == seq![l]
            + text::lines_of(rest),
        text::lines_of(l + seq!['\r', '\n'] + rest) == seq![l] + text::lines_of(rest),
{
    let e = Seq::<char>::empty();
    assert(text::pieces(e, '\n') =~= seq![e]);
    law_first_piece(l, '\n', rest);
    lemma_lines_front(l, rest);
    let m = l.push('\r');
    assert(!m.contains('\n')) by {
        if m.contains('\n') {
            let i = choose|i: int| 0 <= i < m.len() && m[i] == '\n';
            assert(l[i] == '\n');
        }
    }
    lemma_lines_front(m, rest);
    assert(m + seq!['\n'] + rest =~= l + seq!['\r', '\n'] + rest);
    assert(m.drop_last() =~= l);
    if l.len() > 0 {
        assert(text::lines_of(l) =~= seq![l]);
    }
}

/// The first line of a text, and the others.
proof fn lemma_lines_front(l: Seq<char>, rest: Seq<char>)
    requires
        !l.contains('\n'),
    ensures
        text::lines_of(l + seq!['\n'] + rest) == seq![text::chomped(l)] + text::lines_of(rest),
{
    let s = l + seq!['\n'] + rest;
    law_first_piece(l, '\n', rest);
    let p = text::pieces(s, '\n');
    let q = text::pieces(rest, '\n');
    text::lemma_pieces_nonempty(rest, '\n');
    assert(p.last() == q.last());
    assert forall|i: int| 0 < i < p.len() implies p[i] == #[trigger] q[i - 1] by {}
    assert(text::lines_of(s) =~= seq![text::chomped(l)] + text::lines_of(rest));
}

/// The first place where the pattern stands is replaced, and then the rest; a
/// text without the pattern stays.
pub proof fn law_replaced(a: Seq<char>, pat: Seq<char>, b: Seq<char>, with: Seq<char>)
    requires
        pat.len() > 0,
    ensures
        free_before(a + pat + b, pat, a.len() as int) ==> text::replaced(a + pat + b, pat, with)
            == a + with + text::replaced(b, pat, with),
        free_of(a, pat) ==> text::replaced(a, pat, with) == a,
    decreases a.len(),
{
    let s = a + pat + b;
    if a.len() == 0 {
        assert(s =~= pat + b);
        law_ends_of(b, pat);
        assert((pat + b).skip(pat.len() as int) =~= b);
        assert(a + with + text::replaced(b, pat, with) =~= with + text::replaced(b, pat, with));
    } else {
        let t = a.skip(1);
        law_replaced(t, pat, b, with);
        if free_before(s, pat, a.len() as int) {
            assert(s.skip(1) =~= t + pat + b);
            assert(!text::begins(s, pat)) by {
                assert(s.skip(0) =~= s);
                assert(s.skip(0).take(pat.len() as int) != pat);
                lemma_stands(s, pat, 0);
            }
            assert forall|j: int|
                0 <= j < t.len() && j + pat.len() <= s.skip(1).len() implies (#[trigger] s.skip(
                1,
            ).skip(j)).take(pat.len() as int) != pat by {
                assert(s.skip(1).skip(j) =~= s.skip(j + 1));
            }
            assert(free_before(t + pat + b, pat, t.len() as int));
            assert(seq![a[0]] + (t + with + text::replaced(b, pat, with)) =~= a + with
                + text::replaced(b, pat, with));
        }
        if free_of(a, pat) {
            assert(!text::begins(a, pat)) by {
                assert(a.skip(0) =~= a);
                if pat.len() <= a.len() {
                    assert(a.skip(0).take(pat.len() as int) != pat);
                    lemma_stands(a, pat, 0);
                }
            }
            assert forall|j: int|
                0 <= j < t.len() + 1 && j + pat.len() <= t.len() implies (#[trigger] t.skip(
                j,
            )).take(pat.len() as int) != pat by {
                assert(t.skip(j) =~= a.skip(j + 1));
            }
            assert(free_of(t, pat));
            assert(seq![a[0]] + t =~= a);
        }
    }
}

/// Characters are replaced one by one.
pub proof fn law_with_char(s: Seq<char>, a: char, b: char, i: int)
    requires
        0 <= i < s.len(),
    ensures
        text::with_char(s, a, b).len() == s.len(),
        s[i] == a ==> text::with_char(s, a, b)[i] == b,
        s[i] != a ==> text::with_char(s, a, b)[i] == s[i],
{
}

/// Upper and lower case differ by the letters `A` to `Z` and `a` to `z`, which
/// stand in the same order; nothing else changes.
pub proof fn law_case(s: Seq<char>, i: int)
    requires
        0 <= i < s.len(),
    ensures
        text::upper(s).len() == s.len(),
        text::lower(s).len() == s.len(),
        ({
            let c = s[i];
            let u = text::upper(s)[i];
            let l = text::lower(s)[i];
            &&& if 'a' <= c <= 'z' {
                u as u32 - 'A' as u32 == c as u32 - 'a' as u32
            } else {
                u == c
            }
            &&& if 'A' <= c <= 'Z' {
                l as u32 - 'a' as u32 == c as u32 - 'A' as u32
            } else {
                l == c
            }
        }),
{
    lemma_char_case(s[i]);
}

proof fn lemma_char_case(c: char)
    ensures
        'a' <= c <= 'z' ==> text::upper_char(c) as u32 == c as u32 - 32,
        'A' <= c <= 'Z' ==> text::lower_char(c) as u32 == c as u32 + 32,
{
}

/// The number that decimal digits stand for.
pub open spec fn number_of(s: Seq<char>) -> int
    decreases s.len(),
{
    if s.len() == 0 {
        0
    } else {
        10 * number_of(s.drop_last()) + (s.last() as int - '0' as int)
    }
}

/// Decimal digits stand for the number, and do not begin with a zero unless it
/// is zero.
pub proof fn law_decimal(n: nat)
    ensures
        number_of(text::decimal(n)) == n,
        text::decimal(n).len() > 0,
        forall|i: int| 0 <= i < text::decimal(n).len() ==> '0' <= #[trigger] text::decimal(n)[i]
            <= '9',
        n > 0 ==> text::decimal(n)[0] != '0',
        n == 0 ==> text::decimal(n) == seq!['0'],
    decreases n,
{
    let s = text::decimal(n);
    if n < 10 {
        lemma_digit(n as int);
        assert(s.drop_last() =~= Seq::empty());
        assert(number_of(s.drop_last()) == 0);
        assert(s =~= seq![text::digit(n as int)]);
    } else {
        lemma_digit((n % 10) as int);
        law_decimal(n / 10);
        assert(s.drop_last() =~= text::decimal(n / 10));
    }
}

proof fn lemma_digit(d: int)
    requires
        0 <= d < 10,
    ensures
        text::digit(d) as int == '0' as int + d,
        '0' <= text::digit(d) <= '9',
        text::digit(d) == '0' ==> d == 0,
        d == 0 ==> text::digit(d) == '0',
{
}

/// A list keeps its texts that are not empty, in order.
pub proof fn law_nonempty(a: Seq<Seq<char>>, x: Seq<char>, b: Seq<Seq<char>>)
    ensures
        text::nonempty(Seq::<Seq<char>>::empty()).len() == 0,
        text::nonempty(a + seq![x] + b) == text::nonempty(a) + (if x.len() > 0 {
            seq![x]
        } else {
            Seq::empty()
        }) + text::nonempty(b),
    decreases b.len(),
{
    let l = a + seq![x] + b;
    if b.len() == 0 {
        assert(l.drop_last() =~= a);
        assert(text::nonempty(l) =~= text::nonempty(a) + (if x.len() > 0 {
            seq![x]
        } else {
            Seq::empty()
        }) + text::nonempty(b));
    } else {
        law_nonempty(a, x, b.drop_last());
        assert(l.drop_last() =~= a + seq![x] + b.drop_last());
        assert(text::nonempty(l) =~= text::nonempty(a) + (if x.len() > 0 {
            seq![x]
        } else {
            Seq::empty()
        }) + text::nonempty(b));
    }
}

/// Each text of a list is trimmed by itself.
pub proof fn law_all_trimmed(list: Seq<Seq<char>>, i: int)
    requires
        0 <= i < list.len(),
    ensures
        text::all_trimmed(list).len() == list.len(),
        text::all_trimmed(list)[i] == text::trimmed(list[i]),
{
}

/// A union takes up what is new, one after the other.
pub proof fn law_union_order(list: Seq<Seq<char>>, a: Seq<Seq<char>>, x: Seq<char>)
    ensures
        text::union_of(list, Seq::empty()) == list,
        text::union_of(list, a.push(x)) == (if text::union_of(list, a).contains(x) {
            text::union_of(list, a)
        } else {
            text::union_of(list, a).push(x)
        }),
{
    assert(a.push(x).drop_last() =~= a);
}

/// Texts are ordered at their first difference, and a text comes before what it
/// is the front of.
pub proof fn law_text_order(p: Seq<char>, a: char, x: Seq<char>, b: char, y: Seq<char>)
    ensures
        a != b ==> text::text_before_in_order(p + seq![a] + x, p + seq![b] + y) == (a < b),
        text::text_before_in_order(p, p + seq![b] + y),
        !text::text_before_in_order(p + seq![b] + y, p),
        !text::text_before_in_order(p, p),
    decreases p.len(),
{
    text::lemma_order_irreflexive(p);
    let s = p + seq![a] + x;
    let t = p + seq![b] + y;
    if p.len() > 0 {
        law_text_order(p.skip(1), a, x, b, y);
        assert(s.skip(1) =~= p.skip(1) + seq![a] + x);
        assert(t.skip(1) =~= p.skip(1) + seq![b] + y);
    }
}

} // verus!
