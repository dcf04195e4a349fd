//! Facts about searching, stripping, splitting and joining.

use crate::text;
use crate::text::CharClass;
use vstd::prelude::*;

verus! {

/// `find` for a single character gives the first position of that character.
pub proof fn lemma_find_char(s: Seq<char>, c: char)
    ensures
        match text::find(s, seq![c]) {
            Some(i) => 0 <= i < s.len() && s[i] == c && forall|j: int| 0 <= j < i ==> s[j] != c,
            None => !s.contains(c),
        },
{
    let pat = seq![c];
    text::lemma_find(s, pat);
    assert forall|j: int| 0 <= j < s.len() implies text::occurs_at(s, pat, j) == (#[trigger] s[j]
        == c) by {
        assert(s.subrange(j, j + 1)[0] == s[j]);
        if s[j] == c {
            assert(s.subrange(j, j + 1) =~= pat);
        }
    }
    match text::find(s, pat) {
        Some(i) => {
            assert forall|j: int| 0 <= j < i implies s[j] != c by {
                assert(!text::occurs_at(s, pat, j));
            }
        },
        None => {
            if s.contains(c) {
                let j = choose|j: int| 0 <= j < s.len() && s[j] == c;
                assert(text::occurs_at(s, pat, j));
            }
        },
    }
}

/// The first position of a character is what `find` gives.
pub proof fn lemma_find_char_is(s: Seq<char>, c: char, i: int)
    requires
        0 <= i < s.len(),
        s[i] == c,
        forall|j: int| 0 <= j < i ==> s[j] != c,
    ensures
        text::find(s, seq![c]) == Some(i),
{
    lemma_find_char(s, c);
    let k = text::find(s, seq![c])->0;
    assert(s.contains(c));
    if k < i {
        assert(s[k] != c);
    } else if i < k {
        assert(s[i] != c);
    }
}

/// Stripping the front cuts off a longest front of characters of the class.
pub proof fn lemma_strip_front(s: Seq<char>, k: CharClass) -> (n: int)
    ensures
        0 <= n <= s.len(),
        text::strip_front(s, k) == s.skip(n),
        forall|i: int| 0 <= i < n ==> text::in_class(k, #[trigger] s[i]),
        n < s.len() ==> !text::in_class(k, s[n]),
    decreases s.len(),
{
    if s.len() > 0 && text::in_class(k, s[0]) {
        let m = lemma_strip_front(s.skip(1), k);
        assert(s.skip(1).skip(m) =~= s.skip(m + 1));
        assert forall|i: int| 0 <= i < m + 1 implies text::in_class(k, #[trigger] s[i]) by {
            if i > 0 {
                assert(s[i] == s.skip(1)[i - 1]);
            }
        }
        m + 1
    } else {
        assert(s.skip(0) =~= s);
        0
    }
}

/// Stripping the front gives what follows the characters of the class.
pub proof fn lemma_strip_front_is(s: Seq<char>, k: CharClass, n: int)
    requires
        0 <= n <= s.len(),
        forall|i: int| 0 <= i < n ==> text::in_class(k, #[trigger] s[i]),
        n < s.len() ==> !text::in_class(k, s[n]),
    ensures
        text::strip_front(s, k) == s.skip(n),
{
    let m = lemma_strip_front(s, k);
    if m < n {
        assert(text::in_class(k, s[m]));
    } else if n < m {
        assert(text::in_class(k, s[n]));
    }
}

/// Stripping the back cuts off a longest back of characters of the class.
pub proof fn lemma_strip_back(s: Seq<char>, k: CharClass) -> (n: int)
    ensures
        0 <= n <= s.len(),
        text::strip_back(s, k) == s.take(n),
        forall|i: int| n <= i < s.len() ==> text::in_class(k, #[trigger] s[i]),
        n > 0 ==> !text::in_class(k, s[n - 1]),
    decreases s.len(),
{
    if s.len() > 0 && text::in_class(k, s.last()) {
        let m = lemma_strip_back(s.drop_last(), k);
        assert(s.drop_last().take(m) =~= s.take(m));
        assert forall|i: int| m <= i < s.len() implies text::in_class(k, #[trigger] s[i]) by {
            if i < s.len() - 1 {
                assert(s[i] == s.drop_last()[i]);
            }
        }
        m
    } else {
        assert(s.take(s.len() as int) =~= s);
        s.len() as int
    }
}

/// Stripping the back gives what is before the characters of the class.
pub proof fn lemma_strip_back_is(s: Seq<char>, k: CharClass, n: int)
    requires
        0 <= n <= s.len(),
        forall|i: int| n <= i < s.len() ==> text::in_class(k, #[trigger] s[i]),
        n > 0 ==> !text::in_class(k, s[n - 1]),
    ensures
        text::strip_back(s, k) == s.take(n),
{
    let m = lemma_strip_back(s, k);
    if m < n {
        assert(text::in_class(k, s[n - 1]));
    } else if n < m {
        assert(text::in_class(k, s[m - 1]));
    }
}

/// A text without `c` is one piece.
pub proof fn lemma_one_piece(s: Seq<char>, c: char)
    requires
        !s.contains(c),
    ensures
        text::pieces(s, c) == seq![s],
    decreases s.len(),
{
    if s.len() > 0 {
        lemma_without_last(s, c);
        lemma_one_piece(s.drop_last(), c);
        assert(s.drop_last().push(s.last()) =~= s);
        assert(text::pieces(s, c) =~= seq![s]);
    } else {
        assert(s =~= Seq::empty());
    }
}

/// What `s` does not contain, it does not contain without its last character.
proof fn lemma_without_last(s: Seq<char>, c: char)
    requires
        s.len() > 0,
        !s.contains(c),
    ensures
        !s.drop_last().contains(c),
        s.last() != c,
{
    assert(s.contains(s[s.len() - 1]));
    if s.drop_last().contains(c) {
        let i = choose|i: int| 0 <= i < s.len() - 1 && s.drop_last()[i] == c;
        assert(s[i] == c);
    }
}

/// What follows the last `c` is the last piece.
pub proof fn lemma_pieces_append(s: Seq<char>, t: Seq<char>, c: char)
    requires
        !t.contains(c),
    ensures
        text::pieces(s + seq![c] + t, c) == text::pieces(s, c).push(t),
    decreases t.len(),
{
    let all = s + seq![c] + t;
    if t.len() == 0 {
        assert(t =~= Seq::empty());
        assert(all =~= s.push(c));
        assert(all.drop_last() =~= s);
    } else {
        lemma_without_last(t, c);
        lemma_pieces_append(s, t.drop_last(), c);
        assert(all.drop_last() =~= s + seq![c] + t.drop_last());
        assert(t.drop_last().push(t.last()) =~= t);
        assert(text::pieces(all, c) =~= text::pieces(s, c).push(t));
    }
}

/// No piece has the character that pieces are cut at.
pub proof fn lemma_pieces_without(s: Seq<char>, c: char)
    ensures
        forall|i: int|
            0 <= i < text::pieces(s, c).len() ==> !(#[trigger] text::pieces(s, c)[i]).contains(c),
    decreases s.len(),
{
    if s.len() > 0 {
        let p = text::pieces(s.drop_last(), c);
        lemma_pieces_without(s.drop_last(), c);
        text::lemma_pieces_nonempty(s.drop_last(), c);
        let all = text::pieces(s, c);
        assert forall|i: int| 0 <= i < all.len() implies !(#[trigger] all[i]).contains(c) by {
            if s.last() != c && i == p.len() - 1 {
                assert(!p[i].contains(c));
                let q = p.last();
                if all[i].contains(c) {
                    let j = choose|j: int| 0 <= j < all[i].len() && all[i][j] == c;
                    assert(q[j] == c);
                }
            } else if i < p.len() {
                assert(!p[i].contains(c));
            }
        }
    }
}

/// Splitting undoes joining where no part has the separator.
pub proof fn lemma_pieces_joined(parts: Seq<Seq<char>>, c: char)
    requires
        parts.len() > 0,
        forall|i: int| 0 <= i < parts.len() ==> !(#[trigger] parts[i]).contains(c),
    ensures
        text::pieces(text::joined(parts, seq![c]), c) == parts,
    decreases parts.len(),
{
    if parts.len() == 1 {
        lemma_one_piece(parts[0], c);
        assert(parts =~= seq![parts[0]]);
    } else {
        let front = parts.drop_last();
        lemma_pieces_joined(front, c);
        assert(!parts[parts.len() - 1].contains(c));
        lemma_pieces_append(text::joined(front, seq![c]), parts.last(), c);
        assert(front.push(parts.last()) =~= parts);
    }
}

/// The parts that are not empty are among the parts.
pub proof fn lemma_nonempty_members(list: Seq<Seq<char>>)
    ensures
        forall|i: int|
            0 <= i < text::nonempty(list).len() ==> (#[trigger] text::nonempty(list)[i]).len() > 0
                && list.contains(text::nonempty(list)[i]),
    decreases list.len(),
{
    if list.len() > 0 {
        let front = text::nonempty(list.drop_last());
        let all = text::nonempty(list);
        lemma_nonempty_members(list.drop_last());
        assert(list.contains(list[list.len() - 1]));
        assert forall|i: int| 0 <= i < all.len() implies (#[trigger] all[i]).len() > 0
            && list.contains(all[i]) by {
            if i < front.len() {
                assert(all[i] == front[i]);
                assert(list.drop_last().contains(front[i]));
                let j = choose|j: int|
                    0 <= j < list.drop_last().len() && list.drop_last()[j] == front[i];
                assert(list[j] == front[i]);
            }
        }
    }
}

/// Where no part is empty, none is dropped.
pub proof fn lemma_nonempty_same(list: Seq<Seq<char>>)
    requires
        forall|i: int| 0 <= i < list.len() ==> (#[trigger] list[i]).len() > 0,
    ensures
        text::nonempty(list) == list,
    decreases list.len(),
{
    if list.len() > 0 {
        lemma_nonempty_same(list.drop_last());
        assert(list[list.len() - 1].len() > 0);
        assert(list.drop_last().push(list.last()) =~= list);
    }
}

} // verus!
