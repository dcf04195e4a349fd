//! Executable operations on text, with contracts over the characters.

use crate::text;
use crate::text::CharClass;
use vstd::prelude::*;
use vstd::slice::slice_subrange;

verus! {

/// `String::push` appends one character.
pub assume_specification[ String::push ](s: &mut String, c: char)
    ensures
        final(s)@ == old(s)@.push(c),
;

/// The characters of `s`.
pub(crate) fn chars_of(s: &str) -> (r: Vec<char>)
    ensures
        r@ == s@,
{
    let mut r: Vec<char> = Vec::new();
    for c in it: s.chars()
        invariant
            r@ == s@.take(it.index() as int),
            it.seq() == s@,
    {
        r.push(c);
    }
    r
}

/// The text made of the characters `v`.
pub(crate) fn string_of(v: &[char]) -> (r: String)
    ensures
        r@ == v@,
{
    let mut r = String::new();
    let mut i: usize = 0;
    while i < v.len()
        invariant
            i <= v@.len(),
            r@ == v@.take(i as int),
        decreases v@.len() - i,
    {
        r.push(v[i]);
        i = i + 1;
        assert(v@.take(i as int) == v@.take(i - 1).push(v@[i - 1]));
    }
    assert(v@.take(i as int) == v@);
    r
}

/// Whether `pat` stands in `s` at position `i`.
fn stands_at(s: &[char], pat: &[char], i: usize) -> (r: bool)
    ensures
        r == text::occurs_at(s@, pat@, i as int),
{
    if pat.len() > s.len() || i > s.len() - pat.len() {
        return false;
    }
    let mut k: usize = 0;
    while k < pat.len()
        invariant
            k <= pat@.len(),
            i + pat@.len() <= s.len(),
            s@.subrange(i as int, i + k) == pat@.take(k as int),
        decreases pat@.len() - k,
    {
        if s[i + k] != pat[k] {
            assert(s@.subrange(i as int, i + pat@.len())[k as int] != pat@[k as int]);
            return false;
        }
        k = k + 1;
        assert(s@.subrange(i as int, i + k) == s@.subrange(i as int, i + k - 1).push(s@[i + k - 1]));
        assert(pat@.take(k as int) == pat@.take(k - 1).push(pat@[k - 1]));
    }
    assert(pat@.take(k as int) == pat@);
    true
}

/// The leftmost position of `pat` in `s`.
pub(crate) fn find_chars(s: &[char], pat: &[char]) -> (r: Option<usize>)
    ensures
        match r {
            Some(i) => text::find(s@, pat@) == Some(i as int) && text::first_at(s@, pat@, i as int),
            None => text::find(s@, pat@) is None && !text::occurs(s@, pat@),
        },
{
    if pat.len() > s.len() {
        return None;
    }
    let last: usize = s.len() - pat.len();
    let mut i: usize = 0;
    while i <= last
        invariant
            last == s@.len() - pat@.len(),
            i <= last,
            forall|j: int| 0 <= j < i ==> !text::occurs_at(s@, pat@, j),
        decreases last - i,
    {
        if stands_at(s, pat, i) {
            proof {
                text::lemma_find_is(s@, pat@, i as int);
            }
            return Some(i);
        }
        if i == last {
            assert(!text::occurs(s@, pat@)) by {
                assert forall|j: int| !text::occurs_at(s@, pat@, j) by {}
            }
            return None;
        }
        i = i + 1;
    }
    None
}

/// Whether `a` and `b` are the same text.
pub(crate) fn same_text(a: &str, b: &str) -> (r: bool)
    ensures
        r == (a@ == b@),
{
    let x = chars_of(a);
    let y = chars_of(b);
    if x.len() != y.len() {
        return false;
    }
    let r = stands_at(x.as_slice(), y.as_slice(), 0);
    assert(x@.subrange(0, x@.len() as int) == x@);
    r
}

/// Whether `pat` stands somewhere in `s`.
pub(crate) fn contains(s: &str, pat: &str) -> (r: bool)
    ensures
        r == text::occurs(s@, pat@),
{
    let x = chars_of(s);
    let y = chars_of(pat);
    find_chars(x.as_slice(), y.as_slice()).is_some()
}

/// Whether `s` begins with `pat`.
pub(crate) fn starts_with(s: &str, pat: &str) -> (r: bool)
    ensures
        r == text::begins(s@, pat@),
{
    let x = chars_of(s);
    let y = chars_of(pat);
    stands_at(x.as_slice(), y.as_slice(), 0)
}

/// Whether `s` ends with `pat`.
pub(crate) fn ends_with(s: &str, pat: &str) -> (r: bool)
    ensures
        r == text::ends(s@, pat@),
{
    let x = chars_of(s);
    let y = chars_of(pat);
    if y.len() > x.len() {
        return false;
    }
    stands_at(x.as_slice(), y.as_slice(), x.len() - y.len())
}

/// What stands before and behind the leftmost `pat` in `s`.
pub(crate) fn split_once(s: &str, pat: &str) -> (r: Option<(String, String)>)
    ensures
        match r {
            Some((b, a)) => text::before(s@, pat@) == Some(b@) && text::after(s@, pat@) == Some(a@),
            None => text::find(s@, pat@) is None,
        },
{
    let x = chars_of(s);
    let y = chars_of(pat);
    match find_chars(x.as_slice(), y.as_slice()) {
        Some(i) => {
            assert(i + y@.len() <= x.len());
            let b = string_of(slice_subrange(x.as_slice(), 0, i));
            let a = string_of(slice_subrange(x.as_slice(), i + y.len(), x.len()));
            Some((b, a))
        },
        None => None,
    }
}

/// What stands behind the leftmost `pat` in `s`.
pub(crate) fn text_after(s: &str, pat: &str) -> (r: Option<String>)
    ensures
        text::opt_text(r) == text::after(s@, pat@),
{
    match split_once(s, pat) {
        Some((_, a)) => Some(a),
        None => None,
    }
}

/// What stands before the leftmost `pat` in `s`.
pub(crate) fn text_before(s: &str, pat: &str) -> (r: Option<String>)
    ensures
        text::opt_text(r) == text::before(s@, pat@),
{
    match split_once(s, pat) {
        Some((b, _)) => Some(b),
        None => None,
    }
}

/// `s` without `pat`, with which it ends.
pub(crate) fn drop_suffix(s: &str, pat: &str) -> (r: String)
    requires
        text::ends(s@, pat@),
    ensures
        r@ == s@.take(s@.len() - pat@.len()),
{
    let x = chars_of(s);
    let y = chars_of(pat);
    string_of(slice_subrange(x.as_slice(), 0, x.len() - y.len()))
}

/// Whether `c` is white space.
pub fn is_white_char(c: char) -> (r: bool)
    ensures
        r == text::is_white(c),
{
    let n: u32 = c as u32;
    (0x9 <= n && n <= 0xd) || n == 0x20 || n == 0x85 || n == 0xa0 || n == 0x1680 || (0x2000 <= n
        && n <= 0x200a) || n == 0x2028 || n == 0x2029 || n == 0x202f || n == 0x205f || n == 0x3000
}

fn belongs(k: CharClass, c: char) -> (r: bool)
    ensures
        r == text::in_class(k, c),
{
    match k {
        CharClass::White => is_white_char(c),
        CharClass::Only(d) => c == d,
    }
}

/// `s` without the characters of class `k` at its front.
fn front_stripped(s: &[char], k: CharClass) -> (r: &[char])
    ensures
        r@ == text::strip_front(s@, k),
{
    let mut i: usize = 0;
    assert(s@.skip(0) == s@);
    while i < s.len() && belongs(k, s[i])
        invariant
            i <= s@.len(),
            text::strip_front(s@.skip(i as int), k) == text::strip_front(s@, k),
        decreases s@.len() - i,
    {
        assert(s@.skip(i as int).skip(1) == s@.skip(i + 1));
        i = i + 1;
    }
    assert(s@.skip(i as int) == s@.subrange(i as int, s@.len() as int));
    slice_subrange(s, i, s.len())
}

/// `s` without the characters of class `k` at its back.
fn back_stripped(s: &[char], k: CharClass) -> (r: &[char])
    ensures
        r@ == text::strip_back(s@, k),
{
    let mut j: usize = s.len();
    assert(s@.take(j as int) == s@);
    while j > 0 && belongs(k, s[j - 1])
        invariant
            j <= s@.len(),
            text::strip_back(s@.take(j as int), k) == text::strip_back(s@, k),
        decreases j,
    {
        assert(s@.take(j as int).drop_last() == s@.take(j - 1));
        j = j - 1;
    }
    slice_subrange(s, 0, j)
}

/// `s` without the characters of class `k` at its back.
pub(crate) fn strip_end(s: &str, k: CharClass) -> (r: String)
    ensures
        r@ == text::strip_back(s@, k),
{
    let x = chars_of(s);
    string_of(back_stripped(x.as_slice(), k))
}

/// `s` without the characters of class `k` at both ends.
pub(crate) fn strip_ends(s: &str, k: CharClass) -> (r: String)
    ensures
        r@ == text::strip(s@, k),
{
    let x = chars_of(s);
    string_of(back_stripped(front_stripped(x.as_slice(), k), k))
}

/// `s` without the white space at both ends.
pub(crate) fn trim(s: &str) -> (r: String)
    ensures
        r@ == text::trimmed(s@),
{
    strip_ends(s, CharClass::White)
}

/// The number of white space characters that `s` begins with.
pub(crate) fn indent_of(s: &str) -> (r: usize)
    ensures
        r == text::white_prefix(s@),
{
    let x = chars_of(s);
    let rest = front_stripped(x.as_slice(), CharClass::White);
    proof {
        text::lemma_strip_front_len(s@, CharClass::White);
    }
    x.len() - rest.len()
}

/// The pieces of `s` between the occurrences of `c`.
pub(crate) fn split(s: &str, c: char) -> (r: Vec<String>)
    ensures
        text::texts(r@) == text::pieces(s@, c),
{
    let x = chars_of(s);
    let mut r: Vec<String> = Vec::new();
    let mut cur = String::new();
    let mut i: usize = 0;
    assert(text::texts(r@).push(cur@) == text::pieces(s@.take(0), c));
    while i < x.len()
        invariant
            x@ == s@,
            i <= x@.len(),
            text::texts(r@).push(cur@) == text::pieces(s@.take(i as int), c),
        decreases x@.len() - i,
    {
        let ghost pre = text::pieces(s@.take(i as int), c);
        let ghost (r0, cur0) = (r@, cur@);
        assert(s@.take(i + 1).drop_last() == s@.take(i as int));
        assert(s@.take(i + 1).last() == x@[i as int]);
        if x[i] == c {
            r.push(cur);
            cur = String::new();
            assert(text::texts(r@) == pre);
        } else {
            cur.push(x[i]);
            assert(text::texts(r@).push(cur@) == pre.update(pre.len() - 1, cur0.push(x@[i as int])));
        }
        i = i + 1;
    }
    assert(s@.take(i as int) == s@);
    let ghost pre = text::texts(r@).push(cur@);
    r.push(cur);
    assert(text::texts(r@) == pre);
    r
}

/// The lines of `s`.
pub(crate) fn lines(s: &str) -> (r: Vec<String>)
    ensures
        text::texts(r@) == text::lines_of(s@),
{
    let p = split(s, '\n');
    proof {
        text::lemma_pieces_nonempty(s@, '\n');
    }
    let ghost ps = text::texts(p@);
    let mut r: Vec<String> = Vec::new();
    let mut i: usize = 0;
    while i < p.len() - 1
        invariant
            ps == text::texts(p@),
            p@.len() > 0,
            i <= p@.len() - 1,
            text::texts(r@) == Seq::new(i as nat, |j: int| text::chomped(ps[j])),
        decreases p@.len() - i,
    {
        let ghost r0 = text::texts(r@);
        let x = chars_of(p[i].as_str());
        assert(x@ == ps[i as int]);
        let n: usize = x.len();
        if n > 0 && x[n - 1] == '\r' {
            r.push(string_of(slice_subrange(x.as_slice(), 0, n - 1)));
        } else {
            r.push(string_of(x.as_slice()));
        }
        assert(text::texts(r@) == r0.push(text::chomped(ps[i as int])));
        i = i + 1;
    }
    let ghost r0 = text::texts(r@);
    if !p[i].as_str().is_empty() {
        r.push(p[i].clone());
        assert(text::texts(r@) == r0.push(ps.last()));
    }
    r
}

/// `s` with every `pat` replaced by `with`.
pub(crate) fn replace(s: &str, pat: &str, with: &str) -> (r: String)
    requires
        pat@.len() > 0,
    ensures
        r@ == text::replaced(s@, pat@, with@),
{
    let x = chars_of(s);
    let y = chars_of(pat);
    let mut r = String::new();
    let mut i: usize = 0;
    assert(s@.skip(0) == s@);
    while i < x.len()
        invariant
            x@ == s@,
            y@ == pat@,
            pat@.len() > 0,
            i <= x@.len(),
            r@ + text::replaced(s@.skip(i as int), pat@, with@) == text::replaced(s@, pat@, with@),
        decreases x@.len() - i,
    {
        let ghost rest = s@.skip(i as int);
        proof {
            text::lemma_begins_at(s@, pat@, i as int);
        }
        if stands_at(x.as_slice(), y.as_slice(), i) {
            r.append(with);
            assert(rest.skip(pat@.len() as int) == s@.skip(i + pat@.len()));
            i = i + y.len();
        } else {
            r.push(x[i]);
            assert(rest.skip(1) == s@.skip(i + 1));
            i = i + 1;
        }
    }
    assert(s@.skip(i as int).len() == 0);
    assert(r@ + s@.skip(i as int) == r@);
    r
}

/// `s` with every `old_char` replaced by `new_char`.
pub(crate) fn replace_char(s: &str, old_char: char, new_char: char) -> (r: String)
    ensures
        r@ == text::with_char(s@, old_char, new_char),
{
    let x = chars_of(s);
    let mut r = String::new();
    let mut i: usize = 0;
    while i < x.len()
        invariant
            x@ == s@,
            i <= x@.len(),
            r@ == text::with_char(s@, old_char, new_char).take(i as int),
        decreases x@.len() - i,
    {
        if x[i] == old_char {
            r.push(new_char);
        } else {
            r.push(x[i]);
        }
        i = i + 1;
    }
    r
}

/// `s` with its ASCII letters in upper case.
pub(crate) fn to_upper(s: &str) -> (r: String)
    ensures
        r@ == text::upper(s@),
{
    let x = chars_of(s);
    let mut r = String::new();
    let mut i: usize = 0;
    while i < x.len()
        invariant
            x@ == s@,
            i <= x@.len(),
            r@ == text::upper(s@).take(i as int),
        decreases x@.len() - i,
    {
        let c = x[i];
        if 'a' <= c && c <= 'z' {
            r.push(((c as u8) - 32) as char);
        } else {
            r.push(c);
        }
        i = i + 1;
    }
    r
}

/// `c`, in lower case where it is an ASCII letter.
pub(crate) fn to_lower_char(c: char) -> (r: char)
    ensures
        r == text::lower_char(c),
{
    if 'A' <= c && c <= 'Z' {
        ((c as u8) + 32) as char
    } else {
        c
    }
}

/// `s` with its ASCII letters in lower case.
pub(crate) fn to_lower(s: &str) -> (r: String)
    ensures
        r@ == text::lower(s@),
{
    let x = chars_of(s);
    let mut r = String::new();
    let mut i: usize = 0;
    while i < x.len()
        invariant
            x@ == s@,
            i <= x@.len(),
            r@ == text::lower(s@).take(i as int),
        decreases x@.len() - i,
    {
        r.push(to_lower_char(x[i]));
        i = i + 1;
    }
    r
}

/// `parts` one after the other with `sep` between them.
pub(crate) fn join(parts: &Vec<String>, sep: &str) -> (r: String)
    ensures
        r@ == text::joined(text::texts(parts@), sep@),
{
    let ghost ps = text::texts(parts@);
    let mut r = String::new();
    let mut i: usize = 0;
    while i < parts.len()
        invariant
            ps == text::texts(parts@),
            i <= parts@.len(),
            r@ == text::joined(ps.take(i as int), sep@),
        decreases parts@.len() - i,
    {
        assert(ps.take(i + 1).drop_last() == ps.take(i as int));
        if i > 0 {
            r.append(sep);
        }
        r.append(parts[i].as_str());
        i = i + 1;
    }
    assert(ps.take(i as int) == ps);
    r
}

/// `n` in decimal digits.
pub(crate) fn decimal_of(n: u32) -> (r: String)
    ensures
        r@ == text::decimal(n as nat),
    decreases n,
{
    let mut r = if n < 10 {
        String::new()
    } else {
        decimal_of(n / 10)
    };
    r.push(((n % 10) as u8 + 48) as char);
    r
}

/// Whether `v` holds the text `x`.
pub(crate) fn contains_item(v: &Vec<String>, x: &str) -> (r: bool)
    ensures
        r == text::texts(v@).contains(x@),
{
    let mut i: usize = 0;
    while i < v.len()
        invariant
            i <= v@.len(),
            forall|j: int| 0 <= j < i ==> text::texts(v@)[j] != x@,
        decreases v@.len() - i,
    {
        if same_text(v[i].as_str(), x) {
            assert(text::texts(v@)[i as int] == x@);
            return true;
        }
        i = i + 1;
    }
    false
}

/// Puts `x` at the end of `v`, unless `v` holds it already.
pub(crate) fn push_missing(v: &mut Vec<String>, x: &str)
    ensures
        text::texts(final(v)@) == text::with_missing(text::texts(old(v)@), x@),
{
    if !contains_item(v, x) {
        v.push(x.to_owned());
        assert(text::texts(v@) == text::texts(old(v)@).push(x@));
    }
}

/// Puts those of `more` that `v` lacks at its end.
pub(crate) fn extend_missing(v: &mut Vec<String>, more: &Vec<String>)
    ensures
        text::texts(final(v)@) == text::union_of(text::texts(old(v)@), text::texts(more@)),
{
    let ghost ms = text::texts(more@);
    let mut i: usize = 0;
    while i < more.len()
        invariant
            ms == text::texts(more@),
            i <= more@.len(),
            text::texts(v@) == text::union_of(text::texts(old(v)@), ms.take(i as int)),
        decreases more@.len() - i,
    {
        assert(ms.take(i + 1).drop_last() == ms.take(i as int));
        push_missing(v, more[i].as_str());
        i = i + 1;
    }
    assert(ms.take(i as int) == ms);
}

/// What `s` is from the leftmost `pat` on, with `pat` itself.
pub(crate) fn text_from(s: &str, pat: &str) -> (r: Option<String>)
    ensures
        text::opt_text(r) == text::from_on(s@, pat@),
{
    let x = chars_of(s);
    let y = chars_of(pat);
    match find_chars(x.as_slice(), y.as_slice()) {
        Some(i) => Some(string_of(slice_subrange(x.as_slice(), i, x.len()))),
        None => None,
    }
}

/// What stands before the leftmost `pat` in `s`, or all of `s` without one.
pub(crate) fn text_up_to(s: &str, pat: &str) -> (r: String)
    ensures
        r@ == text::up_to(s@, pat@),
{
    match text_before(s, pat) {
        Some(b) => b,
        None => s.to_owned(),
    }
}

/// What stands before and behind the last `c` in `s`.
pub(crate) fn split_last(s: &str, c: char) -> (r: Option<(String, String)>)
    ensures
        match r {
            Some((b, a)) => {
                let i = text::last_position(s@, c)->0;
                text::last_position(s@, c) is Some && b@ == s@.take(i) && a@ == s@.skip(i + 1)
            },
            None => text::last_position(s@, c) is None,
        },
{
    let x = chars_of(s);
    let mut j: usize = x.len();
    assert(s@.take(j as int) == s@);
    while j > 0
        invariant
            x@ == s@,
            j <= x@.len(),
            text::last_position(s@.take(j as int), c) == text::last_position(s@, c),
        decreases j,
    {
        assert(s@.take(j as int).drop_last() == s@.take(j - 1));
        j = j - 1;
        if x[j] == c {
            let b = string_of(slice_subrange(x.as_slice(), 0, j));
            let a = string_of(slice_subrange(x.as_slice(), j + 1, x.len()));
            return Some((b, a));
        }
    }
    None
}

/// `s` without the `pat`s that it begins with.
pub(crate) fn strip_prefixes(s: &str, pat: &str) -> (r: String)
    requires
        pat@.len() > 0,
    ensures
        r@ == text::without_prefixes(s@, pat@),
{
    let x = chars_of(s);
    let y = chars_of(pat);
    let mut i: usize = 0;
    assert(s@.skip(0) == s@);
    loop
        invariant
            x@ == s@,
            y@ == pat@,
            pat@.len() > 0,
            i <= x@.len(),
            text::without_prefixes(s@.skip(i as int), pat@) == text::without_prefixes(s@, pat@),
        decreases x@.len() - i,
    {
        proof {
            text::lemma_begins_at(s@, pat@, i as int);
        }
        if !stands_at(x.as_slice(), y.as_slice(), i) {
            return string_of(slice_subrange(x.as_slice(), i, x.len()));
        }
        assert(i + y@.len() <= x.len());
        assert(s@.skip(i as int).skip(pat@.len() as int) == s@.skip(i + pat@.len()));
        i = i + y.len();
    }
}

/// Those of `v` that are not empty.
pub(crate) fn drop_empty(v: &Vec<String>) -> (r: Vec<String>)
    ensures
        text::texts(r@) == text::nonempty(text::texts(v@)),
{
    let ghost vs = text::texts(v@);
    let mut r: Vec<String> = Vec::new();
    let mut i: usize = 0;
    while i < v.len()
        invariant
            vs == text::texts(v@),
            i <= v@.len(),
            text::texts(r@) == text::nonempty(vs.take(i as int)),
        decreases v@.len() - i,
    {
        let ghost r0 = text::texts(r@);
        assert(vs.take(i + 1).drop_last() == vs.take(i as int));
        if !v[i].as_str().is_empty() {
            r.push(v[i].clone());
            assert(text::texts(r@) == r0.push(vs[i as int]));
        }
        i = i + 1;
    }
    assert(vs.take(i as int) == vs);
    r
}

/// Each of `v` without the white space at its ends.
pub(crate) fn trim_all(v: &Vec<String>) -> (r: Vec<String>)
    ensures
        text::texts(r@) == text::all_trimmed(text::texts(v@)),
{
    let ghost vs = text::all_trimmed(text::texts(v@));
    let mut r: Vec<String> = Vec::new();
    let mut i: usize = 0;
    while i < v.len()
        invariant
            vs == text::all_trimmed(text::texts(v@)),
            i <= v@.len(),
            text::texts(r@) == vs.take(i as int),
        decreases v@.len() - i,
    {
        let ghost r0 = text::texts(r@);
        r.push(trim(v[i].as_str()));
        assert(text::texts(r@) == r0.push(vs[i as int]));
        i = i + 1;
    }
    r
}

/// A copy of `v`.
pub(crate) fn copy_texts(v: &Vec<String>) -> (r: Vec<String>)
    ensures
        text::texts(r@) == text::texts(v@),
{
    let mut r: Vec<String> = Vec::new();
    let mut i: usize = 0;
    while i < v.len()
        invariant
            i <= v@.len(),
            text::texts(r@) == text::texts(v@).take(i as int),
        decreases v@.len() - i,
    {
        let ghost r0 = text::texts(r@);
        r.push(v[i].clone());
        assert(text::texts(r@) == r0.push(text::texts(v@)[i as int]));
        i = i + 1;
    }
    assert(text::texts(v@).take(i as int) == text::texts(v@));
    r
}

/// A copy of `o`.
pub(crate) fn copy_opt(o: &Option<String>) -> (r: Option<String>)
    ensures
        text::opt_text(r) == text::opt_text(*o),
{
    match o {
        Some(s) => Some(s.clone()),
        None => None,
    }
}

} // verus!
