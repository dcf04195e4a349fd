//! Laws of line numbers.

use crate::source;
use crate::text;
use crate::text_lemmas;
use vstd::prelude::*;

verus! {

/// The first `n` of `pieces`, each with a line feed behind it.
pub open spec fn head(pieces: Seq<Seq<char>>, n: int) -> Seq<char>
    decreases n,
{
    if n <= 0 {
        Seq::empty()
    } else {
        head(pieces, n - 1) + pieces[n - 1] + seq!['\n']
    }
}

/// The bytes of two texts, one after the other.
proof fn lemma_encode_concat(a: Seq<char>, b: Seq<char>)
    ensures
        vstd::utf8::encode_utf8(a + b) == vstd::utf8::encode_utf8(a) + vstd::utf8::encode_utf8(b),
    decreases a.len(),
{
    if a.len() == 0 {
        assert(a + b =~= b);
        assert(vstd::utf8::encode_utf8(a) + vstd::utf8::encode_utf8(b)
            =~= vstd::utf8::encode_utf8(b));
    } else {
        lemma_encode_concat(a.drop_first(), b);
        assert((a + b).drop_first() =~= a.drop_first() + b);
        assert(vstd::utf8::encode_utf8(a + b) =~= vstd::utf8::encode_utf8(a)
            + vstd::utf8::encode_utf8(b));
    }
}

/// The line feeds of two runs of bytes add up.
proof fn lemma_feeds_concat(a: Seq<u8>, b: Seq<u8>)
    ensures
        source::line_feeds(a + b) == source::line_feeds(a) + source::line_feeds(b),
    decreases b.len(),
{
    if b.len() == 0 {
        assert(a + b =~= a);
    } else {
        lemma_feeds_concat(a, b.drop_last());
        assert((a + b).drop_last() =~= a + b.drop_last());
    }
}

/// A run of bytes without a line feed has none.
proof fn lemma_no_feeds(bytes: Seq<u8>)
    requires
        forall|i: int| 0 <= i < bytes.len() ==> #[trigger] bytes[i] != 0x0a,
    ensures
        source::line_feeds(bytes) == 0,
    decreases bytes.len(),
{
    if bytes.len() > 0 {
        assert(bytes[bytes.len() - 1] != 0x0a);
        assert forall|i: int| 0 <= i < bytes.len() - 1 implies #[trigger] bytes.drop_last()[i]
            != 0x0a by {
            assert(bytes.drop_last()[i] == bytes[i]);
        }
        lemma_no_feeds(bytes.drop_last());
    }
}

/// A character is encoded without a line feed, unless it is one.
proof fn lemma_char_feeds(c: char)
    requires
        c != '\n',
    ensures
        source::line_feeds(vstd::utf8::encode_scalar(c as u32)) == 0,
{
    let v = c as u32;
    assert(v <= 0x7f && v != 0x0a ==> (v & 0x7F) as u8 != 0x0au8) by (bit_vector);
    assert(0xC0u8 | ((v >> 6) & 0x1F) as u8 != 0x0au8) by (bit_vector);
    assert(0xE0u8 | ((v >> 12) & 0x0F) as u8 != 0x0au8) by (bit_vector);
    assert(0xF0u8 | ((v >> 18) & 0x7) as u8 != 0x0au8) by (bit_vector);
    assert(0x80u8 | (v & 0x3F) as u8 != 0x0au8) by (bit_vector);
    assert(0x80u8 | ((v >> 6) & 0x3F) as u8 != 0x0au8) by (bit_vector);
    assert(0x80u8 | ((v >> 12) & 0x3F) as u8 != 0x0au8) by (bit_vector);
    lemma_no_feeds(vstd::utf8::encode_scalar(v));
}

/// A text without a line feed is encoded without one.
proof fn lemma_text_feeds(s: Seq<char>)
    requires
        !s.contains('\n'),
    ensures
        source::line_feeds(vstd::utf8::encode_utf8(s)) == 0,
    decreases s.len(),
{
    if s.len() > 0 {
        assert(s.contains(s[0]));
        assert(!s.drop_first().contains('\n')) by {
            if s.drop_first().contains('\n') {
                let i = choose|i: int| 0 <= i < s.len() - 1 && s.drop_first()[i] == '\n';
                assert(s[i + 1] == '\n');
            }
        }
        lemma_text_feeds(s.drop_first());
        lemma_char_feeds(s[0]);
        lemma_feeds_concat(
            vstd::utf8::encode_scalar(s[0] as u32),
            vstd::utf8::encode_utf8(s.drop_first()),
        );
    }
}

/// A line feed is encoded as one byte.
proof fn lemma_feed_bytes()
    ensures
        vstd::utf8::encode_utf8(seq!['\n']) == seq![0x0au8],
        source::line_feeds(seq![0x0au8]) == 1,
{
    let s = seq!['\n'];
    assert((0x0au32 & 0x7F) as u8 == 0x0au8) by (bit_vector);
    assert(s.drop_first() =~= Seq::empty());
    assert(vstd::utf8::encode_utf8(s.drop_first()) =~= Seq::empty());
    assert(vstd::utf8::encode_utf8(s) =~= seq![0x0au8]);
    assert(seq![0x0au8].drop_last() =~= Seq::empty());
    assert(source::line_feeds(seq![0x0au8].drop_last()) == 0);
}

/// The front does not depend on later pieces.
proof fn lemma_head_same(p: Seq<Seq<char>>, q: Seq<Seq<char>>, n: int)
    requires
        n <= p.len(),
        n <= q.len(),
        forall|i: int| 0 <= i < n ==> #[trigger] p[i] == q[i],
    ensures
        head(p, n) == head(q, n),
    decreases n,
{
    if n > 0 {
        lemma_head_same(p, q, n - 1);
        assert(p[n - 1] == q[n - 1]);
    }
}

/// A text is its pieces with line feeds between them.
proof fn lemma_whole(s: Seq<char>)
    ensures
        ({
            let p = text::pieces(s, '\n');
            p.len() > 0 && s == head(p, p.len() - 1) + p.last()
        }),
    decreases s.len(),
{
    let p = text::pieces(s, '\n');
    if s.len() == 0 {
        assert(s =~= head(p, p.len() - 1) + p.last());
    } else {
        let front = s.drop_last();
        let q = text::pieces(front, '\n');
        lemma_whole(front);
        lemma_head_same(p, q, q.len() - 1);
        assert(s =~= front.push(s.last()));
        if s.last() == '\n' {
            assert(p.len() == q.len() + 1);
            assert(p[q.len() - 1] == q.last());
            assert(head(p, p.len() - 1) == head(p, q.len() - 1) + q.last() + seq!['\n']);
            assert(p.last().len() == 0);
            assert(s =~= head(p, p.len() - 1) + p.last());
        } else {
            assert(p.len() == q.len());
            assert(p.last() == q.last().push(s.last()));
            assert(s =~= head(q, q.len() - 1) + q.last().push(s.last()));
        }
    }
}

/// A shorter front is a front of a longer one.
proof fn lemma_head_prefix(p: Seq<Seq<char>>, n: int, m: int)
    requires
        0 <= n <= m,
    ensures
        head(p, n).len() <= head(p, m).len(),
        head(p, m).take(head(p, n).len() as int) == head(p, n),
    decreases m,
{
    let l = head(p, n).len() as int;
    if n < m {
        lemma_head_prefix(p, n, m - 1);
        assert(head(p, m).take(l) =~= head(p, m - 1).take(l));
    } else {
        assert(head(p, m).take(l) =~= head(p, n));
    }
}

/// The bytes and the line feeds of the first lines.
proof fn lemma_head_bytes(p: Seq<Seq<char>>, lines: Seq<Seq<char>>, n: int)
    requires
        0 <= n <= p.len(),
        n <= lines.len(),
        forall|i: int| 0 <= i < n ==> #[trigger] p[i] == lines[i],
        forall|i: int| 0 <= i < n ==> !(#[trigger] p[i]).contains('\n'),
    ensures
        vstd::utf8::encode_utf8(head(p, n)).len() == source::line_offset(lines, n),
        source::line_feeds(vstd::utf8::encode_utf8(head(p, n))) == n,
    decreases n,
{
    if n > 0 {
        lemma_head_bytes(p, lines, n - 1);
        let a = head(p, n - 1);
        let b = p[n - 1];
        let c = seq!['\n'];
        assert(b == lines[n - 1]);
        lemma_encode_concat(a + b, c);
        lemma_encode_concat(a, b);
        lemma_feed_bytes();
        lemma_text_feeds(b);
        lemma_feeds_concat(
            vstd::utf8::encode_utf8(a) + vstd::utf8::encode_utf8(b),
            vstd::utf8::encode_utf8(c),
        );
        lemma_feeds_concat(vstd::utf8::encode_utf8(a), vstd::utf8::encode_utf8(b));
    }
}

/// The line of an endpoint is the number, from one on, of the line that it
/// stands in, unless an earlier line ends in a carriage return and a line feed.
pub proof fn law_line_numbers(s: Seq<char>, n: int)
    requires
        0 <= n < text::lines_of(s).len(),
        forall|i: int|
            0 <= i < n ==> {
                let piece = #[trigger] text::pieces(s, '\n')[i];
                piece.len() > 0 ==> piece.last() != '\r'
            },
    ensures
        source::line_number(s, source::line_offset(text::lines_of(s), n) as int) == (n + 1)
            % 0x1_0000_0000,
{
    let p = text::pieces(s, '\n');
    let lines = text::lines_of(s);
    lemma_whole(s);
    text_lemmas::lemma_pieces_without(s, '\n');
    assert(n <= p.len() - 1);
    assert forall|i: int| 0 <= i < n implies #[trigger] p[i] == lines[i] by {
        assert(lines[i] == text::chomped(p[i]));
    }
    lemma_head_bytes(p, lines, n);
    lemma_head_prefix(p, n, p.len() - 1);
    let h = head(p, n);
    let rest = s.skip(h.len() as int);
    assert(s.take(h.len() as int) =~= h);
    assert(s =~= h + rest);
    lemma_encode_concat(h, rest);
    let bytes = vstd::utf8::encode_utf8(s);
    let off = source::line_offset(lines, n) as int;
    assert(bytes.take(off) =~= vstd::utf8::encode_utf8(h));
}

/// The number of a line is one more than the number of line feeds before it; an
/// offset past the end counts as the end.
pub proof fn law_line_number_counts(a: Seq<char>, b: Seq<char>, past: int)
    requires
        past >= vstd::utf8::encode_utf8(a).len(),
    ensures
        source::line_number(a + b, vstd::utf8::encode_utf8(a).len() as int)
            == text::pieces(a, '\n').len() % 0x1_0000_0000,
        source::line_number(a, past) == text::pieces(a, '\n').len() % 0x1_0000_0000,
{
    let p = text::pieces(a, '\n');
    let n = p.len() - 1;
    lemma_whole(a);
    text_lemmas::lemma_pieces_without(a, '\n');
    lemma_head_bytes(p, p, n);
    let h = head(p, n);
    lemma_encode_concat(h, p.last());
    assert(!p[n].contains('\n'));
    lemma_text_feeds(p.last());
    lemma_feeds_concat(vstd::utf8::encode_utf8(h), vstd::utf8::encode_utf8(p.last()));
    let bytes = vstd::utf8::encode_utf8(a);
    lemma_encode_concat(a, b);
    assert(vstd::utf8::encode_utf8(a + b).take(bytes.len() as int) =~= bytes);
    assert(bytes.take(bytes.len() as int) =~= bytes);
}

} // verus!
