//! Laws of paths and identifiers.

use crate::manifest;
use crate::paths;
use crate::text;
use crate::text::CharClass;
use crate::text_laws;
use crate::text_lemmas;
use vstd::prelude::*;

verus! {

/// `c` is a lower-case ASCII letter or a digit.
pub open spec fn is_id_char(c: char) -> bool {
    ('a' <= c <= 'z') || ('0' <= c <= '9')
}

/// `part` is not empty and has only lower-case ASCII letters and digits.
pub open spec fn is_id_part(part: Seq<char>) -> bool {
    part.len() > 0 && forall|i: int| 0 <= i < part.len() ==> is_id_char(#[trigger] part[i])
}

/// All of `parts` are such parts.
pub open spec fn all_id_parts(parts: Seq<Seq<char>>) -> bool {
    forall|i: int| 0 <= i < parts.len() ==> is_id_part(#[trigger] parts[i])
}

/// `s` has only lower-case ASCII letters, digits and dashes; no dash stands at
/// its ends or next to another.
pub open spec fn is_id(s: Seq<char>) -> bool {
    &&& forall|i: int| 0 <= i < s.len() ==> is_id_char(#[trigger] s[i]) || s[i] == '-'
    &&& s.len() > 0 ==> s[0] != '-' && s.last() != '-'
    &&& forall|i: int, j: int|
        0 <= i < s.len() && j == i + 1 && j < s.len() ==> #[trigger] s[i] != '-'
            || #[trigger] s[j] != '-'
}

/// The parts of an identifier.
proof fn lemma_id_parts(s: Seq<char>)
    ensures
        all_id_parts(text::nonempty(text::pieces(manifest::dashed(s), '-'))),
{
    let d = manifest::dashed(s);
    let p = text::pieces(d, '-');
    let parts = text::nonempty(p);
    text_lemmas::lemma_nonempty_members(p);
    text_lemmas::lemma_pieces_without(d, '-');
    lemma_pieces_chars(d, '-');
    assert forall|i: int| 0 <= i < parts.len() implies is_id_part(#[trigger] parts[i]) by {
        let part = parts[i];
        assert(p.contains(part));
        let k = choose|k: int| 0 <= k < p.len() && p[k] == part;
        assert(!p[k].contains('-'));
        assert forall|j: int| 0 <= j < part.len() implies is_id_char(#[trigger] part[j]) by {
            assert(part.contains(part[j]));
            assert(d.contains(p[k][j]));
            let m = choose|m: int| 0 <= m < d.len() && d[m] == part[j];
            assert(d[m] == manifest::id_char(s[m]));
        }
    }
}

/// The characters of a piece are characters of the whole.
proof fn lemma_pieces_chars(s: Seq<char>, c: char)
    ensures
        forall|k: int, j: int|
            0 <= k < text::pieces(s, c).len() && 0 <= j < text::pieces(s, c)[k].len()
                ==> s.contains(#[trigger] text::pieces(s, c)[k][j]),
    decreases s.len(),
{
    if s.len() > 0 {
        let front = s.drop_last();
        let p = text::pieces(front, c);
        let all = text::pieces(s, c);
        lemma_pieces_chars(front, c);
        text::lemma_pieces_nonempty(front, c);
        assert(s.contains(s[s.len() - 1]));
        assert forall|k: int, j: int|
            0 <= k < all.len() && 0 <= j < all[k].len() implies s.contains(
            #[trigger] all[k][j],
        ) by {
            if k < p.len() && j < p[k].len() {
                assert(all[k][j] == p[k][j]);
                assert(front.contains(p[k][j]));
                let m = choose|m: int| 0 <= m < front.len() && front[m] == p[k][j];
                assert(s[m] == p[k][j]);
            }
        }
    }
}

/// Parts with dashes between them are an identifier.
proof fn lemma_joined_id(parts: Seq<Seq<char>>)
    requires
        all_id_parts(parts),
    ensures
        is_id(text::joined(parts, seq!['-'])),
        parts.len() > 0 ==> text::joined(parts, seq!['-']).len() > 0,
    decreases parts.len(),
{
    if parts.len() == 1 {
        assert(is_id_part(parts[0]));
        let s = parts[0];
        assert(is_id_char(s[0]) && is_id_char(s[s.len() - 1]));
    } else if parts.len() > 1 {
        let front = parts.drop_last();
        assert(all_id_parts(front)) by {
            assert forall|i: int| 0 <= i < front.len() implies is_id_part(#[trigger] front[i]) by {
                assert(front[i] == parts[i]);
            }
        }
        lemma_joined_id(front);
        let a = text::joined(front, seq!['-']);
        let b = parts.last();
        assert(is_id_part(parts[parts.len() - 1]));
        let s = a + seq!['-'] + b;
        let n = a.len() as int;
        assert(is_id_char(b[0]) && is_id_char(b[b.len() - 1]));
        assert(s[0] == a[0]);
        assert(s.last() == b[b.len() - 1]);
        assert forall|i: int| 0 <= i < s.len() implies is_id_char(#[trigger] s[i]) || s[i]
            == '-' by {
            if i < n {
                assert(s[i] == a[i]);
            } else if i > n {
                assert(s[i] == b[i - n - 1]);
            }
        }
        assert forall|i: int, j: int| 0 <= i < s.len() && j == i + 1 && j < s.len() implies (
        #[trigger] s[i] != '-' || #[trigger] s[j] != '-') by {
            if j < n {
                assert(s[i] == a[i] && s[j] == a[j]);
            } else if j == n {
                assert(s[i] == a[n - 1]);
            } else {
                assert(s[j] == b[j - n - 1]);
                assert(is_id_char(b[j - n - 1]));
            }
        }
    }
}

/// An identifier has only lower-case ASCII letters, digits and dashes, with no
/// dash at its ends or next to another, whatever it is made from.
pub proof fn law_id_shape(s: Seq<char>)
    ensures
        is_id(manifest::id_of(s)),
{
    reveal_strlit("-");
    assert("-"@ =~= seq!['-']);
    lemma_id_parts(s);
    lemma_joined_id(text::nonempty(text::pieces(manifest::dashed(s), '-')));
}

/// `s` without its dashes.
pub open spec fn undashed(s: Seq<char>) -> Seq<char>
    decreases s.len(),
{
    if s.len() == 0 {
        s
    } else if s.last() == '-' {
        undashed(s.drop_last())
    } else {
        undashed(s.drop_last()).push(s.last())
    }
}

/// The ASCII letters and digits of `s`, in order, in lower case.
pub open spec fn letters(s: Seq<char>) -> Seq<char>
    decreases s.len(),
{
    if s.len() == 0 {
        s
    } else if manifest::is_alphanumeric(s.last()) {
        letters(s.drop_last()).push(text::lower_char(s.last()))
    } else {
        letters(s.drop_last())
    }
}

/// `parts`, one after the other.
spec fn flat(parts: Seq<Seq<char>>) -> Seq<char>
    decreases parts.len(),
{
    if parts.len() == 0 {
        Seq::empty()
    } else {
        flat(parts.drop_last()) + parts.last()
    }
}

/// Dashes are left out of each of two texts.
proof fn lemma_undashed_concat(a: Seq<char>, b: Seq<char>)
    ensures
        undashed(a + b) == undashed(a) + undashed(b),
    decreases b.len(),
{
    if b.len() == 0 {
        assert(a + b =~= a);
        assert(undashed(a) + undashed(b) =~= undashed(a));
    } else {
        lemma_undashed_concat(a, b.drop_last());
        assert((a + b).drop_last() =~= a + b.drop_last());
        assert(undashed(a + b) =~= undashed(a) + undashed(b));
    }
}

/// A part has no dashes to leave out.
proof fn lemma_undashed_part(s: Seq<char>)
    requires
        forall|i: int| 0 <= i < s.len() ==> is_id_char(#[trigger] s[i]),
    ensures
        undashed(s) == s,
    decreases s.len(),
{
    if s.len() > 0 {
        assert(is_id_char(s[s.len() - 1]));
        assert forall|i: int| 0 <= i < s.len() - 1 implies is_id_char(
            #[trigger] s.drop_last()[i],
        ) by {
            assert(s.drop_last()[i] == s[i]);
        }
        lemma_undashed_part(s.drop_last());
        assert(s.drop_last().push(s.last()) =~= s);
    }
}

/// The pieces between dashes are the text without its dashes.
proof fn lemma_flat_pieces(s: Seq<char>)
    ensures
        flat(text::pieces(s, '-')) == undashed(s),
    decreases s.len(),
{
    let all = text::pieces(s, '-');
    if s.len() == 0 {
        assert(all.drop_last() =~= Seq::empty());
        assert(flat(all.drop_last()) =~= Seq::empty());
        assert(flat(all) =~= undashed(s));
    } else {
        let p = text::pieces(s.drop_last(), '-');
        lemma_flat_pieces(s.drop_last());
        text::lemma_pieces_nonempty(s.drop_last(), '-');
        if s.last() == '-' {
            assert(all.drop_last() =~= p);
            assert(flat(all) =~= flat(p));
        } else {
            assert(all.drop_last() =~= p.drop_last());
            assert(flat(all) =~= flat(p).push(s.last()));
        }
    }
}

/// Empty parts add nothing.
proof fn lemma_flat_nonempty(parts: Seq<Seq<char>>)
    ensures
        flat(text::nonempty(parts)) == flat(parts),
    decreases parts.len(),
{
    if parts.len() > 0 {
        let front = text::nonempty(parts.drop_last());
        lemma_flat_nonempty(parts.drop_last());
        if parts.last().len() == 0 {
            assert(flat(parts) =~= flat(parts.drop_last()));
        } else {
            assert(front.push(parts.last()).drop_last() =~= front);
        }
    }
}

/// Without its dashes an identifier is its parts.
proof fn lemma_undashed_joined(parts: Seq<Seq<char>>)
    requires
        all_id_parts(parts),
    ensures
        undashed(text::joined(parts, seq!['-'])) == flat(parts),
    decreases parts.len(),
{
    if parts.len() > 0 {
        let front = parts.drop_last();
        let last = parts.last();
        assert(is_id_part(parts[parts.len() - 1]));
        lemma_undashed_part(last);
        assert(all_id_parts(front)) by {
            assert forall|i: int| 0 <= i < front.len() implies is_id_part(#[trigger] front[i]) by {
                assert(front[i] == parts[i]);
            }
        }
        if parts.len() == 1 {
            assert(flat(front) =~= Seq::empty());
            assert(flat(parts) =~= last);
        } else {
            let a = text::joined(front, seq!['-']);
            lemma_undashed_joined(front);
            lemma_undashed_concat(a + seq!['-'], last);
            assert((a + seq!['-']).drop_last() =~= a);
        }
    }
}

/// What is no letter or digit becomes a dash.
proof fn lemma_undashed_dashed(s: Seq<char>)
    ensures
        undashed(manifest::dashed(s)) == letters(s),
    decreases s.len(),
{
    let d = manifest::dashed(s);
    if s.len() > 0 {
        lemma_undashed_dashed(s.drop_last());
        assert(d.drop_last() =~= manifest::dashed(s.drop_last()));
        assert(d.last() == manifest::id_char(s.last()));
    } else {
        assert(d =~= s);
    }
}

/// Without its dashes an identifier is the ASCII letters and digits of the text
/// that it is made from, in order, in lower case.
pub proof fn law_id_letters(s: Seq<char>)
    ensures
        undashed(manifest::id_of(s)) == letters(s),
{
    reveal_strlit("-");
    assert("-"@ =~= seq!['-']);
    let d = manifest::dashed(s);
    let p = text::pieces(d, '-');
    lemma_id_parts(s);
    lemma_undashed_joined(text::nonempty(p));
    lemma_flat_nonempty(p);
    lemma_flat_pieces(d);
    lemma_undashed_dashed(s);
}

/// The identifier of an identifier is the identifier itself.
pub proof fn law_id_idempotent(s: Seq<char>)
    ensures
        manifest::id_of(manifest::id_of(s)) == manifest::id_of(s),
{
    reveal_strlit("-");
    assert("-"@ =~= seq!['-']);
    law_id_shape(s);
    lemma_id_parts(s);
    let id = manifest::id_of(s);
    let parts = text::nonempty(text::pieces(manifest::dashed(s), '-'));
    assert(manifest::dashed(id) =~= id) by {
        assert forall|i: int| 0 <= i < id.len() implies manifest::id_char(#[trigger] id[i])
            == id[i] by {
            assert(is_id_char(id[i]) || id[i] == '-');
        }
    }
    if parts.len() == 0 {
        assert(id =~= Seq::empty());
        assert(text::pieces(id, '-') =~= seq![Seq::empty()]);
        let none: Seq<Seq<char>> = seq![Seq::empty()];
        assert(none.drop_last() =~= Seq::empty());
        assert(text::nonempty(none) == text::nonempty(none.drop_last()));
        assert(text::nonempty(none.drop_last()).len() == 0);
    } else {
        assert forall|i: int| 0 <= i < parts.len() implies !(#[trigger] parts[i]).contains(
            '-',
        ) by {
            assert(is_id_part(parts[i]));
            if parts[i].contains('-') {
                let j = choose|j: int| 0 <= j < parts[i].len() && parts[i][j] == '-';
                assert(is_id_char(parts[i][j]));
            }
        }
        text_lemmas::lemma_pieces_joined(parts, '-');
        assert forall|i: int| 0 <= i < parts.len() implies (#[trigger] parts[i]).len() > 0 by {
            assert(is_id_part(parts[i]));
        }
        text_lemmas::lemma_nonempty_same(parts);
    }
}

/// `part` names a file or directory: it is not empty, not `.` or `..`, and has
/// no `/`.
pub open spec fn is_name(part: Seq<char>) -> bool {
    part.len() > 0 && part != "."@ && part != ".."@ && !part.contains('/')
}

/// All of `parts` name files or directories.
pub open spec fn all_names(parts: Seq<Seq<char>>) -> bool {
    forall|i: int| 0 <= i < parts.len() ==> is_name(#[trigger] parts[i])
}

/// Only names are left once `.` and `..` are worked out.
proof fn lemma_resolved_names(parts: Seq<Seq<char>>)
    requires
        forall|i: int| 0 <= i < parts.len() ==> !(#[trigger] parts[i]).contains('/'),
    ensures
        all_names(paths::resolved_parts(parts)),
    decreases parts.len(),
{
    if parts.len() > 0 {
        let rest = parts.drop_last();
        assert forall|i: int| 0 <= i < rest.len() implies !(#[trigger] rest[i]).contains('/') by {
            assert(rest[i] == parts[i]);
        }
        lemma_resolved_names(rest);
        assert(!parts[parts.len() - 1].contains('/'));
        let front = paths::resolved_parts(rest);
        let all = paths::resolved_parts(parts);
        assert forall|i: int| 0 <= i < all.len() implies is_name(#[trigger] all[i]) by {
            if i < front.len() {
                assert(is_name(front[i]));
            }
        }
    }
}

/// In names nothing is to be worked out.
proof fn lemma_names_resolved(parts: Seq<Seq<char>>)
    requires
        all_names(parts),
    ensures
        paths::resolved_parts(parts) == parts,
    decreases parts.len(),
{
    if parts.len() > 0 {
        let front = parts.drop_last();
        assert forall|i: int| 0 <= i < front.len() implies is_name(#[trigger] front[i]) by {
            assert(front[i] == parts[i]);
        }
        lemma_names_resolved(front);
        assert(is_name(parts[parts.len() - 1]));
        assert(front.push(parts.last()) =~= parts);
    }
}

/// Empty parts at the front do not matter.
proof fn lemma_resolved_empty_front(parts: Seq<Seq<char>>)
    ensures
        paths::resolved_parts(seq![Seq::<char>::empty()] + parts) == paths::resolved_parts(parts),
    decreases parts.len(),
{
    let all = seq![Seq::<char>::empty()] + parts;
    if parts.len() == 0 {
        assert(all.drop_last() =~= Seq::empty());
        assert(paths::resolved_parts(all.drop_last()) =~= parts);
        assert(all.last().len() == 0);
    } else {
        assert(all.drop_last() =~= seq![Seq::<char>::empty()] + parts.drop_last());
        lemma_resolved_empty_front(parts.drop_last());
    }
}

/// An empty part at the front gives a separator at the front.
proof fn lemma_joined_empty_front(parts: Seq<Seq<char>>)
    requires
        parts.len() > 0,
    ensures
        text::joined(seq![Seq::<char>::empty()] + parts, seq!['/']) == seq!['/'] + text::joined(
            parts,
            seq!['/'],
        ),
    decreases parts.len(),
{
    let all = seq![Seq::<char>::empty()] + parts;
    assert(all.drop_last() =~= seq![Seq::<char>::empty()] + parts.drop_last());
    if parts.len() == 1 {
        assert(all.drop_last().len() == 1);
        assert(text::joined(all.drop_last(), seq!['/']) == all.drop_last()[0]);
        assert(text::joined(all, seq!['/']) =~= seq!['/'] + parts[0]);
    } else {
        lemma_joined_empty_front(parts.drop_last());
        assert(text::joined(all, seq!['/']) =~= seq!['/'] + text::joined(parts, seq!['/']));
    }
}

/// What a normal path is made of.
proof fn lemma_normal_pieces(path: Seq<char>)
    ensures
        ({
            let parts = paths::resolved_parts(text::pieces(path, '/'));
            let normal = paths::normal_path(path);
            &&& all_names(parts)
            &&& text::begins(normal, "/"@) == text::begins(path, "/"@)
            &&& paths::resolved_parts(text::pieces(normal, '/')) == parts
            &&& if parts.len() > 0 {
                text::pieces(normal, '/') == (if text::begins(path, "/"@) {
                    seq![Seq::<char>::empty()] + parts
                } else {
                    parts
                })
            } else {
                normal.len() == 0 || normal == "/"@
            }
        }),
{
    reveal_strlit("/");
    assert("/"@ =~= seq!['/']);
    let parts = paths::resolved_parts(text::pieces(path, '/'));
    let rel = text::joined(parts, seq!['/']);
    let normal = paths::normal_path(path);
    text_lemmas::lemma_pieces_without(path, '/');
    lemma_resolved_names(text::pieces(path, '/'));
    let empty = Seq::<char>::empty();
    let absolute = text::begins(path, "/"@);
    if absolute {
        assert(normal.subrange(0, 1) =~= "/"@);
        assert(text::begins(normal, "/"@));
        if parts.len() == 0 {
            assert(!empty.contains('/'));
            text_lemmas::lemma_one_piece(empty, '/');
            text_lemmas::lemma_pieces_append(empty, empty, '/');
            assert(normal =~= empty + seq!['/'] + empty);
            assert(text::pieces(normal, '/') =~= seq![empty] + seq![empty]);
            lemma_resolved_empty_front(seq![empty]);
            assert(seq![empty] + Seq::<Seq<char>>::empty() =~= seq![empty]);
            lemma_resolved_empty_front(Seq::<Seq<char>>::empty());
            assert(parts =~= Seq::empty());
        } else {
            let all = seq![empty] + parts;
            assert forall|i: int| 0 <= i < all.len() implies !(#[trigger] all[i]).contains(
                '/',
            ) by {
                if i > 0 {
                    assert(is_name(parts[i - 1]));
                }
            }
            lemma_joined_empty_front(parts);
            text_lemmas::lemma_pieces_joined(all, '/');
            lemma_resolved_empty_front(parts);
            lemma_names_resolved(parts);
        }
    } else if parts.len() == 0 {
        assert(normal =~= empty);
        assert(!empty.contains('/'));
        text_lemmas::lemma_one_piece(empty, '/');
        assert(seq![empty] + Seq::<Seq<char>>::empty() =~= seq![empty]);
        lemma_resolved_empty_front(Seq::<Seq<char>>::empty());
        assert(parts =~= Seq::empty());
    } else {
        assert forall|i: int| 0 <= i < parts.len() implies !(#[trigger] parts[i]).contains(
            '/',
        ) by {
            assert(is_name(parts[i]));
        }
        text_lemmas::lemma_pieces_joined(parts, '/');
        lemma_names_resolved(parts);
        assert(is_name(parts[0]));
        lemma_joined_first(parts);
        assert(!text::begins(normal, "/"@)) by {
            if text::begins(normal, "/"@) {
                assert(normal.subrange(0, 1)[0] == '/');
                assert(parts[0].contains(parts[0][0]));
            }
        }
    }
}

/// Joined parts begin with the first part.
proof fn lemma_joined_first(parts: Seq<Seq<char>>)
    requires
        parts.len() > 0,
        parts[0].len() > 0,
    ensures
        text::joined(parts, seq!['/']).len() > 0,
        text::joined(parts, seq!['/'])[0] == parts[0][0],
    decreases parts.len(),
{
    if parts.len() > 1 {
        lemma_joined_first(parts.drop_last());
    }
}

/// A normal path is absolute exactly if the path that it is made from is. Unless
/// it is empty or `/`, all its parts behind a leading `/` name files or
/// directories: none is empty, `.` or `..`.
pub proof fn law_normal_path_parts(path: Seq<char>)
    ensures
        ({
            let normal = paths::normal_path(path);
            let absolute = text::begins(path, "/"@);
            &&& text::begins(normal, "/"@) == absolute
            &&& normal.len() == 0 || normal == "/"@ || forall|i: int|
                (if absolute {
                    1int
                } else {
                    0
                }) <= i < text::pieces(normal, '/').len() ==> is_name(
                    #[trigger] text::pieces(normal, '/')[i],
                )
        }),
{
    lemma_normal_pieces(path);
    let normal = paths::normal_path(path);
    let parts = paths::resolved_parts(text::pieces(path, '/'));
    let p = text::pieces(normal, '/');
    let first: int = if text::begins(path, "/"@) {
        1
    } else {
        0
    };
    if parts.len() > 0 {
        assert forall|i: int| first <= i < p.len() implies is_name(#[trigger] p[i]) by {
            assert(p[i] == parts[i - first]);
        }
    }
}

/// A normal path stays what it is when it is made normal again.
pub proof fn law_normal_path_idempotent(path: Seq<char>)
    ensures
        paths::normal_path(paths::normal_path(path)) == paths::normal_path(path),
{
    lemma_normal_pieces(path);
}

/// A normal relative path has no `\`, and no `/` at its ends.
pub proof fn law_normal_relative_ends(path: Seq<char>)
    ensures
        ({
            let r = paths::normal_relative(path);
            &&& !r.contains('\\')
            &&& r.len() > 0 ==> r[0] != '/' && r.last() != '/'
        }),
{
    reveal_strlit("./");
    let k = CharClass::Only('/');
    let p = text::with_char(path, '\\', '/');
    let q = text::without_prefixes(p, "./"@);
    let n = lemma_without_prefixes(p, "./"@);
    let a = text_lemmas::lemma_strip_front(q, k);
    let u = q.skip(a);
    let b = text_lemmas::lemma_strip_back(u, k);
    let r = paths::normal_relative(path);
    assert(r == u.take(b));
    if r.contains('\\') {
        let i = choose|i: int| 0 <= i < r.len() && r[i] == '\\';
        assert(p[i + a + n] == '\\');
    }
    if r.len() > 0 {
        assert(r[0] == q[a]);
        assert(r.last() == u[b - 1]);
    }
}

/// Cutting off prefixes leaves a back of the text.
proof fn lemma_without_prefixes(s: Seq<char>, pat: Seq<char>) -> (n: int)
    ensures
        0 <= n <= s.len(),
        text::without_prefixes(s, pat) == s.skip(n),
    decreases s.len(),
{
    if pat.len() > 0 && text::begins(s, pat) {
        let m = lemma_without_prefixes(s.skip(pat.len() as int), pat);
        assert(s.skip(pat.len() as int).skip(m) =~= s.skip(m + pat.len()));
        m + pat.len()
    } else {
        assert(s.skip(0) =~= s);
        0
    }
}

/// What file names and directories say of a file.
pub proof fn law_path_kinds(path: Seq<char>)
    ensures
        paths::solution_path(path) <==> text::ends(path, ".sln"@),
        paths::project_path(path) <==> {
            ||| text::ends(path, ".csproj"@)
            ||| text::ends(path, ".fsproj"@)
            ||| text::ends(path, ".vbproj"@)
        },
        paths::ignored_source(path) <==> {
            ||| text::begins(path, "obj/"@)
            ||| text::begins(path, "bin/"@)
            ||| text::occurs(path, "/obj/"@)
            ||| text::occurs(path, "/bin/"@)
            ||| text::occurs(path, "/.git/"@)
        },
{
}

/// A file may be an OpenAPI document by its name, in any directory and any case
/// of letters.
pub proof fn law_oas_names(dir: Seq<char>, name: Seq<char>)
    requires
        !name.contains('/'),
        ({
            let n = text::lower(name);
            let openapi = n == "openapi.yaml"@ || n == "openapi.yml"@ || n == "openapi.json"@;
            let swagger = n == "swagger.yaml"@ || n == "swagger.yml"@ || n == "swagger.json"@;
            openapi || swagger
        }),
    ensures
        paths::oas_path(name),
        paths::oas_path(dir + seq!['/'] + name),
{
    lemma_lower_slash(name);
    let n = text::lower(name);
    text_lemmas::lemma_one_piece(n, '/');
    let all = dir + seq!['/'] + name;
    assert(text::lower(all) =~= text::lower(dir) + seq!['/'] + n);
    text_lemmas::lemma_pieces_append(text::lower(dir), n, '/');
}

/// Lower case brings no `/`.
proof fn lemma_lower_slash(s: Seq<char>)
    requires
        !s.contains('/'),
    ensures
        !text::lower(s).contains('/'),
{
    let l = text::lower(s);
    if l.contains('/') {
        let i = choose|i: int| 0 <= i < l.len() && l[i] == '/';
        text_laws::law_case(s, i);
        assert(s[i] == '/');
    }
}

/// A file may also be an OpenAPI document by a directory on its way, if it is
/// JSON or YAML.
pub proof fn law_oas_directories(path: Seq<char>)
    ensures
        ({
            let p = text::lower(path);
            let below = text::occurs(p, "/openapi/"@) || text::occurs(p, "/swagger/"@)
                || text::occurs(p, "/docs/"@);
            let format = text::ends(p, ".json"@) || text::ends(p, ".yaml"@) || text::ends(
                p,
                ".yml"@,
            );
            &&& below && format ==> paths::oas_path(path)
            &&& paths::oas_path(path) ==> format
            &&& paths::oas_path(path) && !below ==> {
                let n = text::pieces(p, '/').last();
                ||| n == "openapi.yaml"@
                ||| n == "openapi.yml"@
                ||| n == "openapi.json"@
                ||| n == "swagger.yaml"@
                ||| n == "swagger.yml"@
                ||| n == "swagger.json"@
            }
        }),
{
    let p = text::lower(path);
    let n = text::pieces(p, '/').last();
    if paths::oas_file_name(n) {
        lemma_last_piece(p, '/');
        reveal_strlit("openapi.yaml");
        reveal_strlit("openapi.yml");
        reveal_strlit("openapi.json");
        reveal_strlit("swagger.yaml");
        reveal_strlit("swagger.yml");
        reveal_strlit("swagger.json");
        reveal_strlit(".json");
        reveal_strlit(".yaml");
        reveal_strlit(".yml");
        let k = n.len() as int;
        if n == "openapi.json"@ || n == "swagger.json"@ {
            assert(p.subrange(p.len() - 5, p.len() as int) =~= n.subrange(k - 5, k));
            assert(n.subrange(k - 5, k) =~= ".json"@);
        } else if n == "openapi.yaml"@ || n == "swagger.yaml"@ {
            assert(p.subrange(p.len() - 5, p.len() as int) =~= n.subrange(k - 5, k));
            assert(n.subrange(k - 5, k) =~= ".yaml"@);
        } else {
            assert(p.subrange(p.len() - 4, p.len() as int) =~= n.subrange(k - 4, k));
            assert(n.subrange(k - 4, k) =~= ".yml"@);
        }
    }
}

/// The last piece stands at the back.
proof fn lemma_last_piece(s: Seq<char>, c: char)
    ensures
        text::pieces(s, c).last().len() <= s.len(),
        s.skip(s.len() - text::pieces(s, c).last().len()) == text::pieces(s, c).last(),
    decreases s.len(),
{
    let l = text::pieces(s, c).last();
    if s.len() > 0 {
        lemma_last_piece(s.drop_last(), c);
        text::lemma_pieces_nonempty(s.drop_last(), c);
        assert(s.skip(s.len() - l.len()) =~= l);
    } else {
        assert(s.skip(0) =~= l);
    }
}

/// The directory and the stem of a path that is put together from them.
pub proof fn law_path_parts(dir: Seq<char>, file: Seq<char>)
    requires
        !file.contains('/'),
    ensures
        ({
            let path = dir + seq!['/'] + file;
            &&& paths::relative_parent(path) == Some(dir)
            &&& dir.len() > 0 ==> paths::parent(path) == dir
            &&& dir.len() == 0 ==> paths::parent(path) == seq!['/']
            &&& paths::stem(path) == paths::stem(file)
            &&& paths::relative_parent(file) is None
            &&& paths::parent(file) == seq!['.']
        }),
{
    reveal_strlit("/");
    reveal_strlit(".");
    assert("/"@ =~= seq!['/']);
    assert("."@ =~= seq!['.']);
    let path = dir + seq!['/'] + file;
    text_laws::law_last_position(dir, '/', file);
    assert(path.take(dir.len() as int) =~= dir);
    text_lemmas::lemma_pieces_append(dir, file, '/');
    text_lemmas::lemma_one_piece(file, '/');
}

/// The stem of a file is its name without its last extension.
pub proof fn law_stem(name: Seq<char>, extension: Seq<char>)
    requires
        !name.contains('/'),
        !extension.contains('/'),
        !extension.contains('.'),
    ensures
        paths::stem(name + seq!['.'] + extension) == name,
        !name.contains('.') ==> paths::stem(name) == name,
{
    let file = name + seq!['.'] + extension;
    assert(!file.contains('/')) by {
        if file.contains('/') {
            let i = choose|i: int| 0 <= i < file.len() && file[i] == '/';
            if i < name.len() {
                assert(name[i] == '/');
            } else {
                assert(extension[i - name.len() - 1] == '/');
            }
        }
    }
    text_lemmas::lemma_one_piece(file, '/');
    text_lemmas::lemma_one_piece(name, '/');
    text_laws::law_last_position(name, '.', extension);
    assert(file.take(name.len() as int) =~= name);
    if !name.contains('.') {
        text_laws::law_last_position(name, '.', name);
    }
}

/// A path below a directory: behind one `/`, unless the directory is the current
/// one.
pub proof fn law_path_below(base: Seq<char>, rel: Seq<char>)
    ensures
        base.len() == 0 || base == seq!['.'] ==> paths::path_below(base, rel) == rel,
        base.len() > 0 && base.last() == '/' ==> paths::path_below(base, rel) == base + rel,
        base.len() > 0 && base != seq!['.'] && base.last() != '/' ==> paths::path_below(base, rel)
            == base + seq!['/'] + rel,
{
    reveal_strlit("/");
    reveal_strlit(".");
    assert("/"@ =~= seq!['/']);
    assert("."@ =~= seq!['.']);
    if base.len() > 0 {
        let n = base.len() as int;
        assert(base.subrange(n - 1, n)[0] == base.last());
        if base.last() == '/' {
            assert(base.subrange(n - 1, n) =~= "/"@);
        }
    }
}

/// Working out parts one after the other: a name is kept until a `..` behind it
/// takes it back, and empty parts and `.` say nothing.
pub proof fn law_resolved_parts(parts: Seq<Seq<char>>, part: Seq<char>, name: Seq<char>)
    requires
        is_name(name),
    ensures
        paths::resolved_parts(Seq::<Seq<char>>::empty()).len() == 0,
        paths::resolved_parts(parts.push(name)) == paths::resolved_parts(parts).push(name),
        paths::resolved_parts(parts.push(name).push(seq!['.', '.'])) == paths::resolved_parts(
            parts,
        ),
        part.len() == 0 || part == seq!['.'] ==> paths::resolved_parts(parts.push(part))
            == paths::resolved_parts(parts),
        paths::resolved_parts(parts).len() == 0 ==> paths::resolved_parts(
            parts.push(seq!['.', '.']),
        ).len() == 0,
{
    reveal_strlit(".");
    reveal_strlit("..");
    assert("."@ =~= seq!['.']);
    assert(".."@ =~= seq!['.', '.']);
    assert(parts.push(name).drop_last() =~= parts);
    assert(parts.push(part).drop_last() =~= parts);
    assert(parts.push(seq!['.', '.']).drop_last() =~= parts);
    let more = parts.push(name).push(seq!['.', '.']);
    assert(more.drop_last() =~= parts.push(name));
    assert(paths::resolved_parts(parts).push(name).drop_last() =~= paths::resolved_parts(parts));
}

/// A normal path is what is left of its parts, with `/`s between them.
pub proof fn law_normal_path(path: Seq<char>)
    ensures
        ({
            let rel = text::joined(paths::resolved_parts(text::pieces(path, '/')), seq!['/']);
            &&& path.len() > 0 && path[0] == '/' ==> paths::normal_path(path) == seq!['/'] + rel
            &&& !(path.len() > 0 && path[0] == '/') ==> paths::normal_path(path) == rel
        }),
{
    reveal_strlit("/");
    assert("/"@ =~= seq!['/']);
    text_laws::law_ends_of(path, "/"@);
    if path.len() > 0 {
        assert(path.take(1)[0] == path[0]);
        if path[0] == '/' {
            assert(path.take(1) =~= "/"@);
        }
    }
}

/// A relative path keeps what is left once `\`s are `/`s, `./`s at its front are
/// gone, and `/`s at its ends.
pub proof fn law_normal_relative(path: Seq<char>, s1: Seq<char>, m: Seq<char>, s2: Seq<char>)
    requires
        text_laws::all_of(s1, CharClass::Only('/')),
        text_laws::all_of(s2, CharClass::Only('/')),
        text_laws::bare_of(m, CharClass::Only('/')),
        !m.contains('\\'),
        s1.len() > 0 || !(m.len() > 1 && m[0] == '.' && m[1] == '/' || m == seq!['.'] && s2.len()
            > 0),
    ensures
        paths::normal_relative(s1 + m + s2) == m,
        paths::normal_relative(seq!['.', '/'] + path) == paths::normal_relative(path),
        paths::normal_relative(text::with_char(path, '\\', '/')) == paths::normal_relative(path),
{
    reveal_strlit("./");
    assert("./"@ =~= seq!['.', '/']);
    let s = s1 + m + s2;
    assert(text::with_char(s, '\\', '/') =~= s) by {
        assert forall|i: int| 0 <= i < s.len() implies s[i] != '\\' by {
            if i < s1.len() {
                assert(s[i] == s1[i]);
            } else if i < s1.len() + m.len() {
                assert(m.contains(m[i - s1.len()]));
                assert(s[i] == m[i - s1.len()]);
            } else {
                assert(s[i] == s2[i - s1.len() - m.len()]);
            }
        }
    }
    text_laws::law_prefixes_cut(s, "./"@);
    assert(!("./"@.len() <= s.len() && s.take(2) == "./"@)) by {
        if s.len() >= 2 && s.take(2) == "./"@ {
            assert(s.take(2)[0] == s[0] && s.take(2)[1] == s[1]);
            if s1.len() > 0 {
                assert(s[0] == s1[0]);
            } else if m.len() == 1 {
                assert(m =~= seq!['.']);
            } else if m.len() == 0 {
                assert(s[0] == s2[0]);
            }
        }
    }
    text_laws::law_strip(s1, m, s2, CharClass::Only('/'));
    let p = text::with_char(path, '\\', '/');
    let dotted = seq!['.', '/'] + path;
    assert(text::with_char(dotted, '\\', '/') =~= "./"@ + p);
    text_laws::law_prefixes_cut(p, "./"@);
    assert(text::with_char(p, '\\', '/') =~= p);
}

/// The path of a source: below the directory of its project, behind one `/`.
pub proof fn law_source_path(root: Seq<char>, s: Seq<char>, rel: Seq<char>)
    requires
        text_laws::all_of(s, CharClass::Only('/')),
        root.len() > 0 ==> root.last() != '/',
    ensures
        paths::source_path(Seq::empty(), rel) == rel,
        root.len() > 0 ==> paths::source_path(root + s, rel) == root + seq!['/'] + rel,
{
    reveal_strlit("/");
    assert("/"@ =~= seq!['/']);
    let k = CharClass::Only('/');
    let all = root + s;
    if root.len() > 0 {
        assert forall|i: int| root.len() <= i < all.len() implies text::in_class(
            k,
            #[trigger] all[i],
        ) by {
            assert(all[i] == s[i - root.len()]);
        }
        text_lemmas::lemma_strip_back_is(all, k, root.len() as int);
        assert(all.take(root.len() as int) =~= root);
    }
}

} // verus!
