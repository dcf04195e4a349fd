//! Laws of solution and project files.

use crate::manifest;
use crate::patterns;
use crate::text;
use crate::text::CharClass;
use crate::text_laws;
use crate::text_lemmas;
use vstd::prelude::*;

verus! {

/// The text of an element is what stands between its tags, trimmed; the first
/// element counts, and it ends at the next closing tag.
pub proof fn law_xml_text(
    a: Seq<char>,
    tag: Seq<char>,
    w1: Seq<char>,
    inner: Seq<char>,
    w2: Seq<char>,
    b: Seq<char>,
)
    requires
        text_laws::all_of(w1, CharClass::White),
        text_laws::all_of(w2, CharClass::White),
        text_laws::bare_of(inner, CharClass::White),
        ({
            let open = seq!['<'] + tag + seq!['>'];
            let close = seq!['<', '/'] + tag + seq!['>'];
            let body = w1 + inner + w2;
            &&& text_laws::free_before(
                a + open + (body + close + b),
                open,
                a.len() as int,
            )
            &&& text_laws::free_before(body + close + b, close, body.len() as int)
        }),
    ensures
        ({
            let open = seq!['<'] + tag + seq!['>'];
            let close = seq!['<', '/'] + tag + seq!['>'];
            manifest::xml_text(a + open + (w1 + inner + w2 + close + b), tag) == Some(inner)
        }),
{
    lemma_tags(tag);
    let open = seq!['<'] + tag + seq!['>'];
    let close = seq!['<', '/'] + tag + seq!['>'];
    let body = w1 + inner + w2;
    text_laws::law_cut(a, open, body + close + b);
    text_laws::law_cut(body, close, b);
    text_laws::law_strip(w1, inner, w2, CharClass::White);
}

/// Without an opening tag, or without a closing tag behind it, there is no text.
pub proof fn law_no_xml_text(a: Seq<char>, tag: Seq<char>, rest: Seq<char>)
    ensures
        ({
            let open = seq!['<'] + tag + seq!['>'];
            let close = seq!['<', '/'] + tag + seq!['>'];
            &&& text_laws::free_of(a, open) ==> manifest::xml_text(a, tag) is None
            &&& text_laws::free_before(a + open + rest, open, a.len() as int)
                && text_laws::free_of(rest, close) ==> manifest::xml_text(a + open + rest, tag)
                is None
        }),
{
    lemma_tags(tag);
    let open = seq!['<'] + tag + seq!['>'];
    let close = seq!['<', '/'] + tag + seq!['>'];
    if text_laws::free_of(a, open) {
        text_laws::law_uncut(a, open);
    }
    if text_laws::free_before(a + open + rest, open, a.len() as int) && text_laws::free_of(
        rest,
        close,
    ) {
        text_laws::law_cut(a, open, rest);
        text_laws::law_uncut(rest, close);
    }
}

proof fn lemma_tags(tag: Seq<char>)
    ensures
        "<"@ + tag + ">"@ == seq!['<'] + tag + seq!['>'],
        "</"@ + tag + ">"@ == seq!['<', '/'] + tag + seq!['>'],
{
    reveal_strlit("<");
    reveal_strlit("</");
    reveal_strlit(">");
    assert("<"@ =~= seq!['<']);
    assert("</"@ =~= seq!['<', '/']);
    assert(">"@ =~= seq!['>']);
}

/// The SDK of a project is the value of the first `Sdk` attribute behind
/// `<Project`.
pub proof fn law_project_sdk(a: Seq<char>, gap: Seq<char>, sdk: Seq<char>, b: Seq<char>)
    requires
        ({
            let rest = gap + "Sdk=\""@ + (sdk + seq!['"'] + b);
            &&& text_laws::free_before(a + "<Project"@ + rest, "<Project"@, a.len() as int)
            &&& text_laws::free_before(
                ("<Project"@ + gap) + "Sdk=\""@ + (sdk + seq!['"'] + b),
                "Sdk=\""@,
                ("<Project"@ + gap).len() as int,
            )
            &&& !sdk.contains('"')
        }),
    ensures
        manifest::project_sdk(
            a + "<Project"@ + (gap + "Sdk=\""@ + (sdk + seq!['"'] + b)),
        ) == Some(sdk),
{
    reveal_strlit("\"");
    assert("\""@ =~= seq!['"']);
    let value = sdk + seq!['"'] + b;
    let rest = gap + "Sdk=\""@ + value;
    text_laws::law_cut(a, "<Project"@, rest);
    assert("<Project"@ + rest =~= ("<Project"@ + gap) + "Sdk=\""@ + value);
    text_laws::law_cut("<Project"@ + gap, "Sdk=\""@, value);
    assert(value.take(sdk.len() as int) =~= sdk);
    assert forall|j: int| 0 <= j < sdk.len() implies value[j] != '"' by {
        assert(sdk.contains(sdk[j]));
    }
    text_lemmas::lemma_find_char_is(value, '"', sdk.len() as int);
    assert(value.take(sdk.len() as int) =~= sdk);
}

/// Without `<Project`, or without an `Sdk` attribute behind it, there is no SDK.
pub proof fn law_no_project_sdk(a: Seq<char>, rest: Seq<char>)
    ensures
        text_laws::free_of(a, "<Project"@) ==> manifest::project_sdk(a) is None,
        text_laws::free_before(a + "<Project"@ + rest, "<Project"@, a.len() as int)
            && text_laws::free_of("<Project"@ + rest, "Sdk=\""@) ==> manifest::project_sdk(
            a + "<Project"@ + rest,
        ) is None,
{
    if text_laws::free_of(a, "<Project"@) {
        text_laws::law_uncut(a, "<Project"@);
    }
    if text_laws::free_before(a + "<Project"@ + rest, "<Project"@, a.len() as int)
        && text_laws::free_of("<Project"@ + rest, "Sdk=\""@) {
        text_laws::law_cut(a, "<Project"@, rest);
        text_laws::law_uncut("<Project"@ + rest, "Sdk=\""@);
    }
}

/// A project may expose an API exactly if its SDK is that of web projects, or its
/// manifest speaks of ASP.NET Core, of Swashbuckle or of OpenAPI.
pub proof fn law_may_expose_api(manifest: Seq<char>)
    ensures
        manifest::may_expose_api(manifest) <==> {
            ||| manifest::project_sdk(manifest) is Some && text::occurs(
                manifest::project_sdk(manifest)->0,
                "Microsoft.NET.Sdk.Web"@,
            )
            ||| text::occurs(manifest, "Microsoft.AspNetCore."@)
            ||| text::occurs(manifest, "Swashbuckle"@)
            ||| text::occurs(manifest, "OpenApi"@)
        },
{
    reveal_strlit("Microsoft.AspNetCore.");
    reveal_strlit("Microsoft.AspNetCore.App");
    reveal_strlit("Microsoft.AspNetCore.OpenApi");
    reveal_strlit("OpenApi");
    reveal_strlit("App");
    reveal_strlit("Microsoft.NET.Sdk.Web");
    let e = Seq::<char>::empty();
    assert("Microsoft.AspNetCore.App"@ =~= e + "Microsoft.AspNetCore."@ + "App"@);
    assert("Microsoft.AspNetCore.OpenApi"@ =~= e + "Microsoft.AspNetCore."@ + "OpenApi"@);
    lemma_occurs_inside(manifest, e, "Microsoft.AspNetCore."@, "App"@);
    lemma_occurs_inside(manifest, e, "Microsoft.AspNetCore."@, "OpenApi"@);
    if manifest::project_sdk(manifest) is None && text::occurs(e, "Microsoft.NET.Sdk.Web"@) {
        let i = choose|i: int| text::occurs_at(e, "Microsoft.NET.Sdk.Web"@, i);
        assert(false);
    }
}

/// What has a longer text has its parts.
proof fn lemma_occurs_inside(s: Seq<char>, x: Seq<char>, pat: Seq<char>, y: Seq<char>)
    ensures
        text::occurs(s, x + pat + y) ==> text::occurs(s, pat),
{
    if text::occurs(s, x + pat + y) {
        text_laws::law_occurs(s, x + pat + y);
        let (a, b) = choose|a: Seq<char>, b: Seq<char>| s == #[trigger] (a + (x + pat + y) + b);
        assert(s =~= (a + x) + pat + (y + b));
        text_laws::law_occurs(s, pat);
    }
}

/// Each match with a name and a path gives a project, in order, with `/`s in its
/// path.
pub proof fn law_matched_projects(
    a: Seq<patterns::Groups>,
    m: patterns::Groups,
    b: Seq<patterns::Groups>,
)
    ensures
        manifest::matched_projects(Seq::<patterns::Groups>::empty()).len() == 0,
        manifest::matched_projects(a + seq![m] + b) == manifest::matched_projects(a) + (
        if patterns::group_text(m, 1).len() > 0 && patterns::group_text(m, 2).len() > 0 {
            seq![
                (
                    patterns::group_text(m, 1),
                    text::with_char(patterns::group_text(m, 2), '\\', '/'),
                ),
            ]
        } else {
            Seq::empty()
        }) + manifest::matched_projects(b),
    decreases b.len(),
{
    let all = a + seq![m] + b;
    let own = if patterns::group_text(m, 1).len() > 0 && patterns::group_text(m, 2).len() > 0 {
        seq![
            (
                patterns::group_text(m, 1),
                text::with_char(patterns::group_text(m, 2), '\\', '/'),
            ),
        ]
    } else {
        Seq::empty()
    };
    if b.len() == 0 {
        assert(all.drop_last() =~= a);
        assert(manifest::matched_projects(all) =~= manifest::matched_projects(a) + own
            + manifest::matched_projects(b));
    } else {
        law_matched_projects(a, m, b.drop_last());
        assert(all.drop_last() =~= a + seq![m] + b.drop_last());
        assert(manifest::matched_projects(all) =~= manifest::matched_projects(a) + own
            + manifest::matched_projects(b));
    }
}

/// The pattern that the projects of a solution are found by, part by part.
pub proof fn law_project_pattern(solution: Seq<char>)
    ensures
        manifest::SOLUTION_PROJECT@ == r"Project\([^)]*\)\s*=\s*"@ + r#""(?P<name>[^"]+)","#@
            + r"\s*"@ + r#""(?P<path>[^"]+)""#@,
        manifest::solution_projects(solution) == manifest::matched_projects(
            patterns::regex_captures_iter(manifest::SOLUTION_PROJECT@, solution),
        ),
{
    reveal_strlit(r"Project\([^)]*\)\s*=\s*");
    reveal_strlit(r#""(?P<name>[^"]+)","#);
    reveal_strlit(r"\s*");
    reveal_strlit(r#""(?P<path>[^"]+)""#);
    reveal_strlit(r#"Project\([^)]*\)\s*=\s*"(?P<name>[^"]+)",\s*"(?P<path>[^"]+)""#);
    assert(manifest::SOLUTION_PROJECT@ =~= r"Project\([^)]*\)\s*=\s*"@
        + r#""(?P<name>[^"]+)","#@ + r"\s*"@ + r#""(?P<path>[^"]+)""#@);
}

/// The parts of an identifier.
spec fn words(s: Seq<char>) -> Seq<Seq<char>> {
    text::nonempty(text::pieces(manifest::dashed(s), '-'))
}

/// The pieces on both sides of a separator.
proof fn lemma_pieces_around(s: Seq<char>, c: char, t: Seq<char>)
    ensures
        text::pieces(s + seq![c] + t, c) == text::pieces(s, c) + text::pieces(t, c),
    decreases t.len(),
{
    let all = s + seq![c] + t;
    if t.len() == 0 {
        assert(all.drop_last() =~= s);
        assert(t =~= Seq::empty());
        assert(text::pieces(all, c) =~= text::pieces(s, c) + text::pieces(t, c));
    } else {
        lemma_pieces_around(s, c, t.drop_last());
        text::lemma_pieces_nonempty(t.drop_last(), c);
        assert(all.drop_last() =~= s + seq![c] + t.drop_last());
        assert(text::pieces(all, c) =~= text::pieces(s, c) + text::pieces(t, c));
    }
}

/// Two lists are freed of empty texts one after the other.
proof fn lemma_nonempty_concat(a: Seq<Seq<char>>, b: Seq<Seq<char>>)
    ensures
        text::nonempty(a + b) == text::nonempty(a) + text::nonempty(b),
    decreases b.len(),
{
    if b.len() == 0 {
        assert(a + b =~= a);
        assert(text::nonempty(a) + text::nonempty(b) =~= text::nonempty(a));
    } else {
        lemma_nonempty_concat(a, b.drop_last());
        assert((a + b).drop_last() =~= a + b.drop_last());
        assert(text::nonempty(a + b) =~= text::nonempty(a) + text::nonempty(b));
    }
}

/// A separator cuts the words of a text.
proof fn lemma_words_around(a: Seq<char>, x: char, b: Seq<char>)
    requires
        !manifest::is_alphanumeric(x),
    ensures
        words(a + seq![x] + b) == words(a) + words(b),
{
    let s = a + seq![x] + b;
    assert(manifest::dashed(s) =~= manifest::dashed(a) + seq!['-'] + manifest::dashed(b));
    lemma_pieces_around(manifest::dashed(a), '-', manifest::dashed(b));
    lemma_nonempty_concat(
        text::pieces(manifest::dashed(a), '-'),
        text::pieces(manifest::dashed(b), '-'),
    );
}

/// Separators cut the words of a text.
proof fn lemma_words_between(a: Seq<char>, x: Seq<char>, b: Seq<char>)
    requires
        x.len() > 0,
        forall|i: int| 0 <= i < x.len() ==> !manifest::is_alphanumeric(#[trigger] x[i]),
    ensures
        words(a + x + b) == words(a) + words(b),
    decreases x.len(),
{
    lemma_words_around(a, x[0], x.skip(1) + b);
    assert(a + seq![x[0]] + (x.skip(1) + b) =~= a + x + b);
    if x.len() == 1 {
        assert(x.skip(1) + b =~= b);
    } else {
        let e = Seq::<char>::empty();
        assert forall|i: int| 0 <= i < x.skip(1).len() implies !manifest::is_alphanumeric(
            #[trigger] x.skip(1)[i],
        ) by {
            assert(x.skip(1)[i] == x[i + 1]);
        }
        lemma_words_between(e, x.skip(1), b);
        assert(e + x.skip(1) + b =~= x.skip(1) + b);
        assert(manifest::dashed(e) =~= e);
        assert(text::pieces(e, '-') =~= seq![e]);
        assert(seq![e].drop_last() =~= Seq::empty());
        assert(text::nonempty(seq![e].drop_last()).len() == 0);
        assert(words(e).len() == 0);
        assert(words(e) + words(b) =~= words(b));
    }
}

/// A run of letters and digits is kept, in lower case.
pub proof fn law_id_word(word: Seq<char>)
    requires
        forall|i: int| 0 <= i < word.len() ==> manifest::is_alphanumeric(#[trigger] word[i]),
    ensures
        manifest::id_of(word) == text::lower(word),
{
    reveal_strlit("-");
    let d = manifest::dashed(word);
    assert(d =~= text::lower(word));
    assert(!d.contains('-')) by {
        if d.contains('-') {
            let i = choose|i: int| 0 <= i < d.len() && d[i] == '-';
            assert(manifest::is_alphanumeric(word[i]));
        }
    }
    text_lemmas::lemma_one_piece(d, '-');
    let p = seq![d];
    assert(p.drop_last() =~= Seq::empty());
    assert(text::nonempty(p.drop_last()).len() == 0);
    if d.len() > 0 {
        assert(text::nonempty(p) =~= p);
    } else {
        assert(text::nonempty(p).len() == 0);
        assert(d =~= Seq::empty());
    }
}

/// Whatever stands between two texts in place of letters and digits becomes one
/// dash between their identifiers.
pub proof fn law_id_dashes(a: Seq<char>, x: Seq<char>, b: Seq<char>)
    requires
        x.len() > 0,
        forall|i: int| 0 <= i < x.len() ==> !manifest::is_alphanumeric(#[trigger] x[i]),
    ensures
        ({
            let id = manifest::id_of(a + x + b);
            let ia = manifest::id_of(a);
            let ib = manifest::id_of(b);
            &&& ia.len() > 0 && ib.len() > 0 ==> id == ia + seq!['-'] + ib
            &&& ia.len() == 0 ==> id == ib
            &&& ib.len() == 0 ==> id == ia
        }),
{
    reveal_strlit("-");
    assert("-"@ =~= seq!['-']);
    lemma_words_between(a, x, b);
    let wa = words(a);
    let wb = words(b);
    lemma_words_empty(a);
    lemma_words_empty(b);
    if wa.len() == 0 {
        assert(wa + wb =~= wb);
    } else if wb.len() == 0 {
        assert(wa + wb =~= wa);
    } else {
        text_laws::law_joined(wa, Seq::empty(), wb, seq!['-']);
    }
}

/// An identifier is empty exactly if there are no words.
proof fn lemma_words_empty(s: Seq<char>)
    ensures
        (manifest::id_of(s).len() == 0) == (words(s).len() == 0),
{
    reveal_strlit("-");
    assert("-"@ =~= seq!['-']);
    let w = words(s);
    text_lemmas::lemma_nonempty_members(text::pieces(manifest::dashed(s), '-'));
    if w.len() > 0 {
        assert(w[0].len() > 0);
        lemma_joined_len(w);
    }
}

proof fn lemma_joined_len(w: Seq<Seq<char>>)
    requires
        w.len() > 0,
        w[0].len() > 0,
    ensures
        text::joined(w, seq!['-']).len() > 0,
    decreases w.len(),
{
    if w.len() > 1 {
        lemma_joined_len(w.drop_last());
    }
}

/// Letters and digits are those of ASCII.
pub proof fn law_alphanumeric(c: char)
    ensures
        manifest::is_alphanumeric(c) <==> {
            ||| 'a' <= c <= 'z'
            ||| 'A' <= c <= 'Z'
            ||| '0' <= c <= '9'
        },
{
}

} // verus!
