//! Laws of attributes.

use crate::attributes;
use crate::attributes::AuthView;
use crate::text;
use crate::text_laws;
use vstd::prelude::*;

verus! {

/// A quotation mark.
pub open spec fn quote() -> Seq<char> {
    seq!['"']
}

/// A character that does not occur in a text is not found before its end.
pub proof fn lemma_char_free(s: Seq<char>, c: char, n: int)
    requires
        0 <= n <= s.len(),
        !s.take(n).contains(c),
    ensures
        text_laws::free_before(s, seq![c], n),
        n == s.len() ==> text_laws::free_of(s, seq![c]),
{
    assert forall|j: int|
        0 <= j < s.len() + 1 && j < n && j + 1 <= s.len() implies (#[trigger] s.skip(j)).take(1)
        != seq![c] by {
        if s.skip(j).take(1) == seq![c] {
            assert(s.skip(j).take(1)[0] == s[j]);
            assert(s.take(n)[j] == c);
        }
    }
}

/// The first string literal is what stands between the first two quotation
/// marks, whatever stands around them.
pub proof fn law_first_literal(a: Seq<char>, literal: Seq<char>, b: Seq<char>)
    requires
        !a.contains('"'),
        !literal.contains('"'),
    ensures
        attributes::first_literal(a + quote() + literal + quote() + b) == Some(literal),
        attributes::first_literal(a + quote() + literal) is None,
        attributes::first_literal(a) is None,
{
    reveal_strlit("\"");
    assert("\""@ =~= quote());
    let rest = literal + quote() + b;
    let s = a + quote() + literal + quote() + b;
    assert(s =~= a + quote() + rest);
    assert((a + quote() + rest).take(a.len() as int) =~= a);
    lemma_char_free(a + quote() + rest, '"', a.len() as int);
    text_laws::law_cut(a, quote(), rest);
    assert(rest.take(literal.len() as int) =~= literal);
    lemma_char_free(rest, '"', literal.len() as int);
    text_laws::law_cut(literal, quote(), b);
    let open = a + quote() + literal;
    assert(open.take(a.len() as int) =~= a);
    lemma_char_free(open, '"', a.len() as int);
    text_laws::law_cut(a, quote(), literal);
    assert(literal.take(literal.len() as int) =~= literal);
    lemma_char_free(literal, '"', literal.len() as int);
    text_laws::law_uncut(literal, quote());
    assert(a.take(a.len() as int) =~= a);
    lemma_char_free(a, '"', a.len() as int);
    text_laws::law_uncut(a, quote());
}

/// A named list is the first literal behind its name: its parts between commas,
/// trimmed, without the empty ones.
pub proof fn law_named_list(
    a: Seq<char>,
    key: Seq<char>,
    gap: Seq<char>,
    parts: Seq<Seq<char>>,
    b: Seq<char>,
)
    requires
        parts.len() > 0,
        forall|i: int|
            0 <= i < parts.len() ==> !(#[trigger] parts[i]).contains(',') && !parts[i].contains(
                '"',
            ),
        !text::joined(parts, seq![',']).contains('"'),
        !gap.contains('"'),
        text_laws::free_before(
            a + (key + " = "@) + (gap + quote() + text::joined(parts, seq![',']) + quote() + b),
            key + " = "@,
            a.len() as int,
        ),
    ensures
        attributes::named_list(
            a + (key + " = "@) + (gap + quote() + text::joined(parts, seq![',']) + quote() + b),
            key,
        ) == text::nonempty(text::all_trimmed(parts)),
{
    let list = text::joined(parts, seq![',']);
    text_laws::law_cut(a, key + " = "@, gap + quote() + list + quote() + b);
    law_first_literal(gap, list, b);
    text_laws::law_split_and_join(list, parts, ',');
}

/// Without its name there is no named list.
pub proof fn law_no_named_list(s: Seq<char>, key: Seq<char>)
    requires
        text_laws::free_of(s, key + " = "@),
    ensures
        attributes::named_list(s, key).len() == 0,
{
    text_laws::law_uncut(s, key + " = "@);
}

/// The first attribute with a marker counts, and gives its first literal.
pub proof fn law_marked_literal(attrs: Seq<Seq<char>>, marker: Seq<char>, i: int)
    requires
        0 <= i <= attrs.len(),
        forall|j: int| 0 <= j < i ==> !text::occurs(#[trigger] attrs[j], marker),
        i < attrs.len() ==> text::occurs(attrs[i], marker),
    ensures
        attributes::marked_literal(attrs, marker) == (if i < attrs.len() {
            attributes::first_literal(attrs[i])
        } else {
            None
        }),
    decreases attrs.len(),
{
    if attrs.len() > 0 && i > 0 {
        assert(!text::occurs(attrs[0], marker));
        let rest = attrs.skip(1);
        assert forall|j: int| 0 <= j < i - 1 implies !text::occurs(#[trigger] rest[j], marker) by {
            assert(rest[j] == attrs[j + 1]);
        }
        law_marked_literal(rest, marker, i - 1);
    }
}

/// The names of the HTTP attributes, in the order in which they are looked for,
/// behind `Http`.
pub open spec fn http_names() -> Seq<Seq<char>> {
    seq!["Get"@, "Post"@, "Put"@, "Delete"@, "Patch"@]
}

/// The first HTTP attribute that is named counts: its method in upper case, and
/// the first literal as its route.
pub proof fn law_http_attribute(attr: Seq<char>, k: int)
    requires
        0 <= k <= 5,
        forall|j: int|
            0 <= j < k ==> !text::occurs(
                text::trimmed(attr),
                "[Http"@ + #[trigger] http_names()[j],
            ),
        k < 5 ==> text::occurs(text::trimmed(attr), "[Http"@ + http_names()[k]),
    ensures
        k < 5 ==> attributes::http_attribute(attr) == Some(
            (text::upper(http_names()[k]), attributes::first_literal(text::trimmed(attr))),
        ),
        k == 5 ==> attributes::http_attribute(attr) is None,
{
    reveal_strlit("[Http");
    reveal_strlit("Get");
    reveal_strlit("Post");
    reveal_strlit("Put");
    reveal_strlit("Delete");
    reveal_strlit("Patch");
    reveal_strlit("GET");
    reveal_strlit("POST");
    reveal_strlit("PUT");
    reveal_strlit("DELETE");
    reveal_strlit("PATCH");
    reveal_strlit("[HttpGet");
    reveal_strlit("[HttpPost");
    reveal_strlit("[HttpPut");
    reveal_strlit("[HttpDelete");
    reveal_strlit("[HttpPatch");
    assert("[Http"@ + "Get"@ =~= "[HttpGet"@);
    assert("[Http"@ + "Post"@ =~= "[HttpPost"@);
    assert("[Http"@ + "Put"@ =~= "[HttpPut"@);
    assert("[Http"@ + "Delete"@ =~= "[HttpDelete"@);
    assert("[Http"@ + "Patch"@ =~= "[HttpPatch"@);
    assert(text::upper("Get"@) =~= "GET"@);
    assert(text::upper("Post"@) =~= "POST"@);
    assert(text::upper("Put"@) =~= "PUT"@);
    assert(text::upper("Delete"@) =~= "DELETE"@);
    assert(text::upper("Patch"@) =~= "PATCH"@);
    let names = http_names();
    assert(names[0] == "Get"@ && names[1] == "Post"@ && names[2] == "Put"@ && names[3]
        == "Delete"@ && names[4] == "Patch"@);
}

/// Every HTTP attribute gives its method, in order, and no other attribute gives
/// one.
pub proof fn law_http_methods(a: Seq<Seq<char>>, attr: Seq<char>, b: Seq<Seq<char>>)
    ensures
        attributes::http_methods(Seq::<Seq<char>>::empty()).len() == 0,
        attributes::http_methods(a + seq![attr] + b) == attributes::http_methods(a) + (
        match attributes::http_attribute(attr) {
            Some(m) => seq![m],
            None => Seq::empty(),
        }) + attributes::http_methods(b),
    decreases b.len(),
{
    let all = a + seq![attr] + b;
    let own = match attributes::http_attribute(attr) {
        Some(m) => seq![m],
        None => Seq::empty(),
    };
    if b.len() == 0 {
        assert(all.drop_last() =~= a);
        assert(attributes::http_methods(all) =~= attributes::http_methods(a) + own
            + attributes::http_methods(b));
    } else {
        law_http_methods(a, attr, b.drop_last());
        assert(all.drop_last() =~= a + seq![attr] + b.drop_last());
        assert(attributes::http_methods(all) =~= attributes::http_methods(a) + own
            + attributes::http_methods(b));
    }
}

/// What one more attribute says of access: one that allows anonymous access
/// lifts all that stands above it, one that asks for authorization adds its
/// schemes, and any other says nothing.
pub proof fn law_access_step(attrs: Seq<Seq<char>>, attr: Seq<char>)
    ensures
        ({
            let t = text::trimmed(attr);
            let old_auth = attributes::attribute_auth(attrs);
            let new_auth = attributes::attribute_auth(attrs.push(attr));
            let anonymous = text::occurs(t, "[AllowAnonymous"@);
            let authorize = text::occurs(t, "[Authorize"@);
            &&& anonymous ==> new_auth.allows_anonymous && !new_auth.requires_auth
                && new_auth.schemes.len() == 0
            &&& !anonymous && authorize ==> {
                &&& new_auth.requires_auth
                &&& new_auth.allows_anonymous == old_auth.allows_anonymous
                &&& new_auth.schemes == text::union_of(
                    old_auth.schemes,
                    attributes::named_list(t, "AuthenticationSchemes"@),
                )
            }
            &&& !anonymous && !authorize ==> new_auth == old_auth
        }),
        ({
            let none = attributes::attribute_auth(Seq::empty());
            !none.requires_auth && !none.allows_anonymous && none.schemes.len() == 0
        }),
{
    assert(attrs.push(attr).drop_last() =~= attrs);
}

/// What a method allows itself holds whatever its controller says.
pub proof fn law_own_anonymous_access(inherited: AuthView, local: AuthView)
    requires
        local.allows_anonymous,
    ensures
        attributes::effective_auth(inherited, local) == local,
{
}

} // verus!
