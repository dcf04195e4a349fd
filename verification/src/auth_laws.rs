//! Laws of access.

use crate::attributes;
use crate::attributes::AuthView;
use crate::merge_laws;
use crate::text;
use vstd::prelude::*;

verus! {

/// A method whose last attribute allows anonymous access requires nothing,
/// whatever stands above it and whatever its controller requires.
pub proof fn law_anonymous_overrides(
    inherited: AuthView,
    attrs: Seq<Seq<char>>,
    attr: Seq<char>,
)
    requires
        text::occurs(text::trimmed(attr), "[AllowAnonymous"@),
    ensures
        ({
            let auth = attributes::effective_auth(
                inherited,
                attributes::attribute_auth(attrs.push(attr)),
            );
            auth.allows_anonymous && !auth.requires_auth && auth.schemes.len() == 0
        }),
{
    assert(attrs.push(attr).drop_last() =~= attrs);
}

/// A method that does not allow anonymous access itself requires what its
/// controller requires and what it requires itself; the schemes of the
/// controller come first.
pub proof fn law_access_inherited(inherited: AuthView, local: AuthView)
    requires
        !local.allows_anonymous,
    ensures
        ({
            let auth = attributes::effective_auth(inherited, local);
            &&& auth.requires_auth == (inherited.requires_auth || local.requires_auth)
            &&& auth.allows_anonymous == inherited.allows_anonymous
            &&& auth.schemes == text::union_of(inherited.schemes, local.schemes)
            &&& inherited.schemes.len() <= auth.schemes.len()
            &&& auth.schemes.take(inherited.schemes.len() as int) == inherited.schemes
            &&& forall|x: Seq<char>| #[trigger]
                auth.schemes.contains(x) <==> inherited.schemes.contains(x)
                    || local.schemes.contains(x)
        }),
{
    merge_laws::law_union_members(inherited.schemes, local.schemes);
    lemma_union_prefix(inherited.schemes, local.schemes);
}

/// A union begins with the first list.
proof fn lemma_union_prefix(list: Seq<Seq<char>>, more: Seq<Seq<char>>)
    ensures
        list.len() <= text::union_of(list, more).len(),
        text::union_of(list, more).take(list.len() as int) == list,
    decreases more.len(),
{
    let n = list.len() as int;
    if more.len() > 0 {
        let front = text::union_of(list, more.drop_last());
        lemma_union_prefix(list, more.drop_last());
        assert(front.push(more.last()).take(n) =~= front.take(n));
    } else {
        assert(list.take(n) =~= list);
    }
}

/// Attributes name each scheme once.
pub proof fn law_schemes_distinct(attrs: Seq<Seq<char>>)
    ensures
        attributes::attribute_auth(attrs).schemes.no_duplicates(),
    decreases attrs.len(),
{
    if attrs.len() > 0 {
        law_schemes_distinct(attrs.drop_last());
        let front = attributes::attribute_auth(attrs.drop_last());
        merge_laws::law_union_distinct(
            front.schemes,
            attributes::named_list(text::trimmed(attrs.last()), "AuthenticationSchemes"@),
        );
    }
}

/// What holds for a method names each scheme once, if its controller does.
pub proof fn law_effective_schemes_distinct(inherited: AuthView, attrs: Seq<Seq<char>>)
    requires
        inherited.schemes.no_duplicates(),
    ensures
        attributes::effective_auth(
            inherited,
            attributes::attribute_auth(attrs),
        ).schemes.no_duplicates(),
{
    law_schemes_distinct(attrs);
    merge_laws::law_union_distinct(
        inherited.schemes,
        attributes::attribute_auth(attrs).schemes,
    );
}

} // verus!
