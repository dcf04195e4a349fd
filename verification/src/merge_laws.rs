//! Laws of merging.

use crate::merge;
use crate::merge::Merged;
use crate::model::EndpointView;
use crate::project;
use crate::routes;
use crate::text;
use vstd::prelude::*;

verus! {

/// Of two finds of one endpoint, the record of an OpenAPI document is kept if
/// there is one: its id, method, route and style, whichever came first.
pub proof fn law_oas_preferred(a: EndpointView, b: EndpointView)
    ensures
        (merge::resolved(a, b).style == "oas"@) == (a.style == "oas"@ || b.style == "oas"@),
        a.style == "oas"@ && b.style != "oas"@ ==> {
            &&& merge::resolved(a, b) == merge::enriched(a, b)
            &&& merge::resolved(b, a) == merge::enriched(a, b)
        },
        a.style == "oas"@ && b.style != "oas"@ ==> {
            let kept = merge::resolved(b, a);
            kept.id == a.id && kept.method == a.method && kept.route == a.route
        },
{
}

/// A merged record knows what either find knew of access, and a symbol if either
/// had one.
pub proof fn law_merge_keeps_knowledge(a: EndpointView, b: EndpointView)
    ensures
        merge::resolved(a, b).requires_auth == (a.requires_auth || b.requires_auth),
        merge::resolved(a, b).allows_anonymous == (a.allows_anonymous || b.allows_anonymous),
        (merge::resolved(a, b).symbol is Some) == (a.symbol is Some || b.symbol is Some),
        forall|x: Seq<char>| #[trigger]
            merge::resolved(a, b).auth_schemes.contains(x) <==> a.auth_schemes.contains(x)
                || b.auth_schemes.contains(x),
{
    law_union_members(a.auth_schemes, b.auth_schemes);
    law_union_members(b.auth_schemes, a.auth_schemes);
}

/// The union of two lists has the members of both.
pub proof fn law_union_members(list: Seq<Seq<char>>, more: Seq<Seq<char>>)
    ensures
        forall|x: Seq<char>| #[trigger]
            text::union_of(list, more).contains(x) <==> list.contains(x) || more.contains(x),
    decreases more.len(),
{
    if more.len() > 0 {
        let front = text::union_of(list, more.drop_last());
        law_union_members(list, more.drop_last());
        assert forall|x: Seq<char>| #[trigger]
            text::union_of(list, more).contains(x) <==> list.contains(x) || more.contains(x) by {
            assert(front.contains(x) <==> list.contains(x) || more.drop_last().contains(x));
            if more.contains(x) {
                let i = choose|i: int| 0 <= i < more.len() && more[i] == x;
                if i < more.len() - 1 {
                    assert(more.drop_last()[i] == x);
                }
            }
            if more.drop_last().contains(x) {
                let i = choose|i: int| 0 <= i < more.len() - 1 && more.drop_last()[i] == x;
                assert(more[i] == x);
            }
            assert(more.contains(more.last()));
            if front.contains(more.last()) {
            } else {
                let all = front.push(more.last());
                assert(all[front.len() as int] == more.last());
                if front.contains(x) {
                    let i = choose|i: int| 0 <= i < front.len() && front[i] == x;
                    assert(all[i] == x);
                }
                if all.contains(x) {
                    let i = choose|i: int| 0 <= i < all.len() && all[i] == x;
                    if i < front.len() {
                        assert(front[i] == x);
                    }
                }
            }
        }
    }
}

/// A union adds no duplicates: where a list has none, its union with any other
/// has none.
pub proof fn law_union_distinct(list: Seq<Seq<char>>, more: Seq<Seq<char>>)
    requires
        list.no_duplicates(),
    ensures
        text::union_of(list, more).no_duplicates(),
    decreases more.len(),
{
    if more.len() > 0 {
        law_union_distinct(list, more.drop_last());
    }
}

/// A union with what is already there changes nothing.
pub proof fn lemma_union_absorbs(list: Seq<Seq<char>>, more: Seq<Seq<char>>)
    requires
        forall|x: Seq<char>| #[trigger] more.contains(x) ==> list.contains(x),
    ensures
        text::union_of(list, more) == list,
    decreases more.len(),
{
    if more.len() > 0 {
        assert forall|x: Seq<char>| #[trigger]
            more.drop_last().contains(x) implies list.contains(x) by {
            let i = choose|i: int| 0 <= i < more.len() - 1 && more.drop_last()[i] == x;
            assert(more[i] == x);
            assert(more.contains(x));
        }
        lemma_union_absorbs(list, more.drop_last());
        assert(more.contains(more.last()));
    }
}

/// Enriching a record twice with the same other record is enriching it once.
pub proof fn law_enrich_idempotent(target: EndpointView, other: EndpointView)
    ensures
        merge::enriched(merge::enriched(target, other), other) == merge::enriched(target, other),
{
    law_union_members(target.auth_schemes, other.auth_schemes);
    let union = text::union_of(target.auth_schemes, other.auth_schemes);
    assert forall|x: Seq<char>| #[trigger]
        other.auth_schemes.contains(x) implies union.contains(x) by {
        assert(union.contains(x) <==> target.auth_schemes.contains(x)
            || other.auth_schemes.contains(x));
    }
    lemma_union_absorbs(union, other.auth_schemes);
}

/// Merging keeps every key, and adds that of the merged endpoint alone.
pub proof fn law_merge_keys(m: Merged, e: EndpointView)
    ensures
        merge::merged(m, e).dom() == m.dom().insert(merge::key_of(e)),
{
    assert(merge::merged(m, e).dom() =~= m.dom().insert(merge::key_of(e)));
}

/// What is kept of two finds of one endpoint has their merge key.
pub proof fn lemma_resolved_key(a: EndpointView, b: EndpointView)
    requires
        merge::key_of(a) == merge::key_of(b),
    ensures
        merge::key_of(merge::resolved(a, b)) == merge::key_of(a),
{
}

/// Merging keeps each endpoint under its own merge key, and the map finite.
pub proof fn law_merge_keyed(m: Merged, es: Seq<EndpointView>)
    requires
        merge::keyed(m),
        m.dom().finite(),
    ensures
        merge::keyed(merge::merged_all(m, es)),
        merge::merged_all(m, es).dom().finite(),
    decreases es.len(),
{
    if es.len() > 0 {
        let front = merge::merged_all(m, es.drop_last());
        law_merge_keyed(m, es.drop_last());
        let e = es.last();
        let k = merge::key_of(e);
        law_merge_keys(front, e);
        if front.contains_key(k) {
            assert(merge::key_of(front[k]) == k);
            lemma_resolved_key(front[k], e);
        }
    }
}

/// A list with an endpoint put into its place.
proof fn insert_ascending(s: Seq<EndpointView>, e: EndpointView) -> (r: Seq<EndpointView>)
    requires
        merge::ascending(s),
        forall|i: int|
            0 <= i < s.len() ==> merge::endpoint_before(#[trigger] s[i], e)
                || merge::endpoint_before(e, s[i]),
    ensures
        merge::ascending(r),
        forall|x: EndpointView| #[trigger] r.contains(x) <==> s.contains(x) || x == e,
    decreases s.len(),
{
    if s.len() == 0 || merge::endpoint_before(s.last(), e) {
        let r = s.push(e);
        assert forall|i: int, j: int| 0 <= i < j < r.len() implies merge::endpoint_before(
            r[i],
            r[j],
        ) by {
            if j == s.len() && i < s.len() - 1 {
                assert(merge::endpoint_before(s[i], s[s.len() - 1]));
                merge::lemma_before_transitive(s[i], s.last(), e);
            }
        }
        lemma_push_members(s, e);
        r
    } else {
        let last = s.last();
        let front = s.drop_last();
        assert(merge::endpoint_before(s[s.len() - 1], e) || merge::endpoint_before(
            e,
            s[s.len() - 1],
        ));
        let inner = insert_ascending(front, e);
        let r = inner.push(last);
        assert forall|i: int, j: int| 0 <= i < j < r.len() implies merge::endpoint_before(
            r[i],
            r[j],
        ) by {
            if j == inner.len() {
                assert(inner.contains(inner[i]));
                if inner[i] != e {
                    let k = choose|k: int| 0 <= k < front.len() && front[k] == inner[i];
                    assert(merge::endpoint_before(s[k], s[s.len() - 1]));
                }
            } else {
                assert(merge::endpoint_before(inner[i], inner[j]));
            }
        }
        lemma_push_members(inner, last);
        lemma_push_members(front, last);
        assert(s == front.push(last));
        assert forall|x: EndpointView| #[trigger] r.contains(x) <==> s.contains(x) || x == e by {
            assert(inner.contains(x) <==> front.contains(x) || x == e);
            assert(front.push(last).contains(x) <==> front.contains(x) || x == last);
        }
        r
    }
}

/// The members of a list with one more at its end.
proof fn lemma_push_members(s: Seq<EndpointView>, e: EndpointView)
    ensures
        forall|x: EndpointView| #[trigger] s.push(e).contains(x) <==> s.contains(x) || x == e,
{
    assert forall|x: EndpointView| #[trigger] s.push(e).contains(x) <==> s.contains(x) || x
        == e by {
        assert(s.push(e)[s.len() as int] == e);
        if s.contains(x) {
            let i = choose|i: int| 0 <= i < s.len() && s[i] == x;
            assert(s.push(e)[i] == x);
        }
    }
}

/// The endpoints of a keyed map can be listed in ascending order.
proof fn list_ascending(m: Merged) -> (r: Seq<EndpointView>)
    requires
        merge::keyed(m),
        m.dom().finite(),
    ensures
        merge::is_listing(r, m),
    decreases m.dom().len(),
{
    if m.dom().len() == 0 {
        let r = Seq::<EndpointView>::empty();
        assert(m.dom() =~= Set::empty());
        assert forall|e: EndpointView| #[trigger] r.contains(e) <==> merge::in_merged(m, e) by {}
        r
    } else {
        let k = m.dom().choose();
        assert(m.contains_key(k));
        let rest = m.remove(k);
        assert(rest.dom() =~= m.dom().remove(k));
        assert forall|x: (Seq<char>, Seq<char>)| #[trigger]
            rest.contains_key(x) implies merge::key_of(rest[x]) == x by {
            assert(m.contains_key(x));
        }
        let s = list_ascending(rest);
        assert forall|i: int| 0 <= i < s.len() implies merge::endpoint_before(
            #[trigger] s[i],
            m[k],
        ) || merge::endpoint_before(m[k], s[i]) by {
            assert(s.contains(s[i]));
            assert(merge::in_merged(rest, s[i]));
            let x = choose|x: (Seq<char>, Seq<char>)| #[trigger]
                rest.contains_key(x) && rest[x] == s[i];
            assert(merge::key_of(s[i]) == x);
            merge::lemma_order_total(s[i], m[k]);
        }
        let r = insert_ascending(s, m[k]);
        assert forall|e: EndpointView| #[trigger] r.contains(e) <==> merge::in_merged(m, e) by {
            assert(r.contains(e) <==> s.contains(e) || e == m[k]);
            assert(s.contains(e) <==> merge::in_merged(rest, e));
            if merge::in_merged(rest, e) {
                let x = choose|x: (Seq<char>, Seq<char>)| #[trigger]
                    rest.contains_key(x) && rest[x] == e;
                assert(m.contains_key(x) && m[x] == e);
            }
            if merge::in_merged(m, e) {
                let x = choose|x: (Seq<char>, Seq<char>)| #[trigger]
                    m.contains_key(x) && m[x] == e;
                if x != k {
                    assert(rest.contains_key(x) && rest[x] == e);
                }
            }
        }
        r
    }
}

/// However endpoints are merged, there is one listing of the result: in
/// ascending order, and with each merged endpoint once.
pub proof fn law_listing(es: Seq<EndpointView>)
    ensures
        ({
            let m = merge::merged_all(project::nothing_merged(), es);
            &&& merge::is_listing(merge::listing(m), m)
            &&& forall|s: Seq<EndpointView>| #[trigger]
                merge::is_listing(s, m) ==> s == merge::listing(m)
        }),
{
    let m = merge::merged_all(project::nothing_merged(), es);
    law_merge_keyed(project::nothing_merged(), es);
    let s = list_ascending(m);
    assert forall|t: Seq<EndpointView>| #[trigger] merge::is_listing(t, m) implies t
        == merge::listing(m) by {
        merge::lemma_listing_is(t, m);
    }
}

/// No two endpoints of a listing are the same endpoint: they differ in their
/// merge keys.
pub proof fn law_listing_distinct(es: Seq<EndpointView>, i: int, j: int)
    requires
        0 <= i < j < merge::listing(merge::merged_all(project::nothing_merged(), es)).len(),
    ensures
        ({
            let s = merge::listing(merge::merged_all(project::nothing_merged(), es));
            merge::key_of(s[i]) != merge::key_of(s[j])
        }),
{
    let m = merge::merged_all(project::nothing_merged(), es);
    let s = merge::listing(m);
    law_listing(es);
    law_merge_keyed(project::nothing_merged(), es);
    assert(s.contains(s[i]) && s.contains(s[j]));
    let a = choose|k: (Seq<char>, Seq<char>)| #[trigger] m.contains_key(k) && m[k] == s[i];
    let b = choose|k: (Seq<char>, Seq<char>)| #[trigger] m.contains_key(k) && m[k] == s[j];
    assert(merge::endpoint_before(s[i], s[j]));
    merge::lemma_not_before_itself(s[i]);
}

/// What was found of an endpoint is kept under its merge key.
proof fn lemma_find_kept(es: Seq<EndpointView>, i: int)
    requires
        0 <= i < es.len(),
    ensures
        ({
            let m = merge::merged_all(project::nothing_merged(), es);
            let k = merge::key_of(es[i]);
            m.contains_key(k) && keeps(m[k], es[i])
        }),
    decreases es.len(),
{
    let front = merge::merged_all(project::nothing_merged(), es.drop_last());
    let e = es.last();
    let k = merge::key_of(e);
    if i < es.len() - 1 {
        lemma_find_kept(es.drop_last(), i);
        assert(es.drop_last()[i] == es[i]);
    }
    if front.contains_key(k) {
        law_merge_keeps_knowledge(front[k], e);
        law_oas_preferred(front[k], e);
        let kept = merge::resolved(front[k], e);
        assert forall|x: Seq<char>| #[trigger]
            es[i].auth_schemes.contains(x) && merge::key_of(es[i])
                == k implies kept.auth_schemes.contains(x) by {
            assert(kept.auth_schemes.contains(x) <==> front[k].auth_schemes.contains(x)
                || e.auth_schemes.contains(x));
        }
    }
}

/// `kept` knows what `found` says of access, and is from an OpenAPI document if
/// `found` is.
pub open spec fn keeps(kept: EndpointView, found: EndpointView) -> bool {
    &&& found.requires_auth ==> kept.requires_auth
    &&& found.allows_anonymous ==> kept.allows_anonymous
    &&& found.symbol is Some ==> kept.symbol is Some
    &&& found.style == "oas"@ ==> kept.style == "oas"@
    &&& forall|x: Seq<char>| #[trigger]
        found.auth_schemes.contains(x) ==> kept.auth_schemes.contains(x)
}

/// No find is lost: the listing of what is merged has its endpoint, with what
/// the find says of access.
pub proof fn law_no_find_lost(es: Seq<EndpointView>, i: int)
    requires
        0 <= i < es.len(),
    ensures
        ({
            let s = merge::listing(merge::merged_all(project::nothing_merged(), es));
            exists|j: int|
                0 <= j < s.len() && merge::key_of(#[trigger] s[j]) == merge::key_of(es[i])
                    && keeps(s[j], es[i])
        }),
{
    let m = merge::merged_all(project::nothing_merged(), es);
    let s = merge::listing(m);
    let k = merge::key_of(es[i]);
    law_listing(es);
    law_merge_keyed(project::nothing_merged(), es);
    lemma_find_kept(es, i);
    assert(merge::in_merged(m, m[k]));
    assert(s.contains(m[k]));
    let j = choose|j: int| 0 <= j < s.len() && s[j] == m[k];
    assert(merge::key_of(s[j]) == k);
}

/// Every key comes from a find.
proof fn lemma_key_found(es: Seq<EndpointView>, k: (Seq<char>, Seq<char>))
    requires
        merge::merged_all(project::nothing_merged(), es).contains_key(k),
    ensures
        exists|i: int| 0 <= i < es.len() && merge::key_of(#[trigger] es[i]) == k,
    decreases es.len(),
{
    if es.len() > 0 {
        if k == merge::key_of(es.last()) {
            assert(merge::key_of(es[es.len() - 1]) == k);
        } else {
            lemma_key_found(es.drop_last(), k);
            let i = choose|i: int|
                0 <= i < es.len() - 1 && merge::key_of(#[trigger] es.drop_last()[i]) == k;
            assert(merge::key_of(es[i]) == k);
        }
    }
}

/// No endpoint is made up: each one listed has the merge key of a find.
pub proof fn law_no_endpoint_made_up(es: Seq<EndpointView>, j: int)
    requires
        0 <= j < merge::listing(merge::merged_all(project::nothing_merged(), es)).len(),
    ensures
        ({
            let s = merge::listing(merge::merged_all(project::nothing_merged(), es));
            exists|i: int|
                0 <= i < es.len() && merge::key_of(#[trigger] es[i]) == merge::key_of(s[j])
        }),
{
    let m = merge::merged_all(project::nothing_merged(), es);
    let s = merge::listing(m);
    law_listing(es);
    law_merge_keyed(project::nothing_merged(), es);
    assert(s.contains(s[j]));
    let k = choose|k: (Seq<char>, Seq<char>)| #[trigger] m.contains_key(k) && m[k] == s[j];
    lemma_key_found(es, k);
}

/// Enriching a record fills in its symbol, source path and line where it has
/// none, adds to what it says of access, and changes nothing else.
pub proof fn law_enrich_fields(target: EndpointView, other: EndpointView)
    ensures
        ({
            let r = merge::enriched(target, other);
            &&& r.id == target.id
            &&& r.project_id == target.project_id
            &&& r.method == target.method
            &&& r.route == target.route
            &&& r.style == target.style
            &&& target.symbol is Some ==> r.symbol == target.symbol
            &&& target.symbol is None ==> r.symbol == other.symbol
            &&& target.source_path.len() > 0 ==> r.source_path == target.source_path
            &&& target.source_path.len() == 0 ==> r.source_path == other.source_path
            &&& target.line != 0 ==> r.line == target.line
            &&& target.line == 0 ==> r.line == other.line
            &&& r.requires_auth == (target.requires_auth || other.requires_auth)
            &&& r.allows_anonymous == (target.allows_anonymous || other.allows_anonymous)
            &&& r.auth_schemes == text::union_of(target.auth_schemes, other.auth_schemes)
        }),
{
}

/// Of two finds the earlier is kept and enriched by the later, unless only the
/// later is from an OpenAPI document.
pub proof fn law_earlier_kept(a: EndpointView, b: EndpointView)
    ensures
        a.style == "oas"@ || b.style != "oas"@ ==> merge::resolved(a, b) == merge::enriched(a, b),
        a.style != "oas"@ && b.style == "oas"@ ==> merge::resolved(a, b) == merge::enriched(b, a),
{
}

/// Merging touches the endpoint with the same merge key alone: a new one is taken
/// as it is, and one that is there is resolved with it.
pub proof fn law_merge_touches_one(m: Merged, e: EndpointView, k: (Seq<char>, Seq<char>))
    ensures
        ({
            let own = routes::merge_key(e.method, e.route);
            let after = merge::merged(m, e);
            &&& k != own ==> after.contains_key(k) == m.contains_key(k) && (m.contains_key(k)
                ==> after[k] == m[k])
            &&& after.contains_key(own)
            &&& m.contains_key(own) ==> after[own] == merge::resolved(m[own], e)
            &&& !m.contains_key(own) ==> after[own] == e
        }),
{
}

/// Endpoints are merged one after the other.
pub proof fn law_merge_in_order(m: Merged, es: Seq<EndpointView>, e: EndpointView)
    ensures
        merge::merged_all(m, Seq::empty()) == m,
        merge::merged_all(m, es.push(e)) == merge::merged(merge::merged_all(m, es), e),
{
    assert(es.push(e).drop_last() =~= es);
}

/// Endpoints go by their source path, then by their line, then by their method,
/// then by their route.
pub proof fn law_endpoint_order(a: EndpointView, b: EndpointView)
    ensures
        a.source_path != b.source_path ==> merge::endpoint_before(a, b)
            == text::text_before_in_order(a.source_path, b.source_path),
        a.source_path == b.source_path && a.line != b.line ==> merge::endpoint_before(a, b) == (
        a.line < b.line),
        a.source_path == b.source_path && a.line == b.line && a.method != b.method
            ==> merge::endpoint_before(a, b) == text::text_before_in_order(a.method, b.method),
        a.source_path == b.source_path && a.line == b.line && a.method == b.method
            ==> merge::endpoint_before(a, b) == text::text_before_in_order(a.route, b.route),
{
}

} // verus!
