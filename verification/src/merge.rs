//! Merging: of several finds of one endpoint, one record is kept.

use crate::model;
use crate::model::{EndpointRecord, EndpointView};
use crate::routes;
use crate::strings;
use crate::text;
use vstd::prelude::*;

verus! {

/// `target` with what `other` knows and it does not.
pub open spec fn enriched(target: EndpointView, other: EndpointView) -> EndpointView {
    EndpointView {
        symbol: if target.symbol is None {
            other.symbol
        } else {
            target.symbol
        },
        auth_schemes: text::union_of(target.auth_schemes, other.auth_schemes),
        requires_auth: target.requires_auth || other.requires_auth,
        allows_anonymous: target.allows_anonymous || other.allows_anonymous,
        source_path: if target.source_path.len() == 0 {
            other.source_path
        } else {
            target.source_path
        },
        line: if target.line == 0 {
            other.line
        } else {
            target.line
        },
        ..target
    }
}

/// What is kept of `existing` and the later find `e` of the same endpoint: the
/// earlier one, unless only the later one is from an OpenAPI document.
pub open spec fn resolved(existing: EndpointView, e: EndpointView) -> EndpointView {
    if existing.style != "oas"@ && e.style == "oas"@ {
        enriched(e, existing)
    } else {
        enriched(existing, e)
    }
}

/// Endpoints by their merge key.
pub type Merged = Map<(Seq<char>, Seq<char>), EndpointView>;

/// The merge key of `e`.
pub open spec fn key_of(e: EndpointView) -> (Seq<char>, Seq<char>) {
    routes::merge_key(e.method, e.route)
}

/// `m` with `e` merged into it.
pub open spec fn merged(m: Merged, e: EndpointView) -> Merged {
    let k = key_of(e);
    if m.contains_key(k) {
        m.insert(k, resolved(m[k], e))
    } else {
        m.insert(k, e)
    }
}

/// `m` with `es` merged into it, in order.
pub open spec fn merged_all(m: Merged, es: Seq<EndpointView>) -> Merged
    decreases es.len(),
{
    if es.len() == 0 {
        m
    } else {
        merged(merged_all(m, es.drop_last()), es.last())
    }
}

/// Each endpoint of `m` stands under its own merge key.
pub open spec fn keyed(m: Merged) -> bool {
    forall|k: (Seq<char>, Seq<char>)| #[trigger] m.contains_key(k) ==> key_of(m[k]) == k
}

/// `a` comes before `b`: by the source path, then the line, then the method,
/// then the route.
pub open spec fn endpoint_before(a: EndpointView, b: EndpointView) -> bool {
    if a.source_path != b.source_path {
        text::text_before_in_order(a.source_path, b.source_path)
    } else if a.line != b.line {
        a.line < b.line
    } else if a.method != b.method {
        text::text_before_in_order(a.method, b.method)
    } else {
        text::text_before_in_order(a.route, b.route)
    }
}

/// `s` is in strictly ascending order.
pub open spec fn ascending(s: Seq<EndpointView>) -> bool {
    forall|i: int, j: int| 0 <= i < j < s.len() ==> endpoint_before(s[i], s[j])
}

/// `s` lists the endpoints of `m` in ascending order.
pub open spec fn is_listing(s: Seq<EndpointView>, m: Merged) -> bool {
    &&& ascending(s)
    &&& forall|e: EndpointView| #[trigger] s.contains(e) <==> in_merged(m, e)
}

/// `e` is one of the endpoints of `m`.
pub open spec fn in_merged(m: Merged, e: EndpointView) -> bool {
    exists|k: (Seq<char>, Seq<char>)| #[trigger] m.contains_key(k) && m[k] == e
}

/// The endpoints of `m` in ascending order.
pub open spec fn listing(m: Merged) -> Seq<EndpointView> {
    choose|s: Seq<EndpointView>| is_listing(s, m)
}

/// No endpoint comes before itself.
pub proof fn lemma_not_before_itself(a: EndpointView)
    ensures
        !endpoint_before(a, a),
{
    text::lemma_order_irreflexive(a.route);
}

/// The order is transitive.
pub proof fn lemma_before_transitive(a: EndpointView, b: EndpointView, c: EndpointView)
    requires
        endpoint_before(a, b),
        endpoint_before(b, c),
    ensures
        endpoint_before(a, c),
{
    if text::text_before_in_order(a.source_path, b.source_path) && text::text_before_in_order(
        b.source_path,
        c.source_path,
    ) {
        text::lemma_order_transitive(a.source_path, b.source_path, c.source_path);
    }
    text::lemma_order_irreflexive(a.source_path);
    if text::text_before_in_order(a.method, b.method) && text::text_before_in_order(
        b.method,
        c.method,
    ) {
        text::lemma_order_transitive(a.method, b.method, c.method);
    }
    text::lemma_order_irreflexive(a.method);
    if text::text_before_in_order(a.route, b.route) && text::text_before_in_order(
        b.route,
        c.route,
    ) {
        text::lemma_order_transitive(a.route, b.route, c.route);
    }
}

/// Of two endpoints with different merge keys one comes before the other.
pub proof fn lemma_order_total(a: EndpointView, b: EndpointView)
    requires
        key_of(a) != key_of(b),
    ensures
        endpoint_before(a, b) || endpoint_before(b, a),
{
    text::lemma_order_total(a.source_path, b.source_path);
    text::lemma_order_total(a.method, b.method);
    text::lemma_order_total(a.route, b.route);
}

/// Two ascending lists of the same endpoints are the same list.
pub proof fn lemma_ascending_unique(s: Seq<EndpointView>, t: Seq<EndpointView>)
    requires
        ascending(s),
        ascending(t),
        forall|e: EndpointView| #[trigger] s.contains(e) <==> t.contains(e),
    ensures
        s == t,
    decreases s.len(),
{
    if s.len() == 0 {
        if t.len() > 0 {
            assert(t.contains(t[0]));
            assert(s.contains(t[0]) <==> t.contains(t[0]));
        }
        assert(s == t);
    } else {
        assert(s.contains(s.last()));
        assert(t.contains(s.last()));
        let x = s.last();
        let y = t.last();
        let i = choose|i: int| 0 <= i < t.len() && t[i] == x;
        assert(t.contains(y));
        assert(s.contains(y));
        let j = choose|j: int| 0 <= j < s.len() && s[j] == y;
        if x != y {
            assert(endpoint_before(t[i], t[t.len() - 1]));
            assert(endpoint_before(s[j], s[s.len() - 1]));
            lemma_before_transitive(x, y, x);
            lemma_not_before_itself(x);
        }
        let s1 = s.drop_last();
        let t1 = t.drop_last();
        assert forall|e: EndpointView| #[trigger] s1.contains(e) implies t1.contains(e) by {
            let k = choose|k: int| 0 <= k < s1.len() && s1[k] == e;
            assert(s[k] == e);
            assert(s.contains(e));
            assert(endpoint_before(s[k], s[s.len() - 1]));
            lemma_not_before_itself(x);
            let l = choose|l: int| 0 <= l < t.len() && t[l] == e;
            assert(t1[l] == e);
        }
        assert forall|e: EndpointView| t1.contains(e) implies #[trigger] s1.contains(e) by {
            let k = choose|k: int| 0 <= k < t1.len() && t1[k] == e;
            assert(t[k] == e);
            assert(t.contains(e));
            assert(s.contains(e) <==> t.contains(e));
            assert(endpoint_before(t[k], t[t.len() - 1]));
            lemma_not_before_itself(x);
            let l = choose|l: int| 0 <= l < s.len() && s[l] == e;
            assert(s1[l] == e);
        }
        lemma_ascending_unique(s1, t1);
        assert(s == s1.push(x));
        assert(t == t1.push(y));
    }
}

/// There is only one listing.
pub proof fn lemma_listing_is(s: Seq<EndpointView>, m: Merged)
    requires
        is_listing(s, m),
    ensures
        listing(m) == s,
{
    let t = listing(m);
    assert(is_listing(t, m));
    assert forall|e: EndpointView| #[trigger] s.contains(e) <==> t.contains(e) by {
        assert(s.contains(e) <==> in_merged(m, e));
        assert(t.contains(e) <==> in_merged(m, e));
    }
    lemma_ascending_unique(s, t);
}

/// Gives `target` what `other` knows and it does not.
pub fn enrich_endpoint(target: &mut EndpointRecord, other: &EndpointRecord)
    ensures
        final(target)@ == enriched(old(target)@, other@),
{
    if target.symbol.is_none() {
        target.symbol = strings::copy_opt(&other.symbol);
    }
    strings::extend_missing(&mut target.auth_schemes, &other.auth_schemes);
    target.requires_auth = target.requires_auth || other.requires_auth;
    target.allows_anonymous = target.allows_anonymous || other.allows_anonymous;
    if target.source_path.as_str().is_empty() {
        target.source_path = other.source_path.clone();
    }
    if target.line == 0 {
        target.line = other.line;
    }
}

/// Whether `a` comes before `b` in the order of texts.
fn is_text_before(a: &str, b: &str) -> (r: bool)
    ensures
        r == text::text_before_in_order(a@, b@),
{
    let x = strings::chars_of(a);
    let y = strings::chars_of(b);
    let mut i: usize = 0;
    assert(a@.skip(0) == a@);
    assert(b@.skip(0) == b@);
    while i < x.len() && i < y.len()
        invariant
            x@ == a@,
            y@ == b@,
            i <= x@.len(),
            i <= y@.len(),
            text::text_before_in_order(a@.skip(i as int), b@.skip(i as int))
                == text::text_before_in_order(a@, b@),
        decreases x@.len() - i,
    {
        if x[i] != y[i] {
            return x[i] < y[i];
        }
        assert(a@.skip(i as int).skip(1) == a@.skip(i + 1));
        assert(b@.skip(i as int).skip(1) == b@.skip(i + 1));
        i = i + 1;
    }
    i < y.len()
}

/// Whether `a` comes before `b`.
fn is_endpoint_before(a: &EndpointRecord, b: &EndpointRecord) -> (r: bool)
    ensures
        r == endpoint_before(a@, b@),
{
    if !strings::same_text(a.source_path.as_str(), b.source_path.as_str()) {
        is_text_before(a.source_path.as_str(), b.source_path.as_str())
    } else if a.line != b.line {
        a.line < b.line
    } else if !strings::same_text(a.method.as_str(), b.method.as_str()) {
        is_text_before(a.method.as_str(), b.method.as_str())
    } else {
        is_text_before(a.route.as_str(), b.route.as_str())
    }
}

/// Endpoints by their merge key, at most one under each.
pub struct EndpointMap {
    entries: Vec<((String, String), EndpointRecord)>,
}

/// The key of an entry.
pub open spec fn entry_key(e: ((String, String), EndpointRecord)) -> (Seq<char>, Seq<char>) {
    (e.0.0@, e.0.1@)
}

/// Some entry has the key `k`.
pub open spec fn has_entry(
    entries: Seq<((String, String), EndpointRecord)>,
    k: (Seq<char>, Seq<char>),
) -> bool {
    exists|i: int| 0 <= i < entries.len() && entry_key(#[trigger] entries[i]) == k
}

/// The endpoint under the key `k`.
pub open spec fn entry_at(
    entries: Seq<((String, String), EndpointRecord)>,
    k: (Seq<char>, Seq<char>),
) -> EndpointView {
    entries[choose|i: int|
        0 <= i < entries.len() && entry_key(#[trigger] entries[i]) == k].1@
}

/// The endpoints of `entries` by their keys.
pub open spec fn entry_table(entries: Seq<((String, String), EndpointRecord)>) -> Merged {
    Map::new(
        |k: (Seq<char>, Seq<char>)| has_entry(entries, k),
        |k: (Seq<char>, Seq<char>)| entry_at(entries, k),
    )
}

/// No two entries have the same key, and each has the key of its endpoint.
pub open spec fn entries_ok(entries: Seq<((String, String), EndpointRecord)>) -> bool {
    &&& forall|i: int, j: int|
        0 <= i < j < entries.len() ==> entry_key(#[trigger] entries[i]) != entry_key(
            #[trigger] entries[j],
        )
    &&& forall|i: int|
        0 <= i < entries.len() ==> entry_key(#[trigger] entries[i]) == key_of(entries[i].1@)
}

/// `e` is the endpoint of one of the entries from `lo` on.
pub open spec fn among_entries(
    entries: Seq<((String, String), EndpointRecord)>,
    lo: int,
    e: EndpointView,
) -> bool {
    exists|i: int| lo <= i < entries.len() && (#[trigger] entries[i]).1@ == e
}

/// The table holds each entry under its key.
proof fn lemma_entry(entries: Seq<((String, String), EndpointRecord)>, i: int)
    requires
        entries_ok(entries),
        0 <= i < entries.len(),
    ensures
        entry_table(entries).contains_key(entry_key(entries[i])),
        entry_table(entries)[entry_key(entries[i])] == entries[i].1@,
{
    let k = entry_key(entries[i]);
    assert(has_entry(entries, k));
    let j = choose|j: int| 0 <= j < entries.len() && entry_key(#[trigger] entries[j]) == k;
    assert(entry_key(entries[j]) == k);
    assert(i == j);
}

/// The keys of the entries.
spec fn entry_keys(entries: Seq<((String, String), EndpointRecord)>) -> Seq<
    (Seq<char>, Seq<char>),
> {
    entries.map_values(|e: ((String, String), EndpointRecord)| entry_key(e))
}

/// There are as many keys as entries.
proof fn lemma_entry_count(entries: Seq<((String, String), EndpointRecord)>)
    requires
        entries_ok(entries),
    ensures
        entry_table(entries).dom().finite(),
        entry_table(entries).dom().len() == entries.len(),
{
    let keys = entry_keys(entries);
    assert(entry_table(entries).dom() =~= keys.to_set()) by {
        assert forall|k: (Seq<char>, Seq<char>)| #[trigger]
            keys.to_set().contains(k) == has_entry(entries, k) by {
            if keys.contains(k) {
                let i = choose|i: int| 0 <= i < keys.len() && keys[i] == k;
                assert(entry_key(entries[i]) == k);
            }
            if has_entry(entries, k) {
                let i = choose|i: int|
                    0 <= i < entries.len() && entry_key(#[trigger] entries[i]) == k;
                assert(keys[i] == k);
            }
        }
    }
    assert(keys.no_duplicates()) by {
        assert forall|i: int, j: int| 0 <= i < keys.len() && 0 <= j < keys.len() && i
            != j implies keys[i] != keys[j] by {
            if i < j {
                assert(entry_key(entries[i]) != entry_key(entries[j]));
            } else {
                assert(entry_key(entries[j]) != entry_key(entries[i]));
            }
        }
    }
    keys.unique_seq_to_set();
    vstd::seq_lib::seq_to_set_is_finite(keys);
}

impl View for EndpointMap {
    type V = Merged;

    closed spec fn view(&self) -> Merged {
        entry_table(self.entries@)
    }
}

impl EndpointMap {
    /// No two entries have the same key, and each has the key of its endpoint.
    pub closed spec fn wf(&self) -> bool {
        entries_ok(self.entries@)
    }

    /// A map holds finitely many endpoints.
    pub proof fn law_finite(&self)
        requires
            self.wf(),
        ensures
            self@.dom().finite(),
    {
        lemma_entry_count(self.entries@);
    }

    /// A map without endpoints.
    pub fn new() -> (r: EndpointMap)
        ensures
            r.wf(),
            r@ == Map::<(Seq<char>, Seq<char>), EndpointView>::empty(),
            r@.dom().finite(),
    {
        let r = EndpointMap { entries: Vec::new() };
        assert(r@ == Map::<(Seq<char>, Seq<char>), EndpointView>::empty());
        r
    }

    /// Whether there is no endpoint.
    pub fn is_empty(&self) -> (r: bool)
        requires
            self.wf(),
        ensures
            r == (self@ == Map::<(Seq<char>, Seq<char>), EndpointView>::empty()),
    {
        if self.entries.len() == 0 {
            assert(self@ == Map::<(Seq<char>, Seq<char>), EndpointView>::empty());
            true
        } else {
            proof {
                lemma_entry(self.entries@, 0);
            }
            assert(self@.contains_key(entry_key(self.entries@[0])));
            false
        }
    }

    /// The position of the entry with the key `key`.
    fn position(&self, key: &(String, String)) -> (r: Option<usize>)
        ensures
            match r {
                Some(i) => i < self.entries@.len() && entry_key(self.entries@[i as int]) == (
                    key.0@,
                    key.1@,
                ),
                None => !has_entry(self.entries@, (key.0@, key.1@)),
            },
    {
        let mut i: usize = 0;
        while i < self.entries.len()
            invariant
                i <= self.entries@.len(),
                forall|j: int|
                    0 <= j < i ==> entry_key(#[trigger] self.entries@[j]) != (key.0@, key.1@),
            decreases self.entries@.len() - i,
        {
            let e = &self.entries[i];
            if strings::same_text(e.0.0.as_str(), key.0.as_str()) && strings::same_text(
                e.0.1.as_str(),
                key.1.as_str(),
            ) {
                return Some(i);
            }
            i = i + 1;
        }
        None
    }

    /// The endpoints in ascending order.
    pub fn into_listing(self) -> (r: Vec<EndpointRecord>)
        requires
            self.wf(),
        ensures
            is_listing(model::endpoint_views(r@), self@),
            model::endpoint_views(r@) == listing(self@),
            self@.dom().finite(),
            r@.len() == self@.dom().len(),
    {
        let ghost table = self@;
        let ghost all = self.entries@;
        let mut entries = self.entries;
        let mut r: Vec<EndpointRecord> = Vec::new();
        while entries.len() > 0
            invariant
                entries_ok(all),
                table == entry_table(all),
                entries@ == all.take(entries@.len() as int),
                entries@.len() <= all.len(),
                r@.len() + entries@.len() == all.len(),
                ascending(model::endpoint_views(r@)),
                forall|i: int|
                    entries@.len() <= i < all.len() ==> model::endpoint_views(r@).contains(
                        (#[trigger] all[i]).1@,
                    ),
                forall|p: int|
                    0 <= p < r@.len() ==> among_entries(
                        all,
                        entries@.len() as int,
                        (#[trigger] r@[p])@,
                    ),
            decreases entries@.len(),
        {
            let ghost n = entries@.len() - 1;
            match entries.pop() {
                Some(entry) => {
                    let e = entry.1;
                    assert(all[n].1 == e);
                    insert_endpoint(&mut r, e, Ghost(all), Ghost(n));
                    assert(entries@ == all.take(n));
                },
                None => {},
            }
        }
        proof {
            lemma_entry_count(all);
            let views = model::endpoint_views(r@);
            assert forall|e: EndpointView| #[trigger] views.contains(e) <==> in_merged(
                table,
                e,
            ) by {
                if views.contains(e) {
                    let p = choose|p: int| 0 <= p < views.len() && views[p] == e;
                    assert(r@[p]@ == e);
                    assert(among_entries(all, 0, r@[p]@));
                    let i = choose|i: int|
                        0 <= i < all.len() && (#[trigger] all[i]).1@ == r@[p]@;
                    lemma_entry(all, i);
                    assert(table.contains_key(entry_key(all[i])));
                }
                if in_merged(table, e) {
                    let k = choose|k: (Seq<char>, Seq<char>)| #[trigger]
                        table.contains_key(k) && table[k] == e;
                    assert(has_entry(all, k));
                    let i = choose|i: int| 0 <= i < all.len() && entry_key(#[trigger] all[i]) == k;
                    lemma_entry(all, i);
                    assert(all[i].1@ == e);
                }
            }
            lemma_listing_is(views, table);
        }
        r
    }
}

/// Puts `e`, the endpoint of entry `n` of `all`, into the ascending `r`, which
/// holds those of the later entries.
fn insert_endpoint(
    r: &mut Vec<EndpointRecord>,
    e: EndpointRecord,
    all: Ghost<Seq<((String, String), EndpointRecord)>>,
    n: Ghost<int>,
)
    requires
        entries_ok(all@),
        0 <= n@ < all@.len(),
        all@[n@].1 == e,
        ascending(model::endpoint_views(old(r)@)),
        forall|i: int|
            n@ < i < all@.len() ==> model::endpoint_views(old(r)@).contains(
                (#[trigger] all@[i]).1@,
            ),
        forall|p: int|
            0 <= p < old(r)@.len() ==> among_entries(all@, n@ + 1, (#[trigger] old(r)@[p])@),
    ensures
        final(r)@.len() == old(r)@.len() + 1,
        ascending(model::endpoint_views(final(r)@)),
        forall|i: int|
            n@ <= i < all@.len() ==> model::endpoint_views(final(r)@).contains(
                (#[trigger] all@[i]).1@,
            ),
        forall|p: int|
            0 <= p < final(r)@.len() ==> among_entries(all@, n@, (#[trigger] final(r)@[p])@),
{
    let ghost before = r@;
    let ghost views = model::endpoint_views(before);
    let mut p: usize = 0;
    while p < r.len() && is_endpoint_before(&r[p], &e)
        invariant
            r@ == before,
            p <= r@.len(),
            forall|q: int| 0 <= q < p ==> endpoint_before((#[trigger] before[q])@, e@),
        decreases r@.len() - p,
    {
        p = p + 1;
    }
    proof {
        assert forall|q: int| p <= q < before.len() implies endpoint_before(
            e@,
            (#[trigger] before[q])@,
        ) by {
            assert(among_entries(all@, n@ + 1, before[p as int]@));
            let i = choose|i: int|
                n@ < i < all@.len() && (#[trigger] all@[i]).1@ == before[p as int]@;
            assert(entry_key(all@[n@]) != entry_key(all@[i]));
            lemma_order_total(e@, before[p as int]@);
            if q > p {
                assert(endpoint_before(views[p as int], views[q]));
                lemma_before_transitive(e@, before[p as int]@, before[q]@);
            }
        }
    }
    let ghost ev = e@;
    r.insert(p, e);
    proof {
        let after = model::endpoint_views(r@);
        assert(after == views.insert(p as int, ev));
        assert forall|i: int, j: int| 0 <= i < j < after.len() implies endpoint_before(
            after[i],
            after[j],
        ) by {
            let i0 = if i < p { i } else { i - 1 };
            let j0 = if j < p { j } else { j - 1 };
            if i != p && j != p {
                assert(after[i] == views[i0] && after[j] == views[j0]);
            } else if i == p {
                assert(after[j] == before[j0]@);
            } else {
                assert(after[i] == before[i0]@);
            }
        }
        assert forall|i: int| n@ <= i < all@.len() implies after.contains(
            (#[trigger] all@[i]).1@,
        ) by {
            if i == n@ {
                assert(after[p as int] == ev);
            } else {
                assert(views.contains(all@[i].1@));
                let q = choose|q: int| 0 <= q < views.len() && views[q] == all@[i].1@;
                let q1 = if q < p { q } else { q + 1 };
                assert(after[q1] == all@[i].1@);
            }
        }
        assert forall|q: int| 0 <= q < r@.len() implies among_entries(
            all@,
            n@,
            (#[trigger] r@[q])@,
        ) by {
            if q == p {
                assert(all@[n@].1@ == r@[q]@);
            } else {
                let q0 = if q < p { q } else { q - 1 };
                assert(r@[q] == before[q0]);
                assert(among_entries(all@, n@ + 1, before[q0]@));
                let i = choose|i: int|
                    n@ < i < all@.len() && (#[trigger] all@[i]).1@ == before[q0]@;
                assert(all@[i].1@ == r@[q]@);
            }
        }
    }
}

/// Merges `endpoint` into the map.
pub fn merge_endpoint(endpoint_map: &mut EndpointMap, endpoint: EndpointRecord)
    requires
        old(endpoint_map).wf(),
    ensures
        final(endpoint_map).wf(),
        final(endpoint_map)@ == merged(old(endpoint_map)@, endpoint@),
        final(endpoint_map)@.dom().finite(),
{
    let key = routes::endpoint_merge_key(endpoint.method.as_str(), endpoint.route.as_str());
    let ghost all = endpoint_map.entries@;
    let ghost k = (key.0@, key.1@);
    let ghost ev = endpoint@;
    match endpoint_map.position(&key) {
        Some(i) => {
            proof {
                lemma_entry(all, i as int);
            }
            let (old_key, mut existing) = endpoint_map.entries.remove(i);
            let record = if !strings::same_text(existing.style.as_str(), "oas")
                && strings::same_text(endpoint.style.as_str(), "oas") {
                let mut preferred = endpoint;
                enrich_endpoint(&mut preferred, &existing);
                preferred
            } else {
                enrich_endpoint(&mut existing, &endpoint);
                existing
            };
            assert(record@ == resolved(all[i as int].1@, ev));
            endpoint_map.entries.push((old_key, record));
            proof {
                lemma_replaced(all, i as int, endpoint_map.entries@);
            }
        },
        None => {
            endpoint_map.entries.push((key, endpoint));
            proof {
                lemma_added(all, endpoint_map.entries@);
            }
        },
    }
    proof {
        lemma_entry_count(endpoint_map.entries@);
    }
}

/// Taking entry `i` out and putting another with its key at the end replaces
/// what is under that key.
proof fn lemma_replaced(
    all: Seq<((String, String), EndpointRecord)>,
    i: int,
    now: Seq<((String, String), EndpointRecord)>,
)
    requires
        entries_ok(all),
        0 <= i < all.len(),
        now.len() == all.len(),
        now == all.remove(i).push(now.last()),
        entry_key(now.last()) == entry_key(all[i]),
        key_of(now.last().1@) == entry_key(all[i]),
    ensures
        entries_ok(now),
        entry_table(now) == entry_table(all).insert(entry_key(all[i]), now.last().1@),
{
    assert forall|a: int, b: int| 0 <= a < b < now.len() implies entry_key(#[trigger] now[a])
        != entry_key(#[trigger] now[b]) by {
        let a0 = if a < i { a } else { a + 1 };
        let b0 = if b < i { b } else { b + 1 };
        assert(now[a] == all[a0]);
        if b < now.len() - 1 {
            assert(now[b] == all[b0]);
        } else if a0 < i {
            assert(entry_key(all[a0]) != entry_key(all[i]));
        } else {
            assert(entry_key(all[i]) != entry_key(all[a0]));
        }
    }
    assert forall|a: int| 0 <= a < now.len() implies entry_key(#[trigger] now[a]) == key_of(
        now[a].1@,
    ) by {
        if a < now.len() - 1 {
            let a0 = if a < i { a } else { a + 1 };
            assert(now[a] == all[a0]);
        }
    }
    let k0 = entry_key(all[i]);
    let expected = entry_table(all).insert(k0, now.last().1@);
    assert forall|k: (Seq<char>, Seq<char>)|
        entry_table(now).contains_key(k) == expected.contains_key(k) && (expected.contains_key(k)
            ==> #[trigger] entry_table(now)[k] == expected[k]) by {
        if has_entry(now, k) {
            let a = choose|a: int| 0 <= a < now.len() && entry_key(#[trigger] now[a]) == k;
            lemma_entry(now, a);
            if a < now.len() - 1 {
                let a0 = if a < i { a } else { a + 1 };
                assert(now[a] == all[a0]);
                lemma_entry(all, a0);
                if a0 < i {
                    assert(entry_key(all[a0]) != entry_key(all[i]));
                } else {
                    assert(entry_key(all[i]) != entry_key(all[a0]));
                }
            }
        }
        if has_entry(all, k) {
            let a = choose|a: int| 0 <= a < all.len() && entry_key(#[trigger] all[a]) == k;
            let a1 = if a < i { a } else if a == i { now.len() - 1 } else { a - 1 };
            assert(a == i || now[a1] == all[a]);
            lemma_entry(now, a1);
        }
        lemma_entry(now, now.len() - 1);
    }
    assert forall|k: (Seq<char>, Seq<char>)| #[trigger]
        entry_table(now).dom().contains(k) == expected.dom().contains(k) by {
        assert(entry_table(now)[k] == entry_table(now)[k]);
    }
    assert(entry_table(now) =~= expected);
}

/// Putting an entry with a new key at the end adds what is under that key.
proof fn lemma_added(
    all: Seq<((String, String), EndpointRecord)>,
    now: Seq<((String, String), EndpointRecord)>,
)
    requires
        entries_ok(all),
        now.len() == all.len() + 1,
        now == all.push(now.last()),
        !has_entry(all, entry_key(now.last())),
        key_of(now.last().1@) == entry_key(now.last()),
    ensures
        entries_ok(now),
        !entry_table(all).contains_key(entry_key(now.last())),
        entry_table(now) == entry_table(all).insert(entry_key(now.last()), now.last().1@),
{
    assert forall|a: int, b: int| 0 <= a < b < now.len() implies entry_key(#[trigger] now[a])
        != entry_key(#[trigger] now[b]) by {
        assert(now[a] == all[a]);
        if b < all.len() {
            assert(now[b] == all[b]);
        }
    }
    assert forall|a: int| 0 <= a < now.len() implies entry_key(#[trigger] now[a]) == key_of(
        now[a].1@,
    ) by {
        if a < all.len() {
            assert(now[a] == all[a]);
        }
    }
    let expected = entry_table(all).insert(entry_key(now.last()), now.last().1@);
    assert forall|k: (Seq<char>, Seq<char>)|
        entry_table(now).contains_key(k) == expected.contains_key(k) && (expected.contains_key(k)
            ==> #[trigger] entry_table(now)[k] == expected[k]) by {
        if has_entry(now, k) {
            let a = choose|a: int| 0 <= a < now.len() && entry_key(#[trigger] now[a]) == k;
            lemma_entry(now, a);
            if a < all.len() {
                assert(now[a] == all[a]);
                lemma_entry(all, a);
            }
        }
        if has_entry(all, k) {
            let a = choose|a: int| 0 <= a < all.len() && entry_key(#[trigger] all[a]) == k;
            assert(now[a] == all[a]);
            lemma_entry(now, a);
        }
        lemma_entry(now, now.len() - 1);
    }
    assert forall|k: (Seq<char>, Seq<char>)| #[trigger]
        entry_table(now).dom().contains(k) == expected.dom().contains(k) by {
        assert(entry_table(now)[k] == entry_table(now)[k]);
    }
    assert(entry_table(now) =~= expected);
}

} // verus!
