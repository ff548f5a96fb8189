//! The laws of the registry, stated over its view: what any sequence of
//! upserts leaves behind.

use crate::package::PackageView;
use crate::registry::{distinct_names, has_name, lookup, spec_upsert};
use vstd::prelude::*;

verus! {

/// The records left by applying the upserts `ps`, in order, to `s0`.
pub open spec fn apply_upserts(s0: Seq<PackageView>, ps: Seq<PackageView>) -> Seq<PackageView>
    decreases ps.len(),
{
    if ps.len() == 0 {
        s0
    } else {
        spec_upsert(apply_upserts(s0, ps.drop_last()), ps.last())
    }
}

/// The url of the most recent record named `n` among the upserts `ps`.
pub open spec fn last_url(ps: Seq<PackageView>, n: Seq<char>) -> Seq<char>
    recommends
        has_name(ps, n),
    decreases ps.len(),
{
    if ps.len() == 0 {
        Seq::empty()
    } else if ps.last().name == n {
        ps.last().url
    } else {
        last_url(ps.drop_last(), n)
    }
}

/// One upsert changes exactly the name it carries: the upserted name maps to
/// the new url, every other name keeps its record.
pub proof fn lemma_lookup_upsert(s: Seq<PackageView>, p: PackageView, n: Seq<char>)
    ensures
        lookup(spec_upsert(s, p), n) == if n == p.name {
            Some(p.url)
        } else {
            lookup(s, n)
        },
    decreases s.len(),
{
    let t = spec_upsert(s, p);
    if s.len() == 0 {
        assert(t == seq![p]);
        assert(t.drop_first() =~= Seq::<PackageView>::empty());
    } else if s[0].name == p.name {
        assert(t == seq![p] + s.drop_first());
        assert(t[0] == p);
        assert(t.drop_first() =~= s.drop_first());
    } else {
        let u = spec_upsert(s.drop_first(), p);
        assert(t == seq![s[0]] + u);
        assert(t[0] == s[0]);
        assert(t.drop_first() =~= u);
        lemma_lookup_upsert(s.drop_first(), p, n);
    }
}

/// Applying upserts keeps names distinct, and leaves exactly the names of
/// `s0` and of `ps`.
pub proof fn lemma_apply_upserts_names(s0: Seq<PackageView>, ps: Seq<PackageView>)
    requires
        distinct_names(s0),
    ensures
        distinct_names(apply_upserts(s0, ps)),
        forall|n: Seq<char>|
            has_name(apply_upserts(s0, ps), n) <==> (has_name(s0, n) || has_name(ps, n)),
    decreases ps.len(),
{
    let t = apply_upserts(s0, ps);
    if ps.len() == 0 {
        assert(forall|n: Seq<char>| !has_name(Seq::<PackageView>::empty(), n));
        assert forall|n: Seq<char>|
            has_name(t, n) <==> (has_name(s0, n) || has_name(ps, n)) by {
            if has_name(ps, n) {
                let i = choose|i: int| 0 <= i < ps.len() && ps[i].name == n;
            }
        }
    } else {
        let q = ps.drop_last();
        let a = apply_upserts(s0, q);
        lemma_apply_upserts_names(s0, q);
        crate::registry::lemma_upsert_distinct(a, ps.last());
        assert forall|n: Seq<char>|
            has_name(t, n) <==> (has_name(s0, n) || has_name(ps, n)) by {
            assert(has_name(t, n) <==> (has_name(a, n) || n == ps.last().name));
            if has_name(q, n) {
                let i = choose|i: int| 0 <= i < q.len() && q[i].name == n;
                assert(ps[i].name == n);
                assert(has_name(ps, n));
            }
            if n == ps.last().name {
                assert(ps[ps.len() - 1].name == n);
                assert(has_name(ps, n));
            }
            if has_name(ps, n) && n != ps.last().name {
                let i = choose|i: int| 0 <= i < ps.len() && ps[i].name == n;
                assert(i != ps.len() - 1);
                assert(q[i].name == n);
                assert(has_name(q, n));
            }
        }
    }
}

/// Last write wins: after any sequence of upserts, every upserted name maps
/// to the url most recently upserted for it, every other name keeps the
/// record it had before, and the store still holds at most one record per
/// distinct name.
pub proof fn lemma_last_write_wins(s0: Seq<PackageView>, ps: Seq<PackageView>, n: Seq<char>)
    requires
        distinct_names(s0),
    ensures
        distinct_names(apply_upserts(s0, ps)),
        has_name(ps, n) ==> lookup(apply_upserts(s0, ps), n) == Some(last_url(ps, n)),
        !has_name(ps, n) ==> lookup(apply_upserts(s0, ps), n) == lookup(s0, n),
    decreases ps.len(),
{
    lemma_apply_upserts_names(s0, ps);
    if ps.len() == 0 {
        if has_name(ps, n) {
            let i = choose|i: int| 0 <= i < ps.len() && ps[i].name == n;
        }
    } else {
        let q = ps.drop_last();
        let a = apply_upserts(s0, q);
        lemma_last_write_wins(s0, q, n);
        lemma_lookup_upsert(a, ps.last(), n);
        if n == ps.last().name {
            assert(ps[ps.len() - 1].name == n);
            assert(has_name(ps, n));
            assert(last_url(ps, n) == ps.last().url);
        } else {
            assert(last_url(ps, n) == last_url(q, n));
            assert(has_name(ps, n) ==> has_name(q, n)) by {
                if has_name(ps, n) {
                    let i = choose|i: int| 0 <= i < ps.len() && ps[i].name == n;
                    assert(i != ps.len() - 1);
                    assert(q[i].name == n);
                }
            }
            assert(has_name(q, n) ==> has_name(ps, n)) by {
                if has_name(q, n) {
                    let i = choose|i: int| 0 <= i < q.len() && q[i].name == n;
                    assert(ps[i].name == n);
                }
            }
        }
    }
}

/// Upserting distinct fresh names grows the store by exactly their number:
/// once every caller's upsert has been applied, in whatever order the lock
/// serialized them, the store holds exactly one record per caller.
pub proof fn lemma_distinct_upserts_count(s0: Seq<PackageView>, ps: Seq<PackageView>)
    requires
        distinct_names(s0),
        distinct_names(ps),
        forall|i: int| 0 <= i < ps.len() ==> !has_name(s0, #[trigger] ps[i].name),
    ensures
        apply_upserts(s0, ps).len() == s0.len() + ps.len(),
    decreases ps.len(),
{
    if ps.len() > 0 {
        let q = ps.drop_last();
        let a = apply_upserts(s0, q);
        assert(distinct_names(q)) by {
            assert(forall|i: int| 0 <= i < q.len() ==> q[i] == ps[i]);
        }
        assert(forall|i: int| 0 <= i < q.len() ==> !has_name(s0, #[trigger] q[i].name)) by {
            assert(forall|i: int| 0 <= i < q.len() ==> q[i] == ps[i]);
        }
        lemma_distinct_upserts_count(s0, q);
        lemma_apply_upserts_names(s0, q);
        crate::registry::lemma_upsert_distinct(a, ps.last());
        assert(!has_name(a, ps.last().name)) by {
            assert(ps[ps.len() - 1] == ps.last());
            assert(!has_name(s0, ps.last().name));
            assert(!has_name(q, ps.last().name)) by {
                if has_name(q, ps.last().name) {
                    let i = choose|i: int| 0 <= i < q.len() && q[i].name == ps.last().name;
                    assert(ps[i].name == ps[ps.len() - 1].name);
                }
            }
        }
    }
}

} // verus!
