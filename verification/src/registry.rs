//! The registry: the authoritative store of package records, keyed by name.
//!
//! The store keeps at most one record per distinct name; upserting a record
//! whose name is already present replaces the old record in place, and a new
//! name is appended at the end. Its view is the sequence of stored records in
//! that order.

use crate::package::{Package, PackageView, views_of};
use vstd::prelude::*;
use vstd::pervasive::VecAdditionalExecFns;

verus! {

broadcast use crate::package::lemma_views_of_index;

/// Whether some record of `s` carries the name `n`.
pub open spec fn has_name(s: Seq<PackageView>, n: Seq<char>) -> bool {
    exists|i: int| 0 <= i < s.len() && s[i].name == n
}

/// At most one record per distinct name.
pub open spec fn distinct_names(s: Seq<PackageView>) -> bool {
    forall|i: int, j: int| 0 <= i < j < s.len() ==> s[i].name != s[j].name
}

/// Insert-or-replace on a record sequence: the first record named `p.name`
/// is replaced by `p`; if no record carries that name, `p` is appended.
pub open spec fn spec_upsert(s: Seq<PackageView>, p: PackageView) -> Seq<PackageView>
    decreases s.len(),
{
    if s.len() == 0 {
        seq![p]
    } else if s[0].name == p.name {
        seq![p] + s.drop_first()
    } else {
        seq![s[0]] + spec_upsert(s.drop_first(), p)
    }
}

/// The url stored for `n` in `s`, going by the first record with that name.
pub open spec fn lookup(s: Seq<PackageView>, n: Seq<char>) -> Option<Seq<char>>
    decreases s.len(),
{
    if s.len() == 0 {
        None
    } else if s[0].name == n {
        Some(s[0].url)
    } else {
        lookup(s.drop_first(), n)
    }
}

/// The store of package records. Holds at most one record per distinct name;
/// its view is the stored records in order (first insertion first).
pub struct Registry {
    items: Vec<Package>,
}

impl View for Registry {
    type V = Seq<PackageView>;

    closed spec fn view(&self) -> Seq<PackageView> {
        views_of(self.items@)
    }
}

impl Registry {
    /// The registry's internal invariant: no two records share a name.
    pub open spec fn wf(&self) -> bool {
        distinct_names(self@)
    }

    /// Creates an empty registry.
    pub fn new() -> (r: Registry)
        ensures
            r@ == Seq::<PackageView>::empty(),
            r.wf(),
    {
        let r = Registry { items: Vec::new() };
        proof {
            assert(r@ =~= Seq::<PackageView>::empty());
        }
        r
    }

    /// The number of stored records.
    pub fn count(&self) -> (n: usize)
        ensures
            n == self@.len(),
    {
        self.items.len()
    }

    /// The index of the first record named `name@`, if any.
    fn find(&self, name: &str) -> (r: Option<usize>)
        ensures
            match r {
                Some(i) => {
                    &&& i < self@.len()
                    &&& self@[i as int].name == name@
                    &&& forall|j: int| 0 <= j < i ==> self@[j].name != name@
                },
                None => !has_name(self@, name@),
            },
    {
        let n = self.items.len();
        let mut i: usize = 0;
        while i < n
            invariant
                n == self.items@.len(),
                i <= n,
                forall|j: int| 0 <= j < i ==> self@[j].name != name@,
            decreases n - i,
        {
            if crate::text::str_eq(self.items[i].name.as_str(), name) {
                return Some(i);
            }
            i = i + 1;
        }
        None
    }

    /// Inserts `pkg`, replacing any record with the same name. Upserting an
    /// already-present name never changes the number of records.
    pub fn upsert(&mut self, pkg: Package)
        ensures
            final(self)@ == spec_upsert(old(self)@, pkg@),
            old(self).wf() ==> final(self).wf(),
            has_name(old(self)@, pkg@.name) ==> final(self)@.len() == old(self)@.len(),
            !has_name(old(self)@, pkg@.name) ==> final(self)@.len() == old(self)@.len() + 1,
    {
        let ghost s0 = self@;
        proof {
            if old(self).wf() {
                lemma_upsert_distinct(s0, pkg@);
            }
        }
        match self.find(pkg.name.as_str()) {
            Some(i) => {
                proof {
                    lemma_upsert_found(s0, pkg@, i as int);
                    assert(has_name(s0, pkg@.name));
                }
                self.items.set(i, pkg);
                proof {
                    assert(self@ =~= s0.update(i as int, pkg@));
                }
            },
            None => {
                proof {
                    lemma_upsert_missing(s0, pkg@);
                }
                self.items.push(pkg);
                proof {
                    assert(self@ =~= s0.push(pkg@));
                }
            },
        }
    }

    /// Returns a snapshot copy of every stored record, in stored order.
    pub fn get_all(&self) -> (r: Vec<Package>)
        ensures
            views_of(r@) == self@,
    {
        let n = self.items.len();
        let mut r: Vec<Package> = Vec::new();
        let mut i: usize = 0;
        while i < n
            invariant
                n == self.items@.len(),
                i <= n,
                r@.len() == i,
                views_of(r@) =~= self@.take(i as int),
            decreases n - i,
        {
            let pkg_i = self.items[i].clone();
            proof {
                assert(pkg_i@ == self@[i as int]);
            }
            r.push(pkg_i);
            proof {
                assert forall|j: int| 0 <= j <= i implies
                    views_of(r@)[j] == self@.take(i + 1)[j] by {
                    if j < i {
                        assert(views_of(r@)[j] == r@[j]@);
                    }
                }
                assert(views_of(r@) =~= self@.take(i + 1));
            }
            i = i + 1;
        }
        proof {
            assert(self@.take(n as int) =~= self@);
        }
        r
    }
}

/// Where a record named `p.name` stands first at index `i`, the upsert is
/// exactly an update at `i`.
proof fn lemma_upsert_found(s: Seq<PackageView>, p: PackageView, i: int)
    requires
        0 <= i < s.len(),
        s[i].name == p.name,
        forall|j: int| 0 <= j < i ==> s[j].name != p.name,
    ensures
        spec_upsert(s, p) == s.update(i, p),
    decreases s.len(),
{
    if i == 0 {
        assert(spec_upsert(s, p) =~= s.update(0, p));
    } else {
        assert(s[0].name != p.name);
        lemma_upsert_found(s.drop_first(), p, i - 1);
        assert(seq![s[0]] + s.drop_first().update(i - 1, p) =~= s.update(i, p));
    }
}

/// Where no record carries `p.name`, the upsert is exactly a push.
proof fn lemma_upsert_missing(s: Seq<PackageView>, p: PackageView)
    requires
        !has_name(s, p.name),
    ensures
        spec_upsert(s, p) == s.push(p),
    decreases s.len(),
{
    if s.len() == 0 {
        assert(spec_upsert(s, p) =~= s.push(p));
    } else {
        assert(s[0].name != p.name);
        assert(!has_name(s.drop_first(), p.name)) by {
            if has_name(s.drop_first(), p.name) {
                let j = choose|j: int|
                    0 <= j < s.drop_first().len() && s.drop_first()[j].name == p.name;
                assert(s[j + 1].name == p.name);
            }
        }
        lemma_upsert_missing(s.drop_first(), p);
        assert(seq![s[0]] + s.drop_first().push(p) =~= s.push(p));
    }
}

/// An upsert never introduces a duplicate name, carries exactly the names of
/// `s` plus `p.name`, and grows the record count only for a fresh name.
pub proof fn lemma_upsert_distinct(s: Seq<PackageView>, p: PackageView)
    requires
        distinct_names(s),
    ensures
        distinct_names(spec_upsert(s, p)),
        forall|n: Seq<char>|
            has_name(spec_upsert(s, p), n) <==> (has_name(s, n) || n == p.name),
        spec_upsert(s, p).len() == if has_name(s, p.name) {
            s.len()
        } else {
            s.len() + 1
        },
    decreases s.len(),
{
    let t = spec_upsert(s, p);
    if s.len() == 0 {
        assert(t =~= seq![p]);
        assert forall|n: Seq<char>|
            has_name(t, n) <==> (has_name(s, n) || n == p.name) by {
            if has_name(t, n) {
                let i = choose|i: int| 0 <= i < t.len() && t[i].name == n;
                assert(i == 0);
            }
            if n == p.name {
                assert(t[0].name == n);
            }
        }
    } else if s[0].name == p.name {
        assert(t =~= s.update(0, p));
        assert(s[0].name == p.name);
        assert(has_name(s, p.name));
        assert(forall|i: int| 0 <= i < t.len() ==> #[trigger] t[i].name == s[i].name);
        assert(distinct_names(t));
        assert forall|n: Seq<char>|
            has_name(t, n) <==> (has_name(s, n) || n == p.name) by {
            if has_name(t, n) {
                let i = choose|i: int| 0 <= i < t.len() && t[i].name == n;
                assert(s[i].name == n);
            }
            if has_name(s, n) {
                let i = choose|i: int| 0 <= i < s.len() && s[i].name == n;
                assert(t[i].name == n);
            }
            if n == p.name {
                assert(t[0].name == n);
            }
        }
    } else {
        let d = s.drop_first();
        assert(distinct_names(d)) by {
            assert(forall|i: int| 0 <= i < d.len() ==> #[trigger] d[i] == s[i + 1]);
        }
        lemma_upsert_distinct(d, p);
        let u = spec_upsert(d, p);
        assert(t == seq![s[0]] + u);
        assert(t[0] == s[0]);
        assert(forall|i: int| 0 <= i < u.len() ==> #[trigger] u[i] == t[i + 1]);
        assert(t.len() == u.len() + 1);
        assert forall|n: Seq<char>|
            has_name(t, n) <==> (has_name(s, n) || n == p.name) by {
            if has_name(t, n) {
                let i = choose|i: int| 0 <= i < t.len() && t[i].name == n;
                if i == 0 {
                    assert(s[0].name == n);
                } else {
                    assert(u[i - 1].name == n);
                    assert(has_name(u, n));
                    if has_name(d, n) {
                        let j = choose|j: int| 0 <= j < d.len() && d[j].name == n;
                        assert(s[j + 1].name == n);
                    }
                }
            }
            if has_name(s, n) {
                let i = choose|i: int| 0 <= i < s.len() && s[i].name == n;
                if i == 0 {
                    assert(t[0].name == n);
                } else {
                    assert(d[i - 1].name == n);
                    assert(has_name(d, n));
                    assert(has_name(u, n));
                    let j = choose|j: int| 0 <= j < u.len() && u[j].name == n;
                    assert(t[j + 1].name == n);
                }
            }
            if n == p.name {
                assert(has_name(u, p.name));
                let j = choose|j: int| 0 <= j < u.len() && u[j].name == n;
                assert(t[j + 1].name == n);
            }
        }
        assert(!has_name(d, s[0].name)) by {
            if has_name(d, s[0].name) {
                let j = choose|j: int| 0 <= j < d.len() && d[j].name == s[0].name;
                assert(s[j + 1].name == s[0].name);
            }
        }
        assert(!has_name(u, s[0].name));
        assert forall|i: int, j: int|
            0 <= i < j < t.len() implies t[i].name != t[j].name by {
            assert(u[j - 1] == t[j]);
            if i == 0 {
                if t[j].name == s[0].name {
                    assert(has_name(u, s[0].name));
                }
            } else {
                assert(u[i - 1] == t[i]);
            }
        }
        assert(distinct_names(t));
        assert(has_name(s, p.name) ==> has_name(d, p.name)) by {
            if has_name(s, p.name) {
                let i = choose|i: int| 0 <= i < s.len() && s[i].name == p.name;
                assert(i != 0);
                assert(d[i - 1].name == p.name);
            }
        }
        assert(has_name(d, p.name) ==> has_name(s, p.name)) by {
            if has_name(d, p.name) {
                let j = choose|j: int| 0 <= j < d.len() && d[j].name == p.name;
                assert(s[j + 1].name == p.name);
            }
        }
    }
}

} // verus!
