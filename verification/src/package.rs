//! The record type stored by the registry: a package, identified by its
//! `name` and carrying a free-form `url`.

use vstd::prelude::*;

verus! {

/// The mathematical value of a [`Package`]: its two fields as character
/// sequences.
pub ghost struct PackageView {
    pub name: Seq<char>,
    pub url: Seq<char>,
}

/// A named package record. The `name` field is the key under which the
/// registry stores the record; `url` is free-form.
#[derive(Debug)]
pub struct Package {
    pub name: String,
    pub url: String,
}

impl View for Package {
    type V = PackageView;

    open spec fn view(&self) -> PackageView {
        PackageView { name: self.name@, url: self.url@ }
    }
}

impl Clone for Package {
    fn clone(&self) -> (r: Package)
        ensures
            r@ == self@,
    {
        Package { name: self.name.clone(), url: self.url.clone() }
    }
}

impl Package {
    /// Builds a package from its two fields.
    pub fn new(name: String, url: String) -> (r: Package)
        ensures
            r@ == (PackageView { name: name@, url: url@ }),
    {
        Package { name, url }
    }
}

/// The views of the packages of `s`, in order.
pub open spec fn views_of(s: Seq<Package>) -> Seq<PackageView> {
    s.map_values(|p: Package| p@)
}

/// `views_of` is the pointwise view.
pub broadcast proof fn lemma_views_of_index(s: Seq<Package>, j: int)
    requires
        0 <= j < s.len(),
    ensures
        #[trigger] views_of(s)[j] == s[j]@,
        views_of(s).len() == s.len(),
{
}

} // verus!
