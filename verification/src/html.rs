//! The HTML landing page: a heading and an unordered list with one entry per
//! stored package, showing its name and url.
//!
//! As in the service this models, stored strings are interpolated into the
//! markup verbatim, without escaping.

use crate::package::{views_of, Package, PackageView};
use crate::registry::Registry;
use vstd::prelude::*;
use vstd::string::StringExecFns;

verus! {

broadcast use crate::package::lemma_views_of_index;

/// The list entry rendered for one package.
pub open spec fn li_of(p: PackageView) -> Seq<char> {
    "<li><p>"@ + p.name + "</p><p>URL: "@ + p.url + "</p></li>"@
}

/// The list entries rendered for `s`, in order.
pub open spec fn list_items(s: Seq<PackageView>) -> Seq<char>
    decreases s.len(),
{
    if s.len() == 0 {
        Seq::empty()
    } else {
        list_items(s.drop_last()) + li_of(s.last())
    }
}

/// The complete landing page for the records `s`: a heading, then one list
/// entry per record. An empty registry yields the heading and an empty list.
pub open spec fn html_of(s: Seq<PackageView>) -> Seq<char> {
    "<h1>Available Packages</h1>"@ + "<ul>"@ + list_items(s) + "</ul>"@
}

/// Renders the landing page for the packages `pkgs`, in their order.
pub fn render_html(pkgs: &Vec<Package>) -> (r: String)
    ensures
        r@ == html_of(views_of(pkgs@)),
{
    let ghost v = views_of(pkgs@);
    let mut out = String::from_str("<h1>Available Packages</h1>");
    out.append("<ul>");
    let n = pkgs.len();
    let mut i: usize = 0;
    while i < n
        invariant
            n == pkgs@.len(),
            v == views_of(pkgs@),
            i <= n,
            out@ == "<h1>Available Packages</h1>"@ + "<ul>"@ + list_items(v.take(i as int)),
        decreases n - i,
    {
        out.append("<li><p>");
        out.append(pkgs[i].name.as_str());
        out.append("</p><p>URL: ");
        out.append(pkgs[i].url.as_str());
        out.append("</p></li>");
        proof {
            assert(v.take(i + 1).drop_last() =~= v.take(i as int));
            assert(v.take(i + 1).last() == v[i as int]);
            assert(list_items(v.take(i + 1)) == list_items(v.take(i as int)) + li_of(v[i as int]));
            assert(out@ =~= "<h1>Available Packages</h1>"@ + "<ul>"@ + list_items(v.take(i + 1)));
        }
        i = i + 1;
    }
    proof {
        assert(v.take(n as int) =~= v);
    }
    out.append("</ul>");
    proof {
        assert(out@ =~= html_of(v));
    }
    out
}

/// The landing page handler: renders a snapshot of the registry as HTML.
pub fn index(reg: &Registry) -> (r: String)
    ensures
        r@ == html_of(reg@),
{
    let pkgs = reg.get_all();
    render_html(&pkgs)
}

} // verus!
