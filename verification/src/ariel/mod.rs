//! The Ariel e-learning site: its pages, its site map, and the planning of
//! the requests made to it.

pub mod page;
pub mod map;
pub mod mware;
pub mod laws;

use vstd::prelude::*;

use crate::ariel::page::{data_views, page_data, ArielPage, ArielPageData};
use crate::text::concat;
use crate::text::text_eq;

verus! {

/// The credentials of an Ariel user.
pub struct ArielUserConfig {
    pub username: String,
    pub password: String,
}

/// How the pages below a page are fetched.
pub enum ChildrenPlan {
    /// The page only forwards to its `v5` version: that one page is
    /// fetched, and read as the page's only child.
    Forward(String),
    /// Each of these addresses is fetched, the pages that can be read kept.
    Each(Vec<String>),
}

/// A page whose only child is its own address followed by `v5` forwards to
/// it.
pub open spec fn forwards(page_url: Seq<char>, children: Seq<Seq<char>>) -> bool {
    children.len() == 1 && children[0] == page_url + "v5"@
}

/// How the pages below the page at `page_url`, whose child addresses are
/// `children`, are fetched.
pub fn children_plan(page_url: &str, children: Vec<String>) -> (r: ChildrenPlan)
    ensures
        match r {
            ChildrenPlan::Forward(u) => forwards(page_url@, children.deep_view()) && u@
                == children@[0]@,
            ChildrenPlan::Each(v) => !forwards(page_url@, children.deep_view()) && v.deep_view()
                == children.deep_view(),
        },
{
    if children.len() == 1 {
        let target = concat(page_url, "v5");
        assert(children.deep_view()[0] == children@[0]@);
        if text_eq(children[0].as_str(), target.as_str()) {
            let u = children[0].clone();
            return ChildrenPlan::Forward(u);
        }
    }
    ChildrenPlan::Each(children)
}

/// A walk through the pages below a page, depth first: the pages still to
/// visit (the last added is visited first), and the resources found so far.
pub struct Crawl {
    pub pending: Vec<ArielPage>,
    pub found: Vec<ArielPageData>,
}

impl Crawl {
    /// A walk that starts with the given resources and pages.
    pub fn new(found: Vec<ArielPageData>, pending: Vec<ArielPage>) -> (r: Crawl)
        ensures
            r.found@ == found@,
            r.pending@ == pending@,
    {
        Crawl { pending, found }
    }

    /// The next page to visit, taken off the pages still to visit: the one
    /// added last; `None` when none is left.
    pub fn next_page(&mut self) -> (r: Option<ArielPage>)
        ensures
            final(self).found@ == old(self).found@,
            old(self).pending@.len() == 0 ==> r is None && final(self).pending@ == old(self).pending@,
            old(self).pending@.len() > 0 ==> r == Some(old(self).pending@.last())
                && final(self).pending@ == old(self).pending@.drop_last(),
    {
        self.pending.pop()
    }

    /// Visits a page: its resources are added to those found, then the
    /// pages below it to those still to visit. Where the page's resources
    /// cannot all be read, nothing changes and `false` is returned.
    pub fn visit(&mut self, page: &ArielPage, children: Vec<ArielPage>) -> (r: bool)
        ensures
            r == page_data(page.url@, page.soup@, page.kind) is Some,
            r ==> data_views(final(self).found@) == data_views(old(self).found@) + page_data(
                page.url@,
                page.soup@,
                page.kind,
            ).unwrap() && final(self).pending@ == old(self).pending@ + children@,
            !r ==> final(self).found@ == old(self).found@ && final(self).pending@ == old(
                self,
            ).pending@,
    {
        match page.try_get_data() {
            Some(mut data) => {
                let ghost d = data@;
                self.found.append(&mut data);
                assert(data_views(self.found@) =~= data_views(old(self).found@) + data_views(d));
                let mut c = children;
                self.pending.append(&mut c);
                true
            },
            None => false,
        }
    }
}

} // verus!
