//! What the page analysis promises of every page, stated over the parsed
//! document itself: which pages lie below a page, which kind a page is,
//! which courses are open, and where each resource is said to come from.

use vstd::prelude::*;

use crate::ariel::page::{
    attr_or_empty, first_active, first_per_url, lemma_first_per_url, page_data, page_items,
    course_links_in, course_links_over, course_link, page_children, page_kind, page_title, project_of, thread_links_in, thread_link, project_scan, project_step, projects_of, row_item,
    row_items, search_results, site_title, teacher_pattern, thread_items, thread_title,
    threads_items, ArielPageKind, DataView, Origin,
};
use crate::html::{document_of, tl_element_by_id, tl_elements_by_class, Attr, DomView};
use crate::pattern::regex_is_match_spec;
use crate::links::url_join_spec;
use crate::text::{replace_all, seq_contains};

verus! {

proof fn lemma_no_active(d: DomView, lo: int, hi: int)
    requires
        forall|k: int| lo <= k < hi ==> !#[trigger] d.attr_is(k, Attr::Class, "active"@),
    ensures
        first_active(d, lo, hi) is None,
    decreases hi - lo,
{
    if hi > lo {
        lemma_no_active(d, lo, hi - 1);
    }
}

proof fn lemma_first_active_is(d: DomView, lo: int, hi: int, j: int)
    requires
        lo <= j < hi,
        d.attr_is(j, Attr::Class, "active"@),
        forall|k: int| lo <= k < j ==> !#[trigger] d.attr_is(k, Attr::Class, "active"@),
    ensures
        first_active(d, lo, hi) == Some(j),
    decreases hi - lo,
{
    if hi - 1 > j {
        lemma_first_active_is(d, lo, hi - 1, j);
    } else {
        lemma_no_active(d, lo, j);
    }
}

/// A page with a navigation bar `bs-navbar` whose first active entry (a tag
/// of class `active` below the bar) is node `j` is the home page of Ariel
/// when the text of that entry holds `Home`, and of unknown kind otherwise.
pub proof fn law_navbar_entry_decides_home(d: DomView, nav: usize, j: int)
    requires
        tl_element_by_id(d.raw, "bs-navbar"@) == Some(nav),
        (nav as int) < d.len(),
        d.below_start(nav as int) <= j < d.below_end(nav as int),
        d.attr_is(j, Attr::Class, "active"@),
        forall|k: int|
            d.below_start(nav as int) <= k < j ==> !#[trigger] d.attr_is(k, Attr::Class, "active"@),
    ensures
        page_kind(d) == (if seq_contains(d.texts[j], "Home"@) {
            ArielPageKind::HomePage
        } else {
            ArielPageKind::Unknown
        }),
{
    lemma_first_active_is(d, d.below_start(nav as int), d.below_end(nav as int), j);
}

/// A page with a navigation bar `bs-navbar` that has no active entry below
/// it is of unknown kind.
pub proof fn law_navbar_without_active_entry(d: DomView, nav: usize)
    requires
        tl_element_by_id(d.raw, "bs-navbar"@) == Some(nav),
        forall|k: int|
            d.below_start(nav as int) <= k < d.below_end(nav as int) ==> !#[trigger] d.attr_is(
                k,
                Attr::Class,
                "active"@,
            ),
    ensures
        page_kind(d) == ArielPageKind::Unknown,
{
    lemma_no_active(d, d.below_start(nav as int), d.below_end(nav as int));
}

/// Node `j` marks a course as open to the user: a tag whose class is
/// exactly `bg-tag-success` and whose `href` (the empty text where it has
/// none) is no teacher link.
pub open spec fn marks_open(d: DomView, j: int) -> bool {
    &&& d.is_tag(j)
    &&& d.class[j] == Some(Some("bg-tag-success"@))
    &&& regex_is_match_spec(teacher_pattern(), attr_or_empty(d.href[j]).unwrap()) == Some(false)
}

proof fn lemma_scan_open(d: DomView, lo: int, hi: int)
    requires
        project_scan(d, lo, hi) is Some,
    ensures
        project_scan(d, lo, hi).unwrap().3 <==> exists|j: int| lo <= j < hi && #[trigger] marks_open(d, j),
    decreases hi - lo,
{
    reveal_strlit("ariel");
    reveal_strlit("bg-tag-success");
    if hi > lo {
        lemma_scan_open(d, lo, hi - 1);
        let st0 = project_scan(d, lo, hi - 1).unwrap();
        let j = hi - 1;
        let st = project_step(d, j, st0).unwrap();
        if marks_open(d, j) {
            assert(attr_or_empty(d.class[j]) == Some("bg-tag-success"@));
            assert("ariel"@.len() == 5 && "bg-tag-success"@.len() == 14);
            assert(attr_or_empty(d.class[j]).unwrap() != "ariel"@);
            assert(st.3);
        } else {
            assert(st.3 == st0.3) by {
                if d.is_tag(j) {
                    let c = attr_or_empty(d.class[j]).unwrap();
                    if c == "bg-tag-success"@ && c != "ariel"@ {
                        assert(d.class[j] == Some(Some("bg-tag-success"@))) by {
                            assert("bg-tag-success"@.len() == 14);
                            if d.class[j] is None {
                                assert(c.len() == 0);
                            }
                        }
                    }
                }
            }
        }
        assert forall|k: int| lo <= k < hi && #[trigger] marks_open(d, k) implies (k == j || (lo <= k
            < hi - 1 && marks_open(d, k))) by {}
    }
}

proof fn lemma_projects_at(d: DomView, hs: Seq<usize>, m: int, k: int)
    requires
        0 <= k < m,
        projects_of(d, hs, m) is Some,
    ensures
        projects_of(d, hs, m).unwrap().len() == m,
        project_of(d, hs[k] as int) == Some(projects_of(d, hs, m).unwrap()[k]),
    decreases m,
{
    if k < m - 1 {
        lemma_projects_at(d, hs, m - 1, k);
    } else if m > 1 {
        lemma_projects_at(d, hs, m - 1, 0);
    }
}

/// A course of a search page is open to the user exactly when some tag
/// below its entry marks it so (see `marks_open`); an entry with no such
/// tag gives a course that is not open.
pub proof fn law_open_course(raw: Seq<char>, k: int)
    requires
        search_results(raw) is Some,
        0 <= k < search_results(raw).unwrap().len(),
    ensures
        ({
            let d = document_of(raw).unwrap();
            let h = tl_elements_by_class(raw, "ariel-project"@)[k] as int;
            search_results(raw).unwrap()[k].can_access <==> exists|j: int|
                d.below_start(h) <= j < d.below_end(h) && #[trigger] marks_open(d, j)
        }),
{
    let d = document_of(raw).unwrap();
    let hs = tl_elements_by_class(raw, "ariel-project"@);
    let m = hs.len() as int;
    if k >= m {
        lemma_projects_at(d, hs, m, 0);
    }
    lemma_projects_at(d, hs, m, k);
    let h = hs[k] as int;
    lemma_scan_open(d, d.below_start(h), d.below_end(h));
}

/// Every resource of `s` is said to come from course `site` and page
/// `ambient`.
spec fn all_from(s: Seq<DataView>, site: Seq<char>, ambient: Seq<char>) -> bool {
    forall|i: int| 0 <= i < s.len() ==> (#[trigger] s[i]).from_site == site && s[i].from_ambient == ambient
}

proof fn lemma_row_items_from(o: Origin, d: DomView, lo: int, hi: int)
    requires
        row_items(o, d, lo, hi) is Some,
    ensures
        all_from(row_items(o, d, lo, hi).unwrap(), o.site, o.ambient),
    decreases hi - lo,
{
    if hi > lo {
        lemma_row_items_from(o, d, lo, hi - 1);
        let a = row_items(o, d, lo, hi - 1).unwrap();
        let r = row_items(o, d, lo, hi).unwrap();
        assert forall|i: int| 0 <= i < r.len() implies (#[trigger] r[i]).from_site == o.site
            && r[i].from_ambient == o.ambient by {
            if i < a.len() {
                assert(r[i] == a[i]);
            }
        }
    }
}

proof fn lemma_thread_items_from(base: Seq<char>, site: Seq<char>, ambient: Seq<char>, d: DomView, c: int)
    requires
        thread_items(base, site, ambient, d, c) is Some,
    ensures
        all_from(thread_items(base, site, ambient, d, c).unwrap(), site, ambient),
{
    if d.tag_is(c, "tr"@) {
        let lo = d.below_start(c);
        let hi = d.below_end(c);
        lemma_row_items_from(Origin { base, site, ambient, thread: thread_title(d, lo, hi) }, d, lo, hi);
    }
}

proof fn lemma_concat_from(a: Seq<DataView>, b: Seq<DataView>, site: Seq<char>, ambient: Seq<char>)
    requires
        all_from(a, site, ambient),
        all_from(b, site, ambient),
    ensures
        all_from(a + b, site, ambient),
{
    assert forall|i: int| 0 <= i < (a + b).len() implies (#[trigger] (a + b)[i]).from_site == site
        && (a + b)[i].from_ambient == ambient by {
        if i < a.len() {
            assert((a + b)[i] == a[i]);
        } else {
            assert((a + b)[i] == b[i - a.len()]);
        }
    }
}

proof fn lemma_threads_items_from(base: Seq<char>, site: Seq<char>, ambient: Seq<char>, d: DomView, lo: int, hi: int)
    requires
        threads_items(base, site, ambient, d, lo, hi) is Some,
    ensures
        all_from(threads_items(base, site, ambient, d, lo, hi).unwrap(), site, ambient),
    decreases hi - lo,
{
    if hi > lo {
        lemma_threads_items_from(base, site, ambient, d, lo, hi - 1);
        lemma_thread_items_from(base, site, ambient, d, hi - 1);
        lemma_concat_from(
            threads_items(base, site, ambient, d, lo, hi - 1).unwrap(),
            thread_items(base, site, ambient, d, hi - 1).unwrap(),
            site,
            ambient,
        );
    }
}

proof fn lemma_page_items_from(base: Seq<char>, site: Seq<char>, ambient: Seq<char>, d: DomView, m: int)
    requires
        page_items(base, site, ambient, d, m) is Some,
    ensures
        all_from(page_items(base, site, ambient, d, m).unwrap(), site, ambient),
    decreases m,
{
    if m > 0 {
        lemma_page_items_from(base, site, ambient, d, m - 1);
        let t = d.top[m - 1] as int;
        if t < d.len() && d.tag_is(t, "html"@) {
            lemma_threads_items_from(base, site, ambient, d, d.below_start(t), d.below_end(t));
            lemma_concat_from(
                page_items(base, site, ambient, d, m - 1).unwrap(),
                threads_items(base, site, ambient, d, d.below_start(t), d.below_end(t)).unwrap(),
                site,
                ambient,
            );
        }
    }
}

/// Every resource that a page offers is said to come from the page's course
/// (the title that `ArielPage::get_site_name` gives) and from the page
/// itself (the title that `ArielPage::get_title` gives).
pub proof fn law_resources_name_course_and_page(url: Seq<char>, d: DomView, kind: ArielPageKind)
    requires
        page_data(url, d, kind) is Some,
    ensures
        forall|i: int|
            0 <= i < page_data(url, d, kind).unwrap().len() ==> (#[trigger] page_data(
                url,
                d,
                kind,
            ).unwrap()[i]).from_site == site_title(d) && page_data(url, d, kind).unwrap()[i].from_ambient
                == page_title(url, d, kind),
{
    let site = site_title(d);
    let ambient = page_title(url, d, kind);
    let c = page_items(url, site, ambient, d, d.top.len() as int).unwrap();
    lemma_page_items_from(url, site, ambient, d, d.top.len() as int);
    lemma_first_per_url(c);
    let r = first_per_url(c);
    assert forall|i: int| 0 <= i < r.len() implies (#[trigger] r[i]).from_site == site
        && r[i].from_ambient == ambient by {
        let j = choose|j: int| 0 <= j < c.len() && #[trigger] c[j] == #[trigger] r[i];
        assert(c[j] == r[i]);
    }
}

/// `f` lists, in increasing order, exactly the nodes of `[lo, hi)` of which
/// `p` holds.
pub open spec fn enumerates(f: Seq<int>, lo: int, hi: int, p: spec_fn(int) -> bool) -> bool {
    &&& forall|i: int| 0 <= i < f.len() ==> lo <= #[trigger] f[i] < hi && p(f[i])
    &&& forall|i: int, k: int| 0 <= i < k < f.len() ==> #[trigger] f[i] < #[trigger] f[k]
    &&& forall|j: int| lo <= j < hi && #[trigger] p(j) ==> exists|i: int| 0 <= i < f.len() && f[i] == j
}

proof fn lemma_enumerates_empty(lo: int, hi: int, p: spec_fn(int) -> bool)
    requires
        hi <= lo,
    ensures
        enumerates(Seq::empty(), lo, hi, p),
{
}

proof fn lemma_enumerates_step(f: Seq<int>, lo: int, hi: int, p: spec_fn(int) -> bool)
    requires
        lo < hi,
        enumerates(f, lo, hi - 1, p),
    ensures
        p(hi - 1) ==> enumerates(f.push(hi - 1), lo, hi, p),
        !p(hi - 1) ==> enumerates(f, lo, hi, p),
{
    let g = f.push(hi - 1);
    if p(hi - 1) {
        assert forall|i: int| 0 <= i < g.len() implies lo <= #[trigger] g[i] < hi && p(g[i]) by {
            if i < f.len() {
                assert(g[i] == f[i]);
            }
        }
        assert forall|i: int, k: int| 0 <= i < k < g.len() implies #[trigger] g[i] < #[trigger] g[k] by {
            assert(g[i] == f[i]);
            if k < f.len() {
                assert(g[k] == f[k]);
            }
        }
        assert forall|j: int| lo <= j < hi && #[trigger] p(j) implies exists|i: int|
            0 <= i < g.len() && g[i] == j by {
            if j < hi - 1 {
                let i = choose|i: int| 0 <= i < f.len() && f[i] == j;
                assert(g[i] == f[i]);
            } else {
                assert(g[f.len() as int] == j);
            }
        }
    } else {
        assert forall|j: int| lo <= j < hi && #[trigger] p(j) implies exists|i: int|
            0 <= i < f.len() && f[i] == j by {
            assert(j < hi - 1);
        }
    }
}

/// Node `j` links to a thread of a room: an `a` tag whose `href`, with
/// `amp;` taken out, holds `ThreadList`.
pub open spec fn is_thread_anchor(d: DomView, j: int) -> bool {
    &&& d.tag_is(j, "a"@)
    &&& d.href[j] matches Some(Some(h))
    &&& seq_contains(replace_all(h, "amp;"@, ""@), "ThreadList"@)
}

/// The address that the thread link at node `j` names: its `href` with
/// `amp;` taken out.
pub open spec fn anchor_target(d: DomView, j: int) -> Seq<char> {
    replace_all(d.href[j].unwrap().unwrap(), "amp;"@, ""@)
}

proof fn lemma_thread_links(url: Seq<char>, d: DomView, lo: int, hi: int) -> (f: Seq<int>)
    ensures
        enumerates(f, lo, hi, |j: int| is_thread_anchor(d, j)),
        thread_links_in(url, d, lo, hi) is Some <==> forall|i: int|
            0 <= i < f.len() ==> #[trigger] url_join_spec(url, anchor_target(d, f[i])) is Some,
        thread_links_in(url, d, lo, hi) matches Some(cs) ==> cs.len() == f.len() && forall|i: int|
            0 <= i < f.len() ==> #[trigger] url_join_spec(url, anchor_target(d, f[i])) == Some(cs[i]),
    decreases hi - lo,
{
    let p = |j: int| is_thread_anchor(d, j);
    if hi <= lo {
        lemma_enumerates_empty(lo, hi, p);
        Seq::empty()
    } else {
        let f0 = lemma_thread_links(url, d, lo, hi - 1);
        lemma_enumerates_step(f0, lo, hi, p);
        let j = hi - 1;
        if is_thread_anchor(d, j) {
            let f = f0.push(j);
            assert(thread_link(url, d, j) == Some(url_join_spec(url, anchor_target(d, j))));
            assert(f[f0.len() as int] == j);
            assert forall|i: int| 0 <= i < f0.len() implies f[i] == f0[i] by {}
            if thread_links_in(url, d, lo, hi) is Some {
                let cs = thread_links_in(url, d, lo, hi).unwrap();
                let c0 = thread_links_in(url, d, lo, hi - 1).unwrap();
                assert forall|i: int| 0 <= i < f.len() implies #[trigger] url_join_spec(
                    url,
                    anchor_target(d, f[i]),
                ) == Some(cs[i]) by {
                    if i < f0.len() {
                        assert(f[i] == f0[i]);
                        assert(cs[i] == c0[i]);
                        assert(url_join_spec(url, anchor_target(d, f0[i])) == Some(c0[i]));
                    }
                }
            } else {
                if thread_links_in(url, d, lo, hi - 1) is None {
                    let i = choose|i: int|
                        0 <= i < f0.len() && !(#[trigger] url_join_spec(url, anchor_target(d, f0[i])) is Some);
                    assert(f[i] == f0[i]);
                    assert(!(url_join_spec(url, anchor_target(d, f[i])) is Some));
                } else {
                    assert(!(url_join_spec(url, anchor_target(d, f[f0.len() as int])) is Some));
                }
            }
            f
        } else {
            assert(thread_link(url, d, j) is None);
            f0
        }
    }
}

/// The pages below a room are all its thread links below `roomList`, in
/// document order: `f` lists, in increasing order, every node below
/// `roomList` that is a thread link (see `is_thread_anchor`), and the
/// children are exactly their addresses joined to the room's, one for each,
/// in the same order. The children cannot be formed exactly when one of
/// these addresses cannot be joined.
pub proof fn law_room_children(url: Seq<char>, d: DomView, rl: usize) -> (f: Seq<int>)
    requires
        tl_element_by_id(d.raw, "roomList"@) == Some(rl),
        (rl as int) < d.len(),
    ensures
        enumerates(
            f,
            d.below_start(rl as int),
            d.below_end(rl as int),
            |j: int| is_thread_anchor(d, j),
        ),
        page_children(url, d, ArielPageKind::SiteAmbient) is Some <==> forall|i: int|
            0 <= i < f.len() ==> #[trigger] url_join_spec(url, anchor_target(d, f[i])) is Some,
        page_children(url, d, ArielPageKind::SiteAmbient) matches Some(cs) ==> cs.len() == f.len()
            && forall|i: int|
            0 <= i < f.len() ==> #[trigger] url_join_spec(url, anchor_target(d, f[i])) == Some(cs[i]),
{
    lemma_thread_links(url, d, d.below_start(rl as int), d.below_end(rl as int))
}

/// Node `j` links to a course: a tag whose `href` holds
/// `ariel.ctu.unimi.it`.
pub open spec fn is_course_anchor(d: DomView, j: int) -> bool {
    &&& d.is_tag(j)
    &&& d.href[j] matches Some(Some(h))
    &&& seq_contains(h, "ariel.ctu.unimi.it"@)
}

/// Node `j` is a course link below list `m` of `uls`.
pub open spec fn listed_course(d: DomView, uls: Seq<usize>, m: int, j: int) -> bool {
    &&& 0 <= m < uls.len()
    &&& (uls[m] as int) < d.len()
    &&& d.below_start(uls[m] as int) <= j < d.below_end(uls[m] as int)
    &&& is_course_anchor(d, j)
}

/// Position `a` (a list and a node below it) comes before `b`: in an
/// earlier list, or in the same list at an earlier node.
pub open spec fn comes_before(a: (int, int), b: (int, int)) -> bool {
    a.0 < b.0 || (a.0 == b.0 && a.1 < b.1)
}

proof fn lemma_course_links_in(d: DomView, lo: int, hi: int) -> (f: Seq<int>)
    ensures
        enumerates(f, lo, hi, |j: int| is_course_anchor(d, j)),
        course_links_in(d, lo, hi).len() == f.len(),
        forall|i: int|
            0 <= i < f.len() ==> #[trigger] course_links_in(d, lo, hi)[i] == d.href[f[i]].unwrap().unwrap(),
    decreases hi - lo,
{
    let p = |j: int| is_course_anchor(d, j);
    if hi <= lo {
        lemma_enumerates_empty(lo, hi, p);
        Seq::empty()
    } else {
        let f0 = lemma_course_links_in(d, lo, hi - 1);
        lemma_enumerates_step(f0, lo, hi, p);
        let j = hi - 1;
        let c0 = course_links_in(d, lo, hi - 1);
        let cs = course_links_in(d, lo, hi);
        if is_course_anchor(d, j) {
            assert(course_link(d, j) == Some(d.href[j].unwrap().unwrap()));
            let f = f0.push(j);
            assert forall|i: int| 0 <= i < f.len() implies #[trigger] cs[i] == d.href[f[i]].unwrap().unwrap() by {
                if i < f0.len() {
                    assert(f[i] == f0[i]);
                    assert(cs[i] == c0[i]);
                } else {
                    assert(f[i] == j);
                }
            }
            f
        } else {
            assert(course_link(d, j) is None);
            assert(cs =~= c0);
            f0
        }
    }
}

proof fn lemma_course_links_over(d: DomView, uls: Seq<usize>, m: int) -> (f: Seq<(int, int)>)
    requires
        0 <= m <= uls.len(),
    ensures
        course_links_over(d, uls, m).len() == f.len(),
        forall|i: int|
            0 <= i < f.len() ==> f[i].0 < m && listed_course(d, uls, f[i].0, #[trigger] f[i].1)
                && course_links_over(d, uls, m)[i] == d.href[f[i].1].unwrap().unwrap(),
        forall|i: int, k: int| 0 <= i < k < f.len() ==> comes_before(#[trigger] f[i], #[trigger] f[k]),
        forall|a: int, j: int|
            #[trigger] listed_course(d, uls, a, j) && a < m ==> exists|i: int| 0 <= i < f.len() && f[i] == (a, j),
    decreases m,
{
    if m == 0 {
        Seq::empty()
    } else {
        let f0 = lemma_course_links_over(d, uls, m - 1);
        let c0 = course_links_over(d, uls, m - 1);
        let cs = course_links_over(d, uls, m);
        let ul = uls[m - 1] as int;
        if ul < d.len() {
            let lo = d.below_start(ul);
            let hi = d.below_end(ul);
            let g = lemma_course_links_in(d, lo, hi);
            let inner = course_links_in(d, lo, hi);
            let gp = g.map_values(|j: int| (m - 1, j));
            let f = f0 + gp;
            assert(cs == c0 + inner);
            assert forall|i: int| 0 <= i < f.len() implies f[i].0 < m && listed_course(
                d,
                uls,
                f[i].0,
                #[trigger] f[i].1,
            ) && cs[i] == d.href[f[i].1].unwrap().unwrap() by {
                if i < f0.len() {
                    assert(f[i] == f0[i]);
                    assert(cs[i] == c0[i]);
                } else {
                    let k = i - f0.len();
                    assert(f[i] == gp[k]);
                    assert(gp[k] == (m - 1, g[k]));
                    assert(cs[i] == inner[k]);
                    assert(lo <= g[k] < hi && is_course_anchor(d, g[k]));
                }
            }
            assert forall|i: int, k: int| 0 <= i < k < f.len() implies comes_before(
                #[trigger] f[i],
                #[trigger] f[k],
            ) by {
                if k < f0.len() {
                    assert(f[i] == f0[i] && f[k] == f0[k]);
                } else if i < f0.len() {
                    assert(f[i] == f0[i]);
                    assert(listed_course(d, uls, f0[i].0, f0[i].1));
                    assert(f0[i].0 < m - 1);
                    assert(f[k] == gp[k - f0.len()]);
                } else {
                    assert(f[i] == gp[i - f0.len()] && f[k] == gp[k - f0.len()]);
                    assert(g[i - f0.len()] < g[k - f0.len()]);
                }
            }
            assert forall|a: int, j: int|
                #[trigger] listed_course(d, uls, a, j) && a < m implies exists|i: int|
                0 <= i < f.len() && f[i] == (a, j) by {
                if a < m - 1 {
                    let i = choose|i: int| 0 <= i < f0.len() && f0[i] == (a, j);
                    assert(f[i] == f0[i]);
                } else {
                    assert(is_course_anchor(d, j));
                    let p = |j: int| is_course_anchor(d, j);
                    assert(p(j));
                    let k = choose|k: int| 0 <= k < g.len() && g[k] == j;
                    assert(f[f0.len() + k] == gp[k]);
                }
            }
            f
        } else {
            assert(cs =~= c0);
            assert forall|a: int, j: int|
                #[trigger] listed_course(d, uls, a, j) && a < m implies exists|i: int|
                0 <= i < f0.len() && f0[i] == (a, j) by {
                assert(a != m - 1);
            }
            f0
        }
    }
}

/// The pages below the home page of Ariel are all the course links (see
/// `is_course_anchor`) below its lists `list-unstyled`, in order: `f` lists
/// every such link, as the list it is found below and its node, ordered by
/// list and then by node, and the children are exactly their addresses,
/// one for each, in the same order.
pub proof fn law_home_children(url: Seq<char>, d: DomView) -> (f: Seq<(int, int)>)
    ensures
        ({
            let uls = tl_elements_by_class(d.raw, "list-unstyled"@);
            &&& page_children(url, d, ArielPageKind::HomePage) is Some
            &&& page_children(url, d, ArielPageKind::HomePage).unwrap().len() == f.len()
            &&& forall|i: int|
                0 <= i < f.len() ==> listed_course(d, uls, f[i].0, #[trigger] f[i].1)
                    && page_children(url, d, ArielPageKind::HomePage).unwrap()[i] == d.href[f[i].1].unwrap().unwrap()
            &&& forall|i: int, k: int| 0 <= i < k < f.len() ==> comes_before(#[trigger] f[i], #[trigger] f[k])
            &&& forall|a: int, j: int|
                #[trigger] listed_course(d, uls, a, j) ==> exists|i: int| 0 <= i < f.len() && f[i] == (a, j)
        }),
{
    let uls = tl_elements_by_class(d.raw, "list-unstyled"@);
    lemma_course_links_over(d, uls, uls.len() as int)
}

} // verus!
