//! The pages of Ariel, and what is read from them.

use vstd::prelude::*;

use crate::html::{document_of, tl_element_by_id, tl_elements_by_class, Attr, DomView, HtmlDocument};
use crate::links::{url_join, url_join_spec, url_parse, url_parse_spec};
use crate::pattern::{regex_captures, regex_captures_spec, regex_is_match, regex_is_match_spec, snake_case, snake_case_spec};
use crate::text::{decimal_i32, decimal_i32_exec, last_index_of, last_index_of_exec, prefix_to, suffix_after, concat, replace_all, replace_exec, lowercase_of, seq_contains, text_contains, text_eq, to_lowercase_exec, trim, trim_exec};

verus! {

/// Why a page could not be read.
#[derive(Clone, Copy, PartialEq, Eq, Debug)]
pub enum PageError {
    /// The markup could not be parsed, or the parser's answers did not fit
    /// together.
    Markup,
    /// The login form was sent back with an error message.
    LoginRejected,
}

/// The marker that the login form carries in its markup: `cvLogin`.
pub open spec fn login_marker() -> Seq<u8> {
    seq![0x63u8, 0x76u8, 0x4cu8, 0x6fu8, 0x67u8, 0x69u8, 0x6eu8]
}

/// `raw` holds `m` at position `i`.
pub open spec fn bytes_at(raw: Seq<u8>, m: Seq<u8>, i: int) -> bool {
    0 <= i && i + m.len() <= raw.len() && raw.subrange(i, i + m.len()) == m
}

/// The login page of Ariel.
pub struct ArielLoginPage {}

/// The page of search results.
pub struct ArielSearchPage {}

/// The node below `h` that shows a login error: a tag of class
/// `text-danger`.
pub open spec fn shows_login_error(d: DomView, h: int) -> bool {
    exists|j: int|
        d.below_start(h) <= j < d.below_end(h) && #[trigger] d.attr_is(j, Attr::Class, "text-danger"@)
}

/// The outcome of a login, read from the page the login form answered with:
/// rejected where the element of id `cvLogin` holds, below it, a tag of
/// class `text-danger`.
pub open spec fn login_outcome(raw: Seq<char>) -> Result<(), PageError> {
    match document_of(raw) {
        None => Err(PageError::Markup),
        Some(d) => match tl_element_by_id(raw, "cvLogin"@) {
            None => Ok(()),
            Some(h) => if h >= d.len() {
                Err(PageError::Markup)
            } else if shows_login_error(d, h as int) {
                Err(PageError::LoginRejected)
            } else {
                Ok(())
            },
        },
    }
}

impl ArielLoginPage {
    /// Whether a response body is the login page, which Ariel serves in place
    /// of a resource while the session is not logged in: whether the bytes
    /// `cvLogin` occur in it. (A window of bytes read as lossy UTF-8 equals
    /// that ASCII text exactly when its bytes are those of the text.)
    pub fn is_login_page_raw(raw: &[u8]) -> (r: bool)
        ensures
            r == exists|i: int| #[trigger] bytes_at(raw@, login_marker(), i),
    {
        let marker: [u8; 7] = [0x63u8, 0x76u8, 0x4cu8, 0x6fu8, 0x67u8, 0x69u8, 0x6eu8];
        assert(marker@ =~= login_marker());
        let n = raw.len();
        if n < 7 {
            assert forall|i: int| !#[trigger] bytes_at(raw@, login_marker(), i) by {}
            return false;
        }
        let mut i: usize = 0;
        while i <= n - 7
            invariant
                n >= 7,
                n == raw@.len(),
                marker@ == login_marker(),
                forall|j: int| 0 <= j < i ==> !#[trigger] bytes_at(raw@, login_marker(), j),
            decreases n - i,
        {
            assert(i + 7 <= n);
            let mut k: usize = 0;
            let mut same = true;
            while k < 7
                invariant
                    i + 7 <= n,
                    n == raw@.len(),
                    k <= 7,
                    same == forall|m: int| 0 <= m < k ==> raw@[i + m] == marker@[m],
                decreases 7 - k,
            {
                if raw[i + k] != marker[k] {
                    same = false;
                }
                k = k + 1;
            }
            if same {
                assert(raw@.subrange(i as int, i + 7) =~= login_marker());
                assert(bytes_at(raw@, login_marker(), i as int));
                return true;
            }
            assert(!bytes_at(raw@, login_marker(), i as int)) by {
                let m = choose|m: int| 0 <= m < 7 && raw@[i + m] != marker@[m];
                assert(raw@.subrange(i as int, i + 7)[m] == raw@[i + m]);
            }
            i = i + 1;
        }
        assert forall|j: int| !#[trigger] bytes_at(raw@, login_marker(), j) by {
            if 0 <= j < i {
            }
        }
        false
    }

    /// Reads the page that the login form answered with: an error where the
    /// form shows that the credentials were refused.
    pub fn is_logged_in(raw: String) -> (r: Result<(), PageError>)
        ensures
            r == login_outcome(raw@),
            raw@.len() * 4 <= u32::MAX ==> r != Err::<(), PageError>(PageError::Markup),
    {
        let ghost source = raw@;
        let doc = match HtmlDocument::parse(raw) {
            Some(d) => d,
            None => return Err(PageError::Markup),
        };
        assert(doc@.raw == source);
        match doc.element_by_id("cvLogin") {
            None => Ok(()),
            Some(h) => {
                if h >= doc.len() {
                    return Err(PageError::Markup);
                }
                let (s, e) = doc.below(h);
                let mut j = s;
                while j < e
                    invariant
                        source == raw@,
                        document_of(source) == Some(doc@),
                        tl_element_by_id(source, "cvLogin"@) == Some(h),
                        h < doc@.len(),
                        s == doc@.below_start(h as int),
                        e == doc@.below_end(h as int),
                        s <= j <= e <= doc@.len(),
                        forall|k: int| s <= k < j ==> !#[trigger] doc@.attr_is(k, Attr::Class, "text-danger"@),
                    decreases e - j,
                {
                    if doc.attr_is(j, Attr::Class, "text-danger") {
                        assert(shows_login_error(doc@, h as int));
                        return Err(PageError::LoginRejected);
                    }
                    j = j + 1;
                }
                Ok(())
            },
        }
    }
}

/// A course (a "site") as the search page lists it.
pub struct ArielTitlePage {
    pub title: String,
    pub url: String,
    pub holders: Vec<String>,
    pub can_access: bool,
}

/// A course as plain values.
pub struct TitlePageView {
    pub title: Seq<char>,
    pub url: Seq<char>,
    pub holders: Seq<Seq<char>>,
    pub can_access: bool,
}

impl View for ArielTitlePage {
    type V = TitlePageView;

    open spec fn view(&self) -> TitlePageView {
        TitlePageView {
            title: self.title@,
            url: self.url@,
            holders: self.holders.deep_view(),
            can_access: self.can_access,
        }
    }
}

/// The views of a list of courses.
pub open spec fn title_page_views(v: Seq<ArielTitlePage>) -> Seq<TitlePageView> {
    v.map_values(|p: ArielTitlePage| p@)
}

/// The value of an attribute that may be missing, as the search page reads
/// it: the empty text where it is missing; `None` where it is present
/// without a value (reading it then fails).
pub open spec fn attr_or_empty(v: Option<Option<Seq<char>>>) -> Option<Seq<char>> {
    match v {
        None => Some(Seq::empty()),
        Some(Some(x)) => Some(x),
        Some(None) => None,
    }
}

/// What has been read of a course: its link, its title, its holders, and
/// whether it is open to the user.
pub type ProjectState = (Seq<char>, Seq<char>, Seq<Seq<char>>, bool);

/// The pattern by which a link leads to a teacher's page.
pub open spec fn teacher_pattern() -> Seq<char> {
    ".*teacher.*"@
}

/// One node below a course entry read into the state: the link of class
/// `ariel` gives the title and the address, a link that matches the teacher
/// pattern is a holder, a tag of class `bg-tag-success` marks the course as
/// open. `None` where reading fails.
pub open spec fn project_step(d: DomView, j: int, st: ProjectState) -> Option<ProjectState> {
    if !d.is_tag(j) {
        Some(st)
    } else {
        let c = attr_or_empty(d.class[j]);
        let h = attr_or_empty(d.href[j]);
        if c is None || h is None {
            None
        } else if c.unwrap() == "ariel"@ {
            Some((h.unwrap(), d.texts[j], st.2, st.3))
        } else {
            match regex_is_match_spec(teacher_pattern(), h.unwrap()) {
                None => None,
                Some(true) => Some((st.0, st.1, st.2.push(h.unwrap()), st.3)),
                Some(false) => if c.unwrap() == "bg-tag-success"@ {
                    Some((st.0, st.1, st.2, true))
                } else {
                    Some(st)
                },
            }
        }
    }
}

/// The state after reading the nodes `[lo, hi)`.
pub open spec fn project_scan(d: DomView, lo: int, hi: int) -> Option<ProjectState>
    decreases hi - lo,
{
    if hi <= lo {
        Some((Seq::empty(), Seq::empty(), Seq::empty(), false))
    } else {
        match project_scan(d, lo, hi - 1) {
            None => None,
            Some(st) => project_step(d, hi - 1, st),
        }
    }
}

/// The course of the entry at node `h`: the nodes below it read in order,
/// the link parsed as a URL. `None` where reading fails.
pub open spec fn project_of(d: DomView, h: int) -> Option<TitlePageView> {
    if h < 0 || h >= d.len() {
        None
    } else {
        match project_scan(d, d.below_start(h), d.below_end(h)) {
            None => None,
            Some(st) => match url_parse_spec(st.0) {
                None => None,
                Some(u) => Some(TitlePageView { title: st.1, url: u, holders: st.2, can_access: st.3 }),
            },
        }
    }
}

/// The courses of the first `k` entries.
pub open spec fn projects_of(d: DomView, hs: Seq<usize>, k: int) -> Option<Seq<TitlePageView>>
    decreases k,
{
    if k <= 0 {
        Some(Seq::empty())
    } else {
        match (projects_of(d, hs, k - 1), project_of(d, hs[k - 1] as int)) {
            (Some(a), Some(p)) => Some(a.push(p)),
            _ => None,
        }
    }
}

/// The courses that a search page lists: one per element of class
/// `ariel-project`, in the order the parser lists them. `None` where the page
/// cannot be read so.
pub open spec fn search_results(raw: Seq<char>) -> Option<Seq<TitlePageView>> {
    match document_of(raw) {
        None => None,
        Some(d) => {
            let hs = tl_elements_by_class(raw, "ariel-project"@);
            projects_of(d, hs, hs.len() as int)
        },
    }
}

fn attr_value_or_empty(v: &Option<Option<String>>) -> (r: Option<String>)
    ensures
        r.deep_view() == attr_or_empty(v.deep_view()),
{
    match v {
        None => Some(String::new()),
        Some(Some(x)) => Some(x.clone()),
        Some(None) => None,
    }
}

fn read_project(doc: &HtmlDocument, h: usize) -> (r: Option<ArielTitlePage>)
    ensures
        r matches Some(p) ==> project_of(doc@, h as int) == Some(p@),
        r is None ==> project_of(doc@, h as int) is None,
{
    if h >= doc.len() {
        return None;
    }
    let (s, e) = doc.below(h);
    let mut url = String::new();
    let mut title = String::new();
    let mut holders: Vec<String> = Vec::new();
    let mut can_access = false;
    let mut j = s;
    while j < e
        invariant
            h < doc@.len(),
            s == doc@.below_start(h as int),
            e == doc@.below_end(h as int),
            s <= j <= e <= doc@.len(),
            project_scan(doc@, s as int, j as int) == Some(
                (url@, title@, holders.deep_view(), can_access),
            ),
        decreases e - j,
    {
        if doc.is_tag(j) {
            let c = match attr_value_or_empty(doc.attr(Attr::Class, j)) {
                Some(c) => c,
                None => {
                    proof {
                        lemma_scan_none_stays(doc@, s as int, j + 1, e as int);
                    }
                    return None;
                },
            };
            let hv = match attr_value_or_empty(doc.attr(Attr::Href, j)) {
                Some(hv) => hv,
                None => {
                    proof {
                        lemma_scan_none_stays(doc@, s as int, j + 1, e as int);
                    }
                    return None;
                },
            };
            if text_eq(c.as_str(), "ariel") {
                title = doc.text(j).clone();
                url = hv;
            } else {
                match regex_is_match(".*teacher.*", hv.as_str()) {
                    None => {
                        proof {
                            lemma_scan_none_stays(doc@, s as int, j + 1, e as int);
                        }
                        return None;
                    },
                    Some(true) => {
                        let ghost before = holders.deep_view();
                        holders.push(hv);
                        assert(holders.deep_view() =~= before.push(hv@));
                    },
                    Some(false) => {
                        if text_eq(c.as_str(), "bg-tag-success") {
                            can_access = true;
                        }
                    },
                }
            }
        }
        j = j + 1;
    }
    match url_parse(url.as_str()) {
        None => None,
        Some(u) => Some(ArielTitlePage { title, url: u, holders, can_access }),
    }
}

proof fn lemma_scan_none_stays(d: DomView, lo: int, k: int, m: int)
    requires
        lo <= k <= m,
        project_scan(d, lo, k) is None,
    ensures
        project_scan(d, lo, m) is None,
    decreases m - k,
{
    if k < m {
        lemma_scan_none_stays(d, lo, k, m - 1);
    }
}

fn search_results_exec(raw: &String) -> (r: Option<Vec<ArielTitlePage>>)
    ensures
        r matches Some(v) ==> search_results(raw@) == Some(title_page_views(v@)),
        r is None ==> search_results(raw@) is None,
{
    let doc = match HtmlDocument::parse(raw.clone()) {
        Some(d) => d,
        None => return None,
    };
    assert(doc@.raw == raw@);
    let hs = doc.elements_by_class("ariel-project");
    let mut res: Vec<ArielTitlePage> = Vec::new();
    let mut k: usize = 0;
    while k < hs.len()
        invariant
            document_of(raw@) == Some(doc@),
            hs@ == tl_elements_by_class(raw@, "ariel-project"@),
            k <= hs@.len(),
            projects_of(doc@, hs@, k as int) == Some(title_page_views(res@)),
        decreases hs@.len() - k,
    {
        match read_project(&doc, hs[k]) {
            None => {
                assert(projects_of(doc@, hs@, (k + 1) as int) is None);
                proof {
                    lemma_projects_none_stays(doc@, hs@, k + 1, hs@.len() as int);
                }
                return None;
            },
            Some(p) => {
                let ghost before = res@;
                res.push(p);
                assert(title_page_views(res@) =~= title_page_views(before).push(p@));
            },
        }
        k = k + 1;
    }
    Some(res)
}

proof fn lemma_projects_none_stays(d: DomView, hs: Seq<usize>, k: int, m: int)
    requires
        0 <= k <= m,
        projects_of(d, hs, k) is None,
    ensures
        projects_of(d, hs, m) is None,
    decreases m - k,
{
    if k < m {
        lemma_projects_none_stays(d, hs, k, m - 1);
    }
}

impl ArielSearchPage {
    /// The courses that a search page lists, where the page can be read so
    /// (see `search_results`); `None` otherwise.
    pub fn try_title_pages(raw: String) -> (r: Option<Vec<ArielTitlePage>>)
        ensures
            r matches Some(v) ==> search_results(raw@) == Some(title_page_views(v@)),
            r is None ==> search_results(raw@) is None,
    {
        match search_results_exec(&raw) {
            Some(_) => Some(Self::title_pages(raw)),
            None => None,
        }
    }

    /// The courses that a search page lists: one per element of class
    /// `ariel-project`, in order, each with its title and address (from its
    /// link of class `ariel`), its holders (the links that match
    /// `.*teacher.*`) and whether it is open to the user (a tag of class
    /// `bg-tag-success`).
    pub fn title_pages(raw: String) -> (r: Vec<ArielTitlePage>)
        requires
            search_results(raw@) is Some,
        ensures
            search_results(raw@) == Some(title_page_views(r@)),
    {
        match search_results_exec(&raw) {
            Some(v) => v,
            None => Vec::new(),
        }
    }
}

/// What kind of page of Ariel a page is.
#[derive(Clone, Copy, PartialEq, Eq, Debug)]
pub enum ArielPageKind {
    /// The home page of Ariel, listing the courses.
    HomePage,
    /// The home page of a course.
    SiteHomePage,
    /// A room ("ambient") of a course, with its threads.
    SiteAmbient,
    /// Any other page.
    Unknown,
}

/// A page of Ariel: its address, its parsed markup, and its kind.
pub struct ArielPage {
    pub url: String,
    pub soup: HtmlDocument,
    pub kind: ArielPageKind,
}

/// The first node in `[lo, hi)` that is a tag of class `active`.
pub open spec fn first_active(d: DomView, lo: int, hi: int) -> Option<int>
    decreases hi - lo,
{
    if hi <= lo {
        None
    } else {
        match first_active(d, lo, hi - 1) {
            Some(j) => Some(j),
            None => if d.attr_is(hi - 1, Attr::Class, "active"@) {
                Some(hi - 1)
            } else {
                None
            },
        }
    }
}

/// The kind that an active entry of a course's menu shows: its text, in
/// lower case, names the home page or the contents.
pub open spec fn site_kind_step(d: DomView, j: int, k: ArielPageKind) -> ArielPageKind {
    if d.attr_is(j, Attr::Class, "active"@) {
        let low = lowercase_of(d.texts[j]);
        if seq_contains(low, "home"@) {
            ArielPageKind::SiteHomePage
        } else if seq_contains(low, "conten"@) {
            ArielPageKind::SiteAmbient
        } else {
            k
        }
    } else {
        k
    }
}

/// The kind after reading the entries `[lo, hi)` of a menu, from `k0`.
pub open spec fn site_kind_scan(d: DomView, lo: int, hi: int, k0: ArielPageKind) -> ArielPageKind
    decreases hi - lo,
{
    if hi <= lo {
        k0
    } else {
        site_kind_step(d, hi - 1, site_kind_scan(d, lo, hi - 1, k0))
    }
}

/// The kind after reading the first `m` menus `uls`.
pub open spec fn site_kind_over(d: DomView, uls: Seq<usize>, m: int) -> ArielPageKind
    decreases m,
{
    if m <= 0 {
        ArielPageKind::Unknown
    } else {
        let k = site_kind_over(d, uls, m - 1);
        let ul = uls[m - 1] as int;
        if ul < d.len() {
            site_kind_scan(d, d.below_start(ul), d.below_end(ul), k)
        } else {
            k
        }
    }
}

/// The kind of a page: the home page where the navigation bar `bs-navbar`
/// has an active entry that reads `Home`; where it has none, a course page
/// (one with a project title) is a course home page or a room as its active
/// menu entries say, the last one deciding.
pub open spec fn page_kind(d: DomView) -> ArielPageKind {
    match tl_element_by_id(d.raw, "bs-navbar"@) {
        Some(nav) => if (nav as int) < d.len() {
            match first_active(d, d.below_start(nav as int), d.below_end(nav as int)) {
                Some(c) => if seq_contains(d.texts[c], "Home"@) {
                    ArielPageKind::HomePage
                } else {
                    ArielPageKind::Unknown
                },
                None => ArielPageKind::Unknown,
            }
        } else {
            ArielPageKind::Unknown
        },
        None => if tl_element_by_id(d.raw, "ctl24_lblProjectTitle"@) is Some {
            let uls = tl_elements_by_class(d.raw, "navbar-nav"@);
            site_kind_over(d, uls, uls.len() as int)
        } else {
            ArielPageKind::Unknown
        },
    }
}

/// The title of a course: the trimmed text of its element
/// `ctl24_lblProjectTitle`, or the empty text.
pub open spec fn site_title(d: DomView) -> Seq<char> {
    match tl_element_by_id(d.raw, "ctl24_lblProjectTitle"@) {
        Some(h) => if (h as int) < d.len() {
            trim(d.texts[h as int])
        } else {
            Seq::empty()
        },
        None => Seq::empty(),
    }
}

/// The title of a room, from the first `m` elements `hs` of class
/// `arielTitle`: the trimmed texts of those that are `h1` tags, joined by
/// ` - `.
pub open spec fn ambient_title(d: DomView, hs: Seq<usize>, m: int) -> Seq<char>
    decreases m,
{
    if m <= 0 {
        Seq::empty()
    } else {
        let acc = ambient_title(d, hs, m - 1);
        let h = hs[m - 1] as int;
        if h < d.len() && d.tag_is(h, "h1"@) {
            let pt = trim(d.texts[h]);
            (if acc.len() > 0 {
                acc + " - "@
            } else {
                acc
            }) + trim(pt)
        } else {
            acc
        }
    }
}

/// The title of a page of the given kind.
pub open spec fn page_title(url: Seq<char>, d: DomView, kind: ArielPageKind) -> Seq<char> {
    match kind {
        ArielPageKind::HomePage => "Ariel"@,
        ArielPageKind::SiteHomePage => site_title(d),
        ArielPageKind::SiteAmbient => {
            let hs = tl_elements_by_class(d.raw, "arielTitle"@);
            ambient_title(d, hs, hs.len() as int)
        },
        ArielPageKind::Unknown => "Unknown ("@ + url + ")"@,
    }
}

#[verifier::loop_isolation(false)]
fn find_active(doc: &HtmlDocument, lo: usize, hi: usize) -> (r: Option<usize>)
    requires
        lo <= hi <= doc@.len(),
    ensures
        r matches Some(j) ==> first_active(doc@, lo as int, hi as int) == Some(j as int) && j
            < hi,
        r is None ==> first_active(doc@, lo as int, hi as int) is None,
{
    let mut j = lo;
    while j < hi
        invariant
            lo <= j <= hi,
            first_active(doc@, lo as int, j as int) is None,
        decreases hi - j,
    {
        if doc.attr_is(j, Attr::Class, "active") {
            proof {
                lemma_first_active_stays(doc@, lo as int, j + 1, hi as int);
            }
            return Some(j);
        }
        j = j + 1;
    }
    None
}

proof fn lemma_first_active_stays(d: DomView, lo: int, k: int, m: int)
    requires
        lo <= k <= m,
        first_active(d, lo, k) is Some,
    ensures
        first_active(d, lo, m) == first_active(d, lo, k),
    decreases m - k,
{
    if k < m {
        lemma_first_active_stays(d, lo, k, m - 1);
    }
}

#[verifier::loop_isolation(false)]
fn kind_of(doc: &HtmlDocument) -> (r: ArielPageKind)
    ensures
        r == page_kind(doc@),
{
    let n = doc.len();
    match doc.element_by_id("bs-navbar") {
        Some(nav) => {
            if nav >= n {
                return ArielPageKind::Unknown;
            }
            let (s, e) = doc.below(nav);
            match find_active(doc, s, e) {
                Some(c) => {
                    if text_contains(doc.text(c).as_str(), "Home") {
                        ArielPageKind::HomePage
                    } else {
                        ArielPageKind::Unknown
                    }
                },
                None => ArielPageKind::Unknown,
            }
        },
        None => {
            if doc.element_by_id("ctl24_lblProjectTitle").is_none() {
                return ArielPageKind::Unknown;
            }
            let uls = doc.elements_by_class("navbar-nav");
            let mut kind = ArielPageKind::Unknown;
            let mut m: usize = 0;
            while m < uls.len()
                invariant
                    m <= uls@.len(),
                    kind == site_kind_over(doc@, uls@, m as int),
                decreases uls@.len() - m,
            {
                let ul = uls[m];
                if ul < n {
                    let (s, e) = doc.below(ul);
                    let ghost k0 = kind;
                    let mut j = s;
                    while j < e
                        invariant
                            s <= j <= e,
                            kind == site_kind_scan(doc@, s as int, j as int, k0),
                        decreases e - j,
                    {
                        if doc.attr_is(j, Attr::Class, "active") {
                            let low = to_lowercase_exec(doc.text(j).as_str());
                            if text_contains(low.as_str(), "home") {
                                kind = ArielPageKind::SiteHomePage;
                            } else if text_contains(low.as_str(), "conten") {
                                kind = ArielPageKind::SiteAmbient;
                            }
                        }
                        j = j + 1;
                    }
                }
                m = m + 1;
            }
            kind
        },
    }
}

#[verifier::loop_isolation(false)]
fn ambient_title_exec(doc: &HtmlDocument) -> (r: String)
    ensures
        r@ == ({
            let hs = tl_elements_by_class(doc@.raw, "arielTitle"@);
            ambient_title(doc@, hs, hs.len() as int)
        }),
{
    let n = doc.len();
    let hs = doc.elements_by_class("arielTitle");
    let mut acc = String::new();
    let mut m: usize = 0;
    while m < hs.len()
        invariant
            m <= hs@.len(),
            acc@ == ambient_title(doc@, hs@, m as int),
        decreases hs@.len() - m,
    {
        let h = hs[m];
        if h < n && doc.tag_is(h, "h1") {
            let pt = trim_exec(doc.text(h).as_str());
            if !acc.as_str().is_empty() {
                acc = concat(acc.as_str(), " - ");
            }
            let t = trim_exec(pt.as_str());
            acc = concat(acc.as_str(), t.as_str());
        }
        m = m + 1;
    }
    acc
}

impl ArielPage {
    /// Reads a page of Ariel from its markup and its address. An error where
    /// the markup cannot be parsed, which cannot happen to markup of at most
    /// `u32::MAX` bytes.
    pub fn from_raw(raw: String, url: String) -> (r: Result<ArielPage, PageError>)
        ensures
            r is Ok <==> document_of(raw@) is Some,
            raw@.len() * 4 <= u32::MAX ==> r is Ok,
            r matches Ok(p) ==> {
                &&& p.url@ == url@
                &&& p.soup@ == document_of(raw@).unwrap()
                &&& p.kind == page_kind(p.soup@)
            },
    {
        let doc = match HtmlDocument::parse(raw) {
            Some(d) => d,
            None => return Err(PageError::Markup),
        };
        let kind = kind_of(&doc);
        Ok(ArielPage { url, soup: doc, kind })
    }

    /// The title of the page: `Ariel` for the home page, the course's title
    /// for a course home page, the room's headings for a room, and
    /// `Unknown (<address>)` otherwise.
    pub fn get_title(&self) -> (r: String)
        ensures
            r@ == page_title(self.url@, self.soup@, self.kind),
    {
        match self.kind {
            ArielPageKind::HomePage => "Ariel".to_owned(),
            ArielPageKind::SiteHomePage => self.get_site_name(),
            ArielPageKind::SiteAmbient => ambient_title_exec(&self.soup),
            ArielPageKind::Unknown => {
                let a = concat("Unknown (", self.url.as_str());
                concat(a.as_str(), ")")
            },
        }
    }

    /// The title of the course the page belongs to: the trimmed text of its
    /// element `ctl24_lblProjectTitle`, or the empty text.
    pub fn get_site_name(&self) -> (r: String)
        ensures
            r@ == site_title(self.soup@),
    {
        match self.soup.element_by_id("ctl24_lblProjectTitle") {
            Some(h) => {
                if h < self.soup.len() {
                    trim_exec(self.soup.text(h).as_str())
                } else {
                    String::new()
                }
            },
            None => String::new(),
        }
    }

    /// The page as it is shown: `[<course>] - <title>`.
    pub fn to_display_string(&self) -> (r: String)
        ensures
            r@ == "["@ + site_title(self.soup@) + "] - "@ + page_title(
                self.url@,
                self.soup@,
                self.kind,
            ),
    {
        let site = self.get_site_name();
        let title = self.get_title();
        let a = concat("[", site.as_str());
        let b = concat(a.as_str(), "] - ");
        concat(b.as_str(), title.as_str())
    }
}

/// The link of node `j` to a course, as the home page lists it: the address
/// of a tag whose `href` leads to `ariel.ctu.unimi.it`.
pub open spec fn course_link(d: DomView, j: int) -> Option<Seq<char>> {
    match d.href[j] {
        Some(Some(h)) => if d.is_tag(j) && seq_contains(h, "ariel.ctu.unimi.it"@) {
            Some(h)
        } else {
            None
        },
        _ => None,
    }
}

/// The course links among the nodes `[lo, hi)`, in order.
pub open spec fn course_links_in(d: DomView, lo: int, hi: int) -> Seq<Seq<char>>
    decreases hi - lo,
{
    if hi <= lo {
        Seq::empty()
    } else {
        course_links_in(d, lo, hi - 1) + match course_link(d, hi - 1) {
            Some(h) => seq![h],
            None => Seq::empty(),
        }
    }
}

/// The course links below the first `m` lists `uls`, in order.
pub open spec fn course_links_over(d: DomView, uls: Seq<usize>, m: int) -> Seq<Seq<char>>
    decreases m,
{
    if m <= 0 {
        Seq::empty()
    } else {
        let ul = uls[m - 1] as int;
        course_links_over(d, uls, m - 1) + if ul < d.len() {
            course_links_in(d, d.below_start(ul), d.below_end(ul))
        } else {
            Seq::empty()
        }
    }
}

/// The link of node `j` to the contents of a course: the address of a tag
/// whose `href` holds `toolName=conten`.
pub open spec fn contents_link(d: DomView, j: int) -> Option<Seq<char>> {
    match d.href[j] {
        Some(Some(h)) => if d.is_tag(j) && seq_contains(h, "toolName=conten"@) {
            Some(h)
        } else {
            None
        },
        _ => None,
    }
}

/// The first contents link among the nodes `[lo, hi)`.
pub open spec fn first_contents_link(d: DomView, lo: int, hi: int) -> Option<Seq<char>>
    decreases hi - lo,
{
    if hi <= lo {
        None
    } else {
        match first_contents_link(d, lo, hi - 1) {
            Some(h) => Some(h),
            None => contents_link(d, hi - 1),
        }
    }
}

/// The first contents link below an `li` tag among the nodes `[lo, hi)`.
pub open spec fn first_contents_item(d: DomView, lo: int, hi: int) -> Option<Seq<char>>
    decreases hi - lo,
{
    if hi <= lo {
        None
    } else {
        match first_contents_item(d, lo, hi - 1) {
            Some(h) => Some(h),
            None => {
                let c = hi - 1;
                if d.tag_is(c, "li"@) {
                    first_contents_link(d, d.below_start(c), d.below_end(c))
                } else {
                    None
                }
            },
        }
    }
}

/// The first contents link in the first `m` menus `uls`.
pub open spec fn first_contents_over(d: DomView, uls: Seq<usize>, m: int) -> Option<Seq<char>>
    decreases m,
{
    if m <= 0 {
        None
    } else {
        match first_contents_over(d, uls, m - 1) {
            Some(h) => Some(h),
            None => {
                let ul = uls[m - 1] as int;
                if ul < d.len() {
                    first_contents_item(d, d.below_start(ul), d.below_end(ul))
                } else {
                    None
                }
            },
        }
    }
}

/// The link of node `j` to a thread of a room: for an `a` tag with an
/// `href`, that address without `amp;`, where it holds `ThreadList`, joined
/// to the page's address (`Some(None)` where joining fails).
pub open spec fn thread_link(base: Seq<char>, d: DomView, j: int) -> Option<Option<Seq<char>>> {
    match d.href[j] {
        Some(Some(h)) => {
            let h2 = replace_all(h, "amp;"@, ""@);
            if d.tag_is(j, "a"@) && seq_contains(h2, "ThreadList"@) {
                Some(url_join_spec(base, h2))
            } else {
                None
            }
        },
        _ => None,
    }
}

/// The thread links among the nodes `[lo, hi)`; `None` where joining one
/// fails.
pub open spec fn thread_links_in(base: Seq<char>, d: DomView, lo: int, hi: int) -> Option<
    Seq<Seq<char>>,
>
    decreases hi - lo,
{
    if hi <= lo {
        Some(Seq::empty())
    } else {
        match thread_links_in(base, d, lo, hi - 1) {
            None => None,
            Some(a) => match thread_link(base, d, hi - 1) {
                None => Some(a),
                Some(None) => None,
                Some(Some(u)) => Some(a.push(u)),
            },
        }
    }
}

/// The addresses of the pages below a page: for the home page, the course
/// links of its lists `list-unstyled`; for a course home page, its first
/// contents link (joined to its address); for a room, its thread links below
/// `roomList`; none otherwise. `None` where joining an address fails.
pub open spec fn page_children(url: Seq<char>, d: DomView, kind: ArielPageKind) -> Option<
    Seq<Seq<char>>,
> {
    match kind {
        ArielPageKind::HomePage => {
            let uls = tl_elements_by_class(d.raw, "list-unstyled"@);
            Some(course_links_over(d, uls, uls.len() as int))
        },
        ArielPageKind::SiteHomePage => {
            let uls = tl_elements_by_class(d.raw, "navbar-nav"@);
            match first_contents_over(d, uls, uls.len() as int) {
                None => Some(Seq::empty()),
                Some(h) => match url_join_spec(url, h) {
                    Some(u) => Some(seq![u]),
                    None => None,
                },
            }
        },
        ArielPageKind::SiteAmbient => match tl_element_by_id(d.raw, "roomList"@) {
            Some(rl) => if (rl as int) < d.len() {
                thread_links_in(url, d, d.below_start(rl as int), d.below_end(rl as int))
            } else {
                Some(Seq::empty())
            },
            None => Some(Seq::empty()),
        },
        ArielPageKind::Unknown => Some(Seq::empty()),
    }
}

fn href_of(doc: &HtmlDocument, j: usize) -> (r: Option<String>)
    requires
        j < doc@.len(),
    ensures
        r.deep_view() == (match doc@.href[j as int] {
            Some(Some(h)) => Some(h),
            _ => None,
        }),
{
    match doc.attr(Attr::Href, j) {
        Some(Some(h)) => Some(h.clone()),
        _ => None,
    }
}

#[verifier::loop_isolation(false)]
fn course_links(doc: &HtmlDocument) -> (r: Vec<String>)
    ensures
        r.deep_view() == ({
            let uls = tl_elements_by_class(doc@.raw, "list-unstyled"@);
            course_links_over(doc@, uls, uls.len() as int)
        }),
{
    let n = doc.len();
    let uls = doc.elements_by_class("list-unstyled");
    let mut res: Vec<String> = Vec::new();
    let mut m: usize = 0;
    while m < uls.len()
        invariant
            m <= uls@.len(),
            res.deep_view() == course_links_over(doc@, uls@, m as int),
        decreases uls@.len() - m,
    {
        let ul = uls[m];
        let ghost before = res.deep_view();
        if ul < n {
            let (s, e) = doc.below(ul);
            let mut j = s;
            while j < e
                invariant
                    s <= j <= e,
                    res.deep_view() == before + course_links_in(doc@, s as int, j as int),
                decreases e - j,
            {
                let ghost mid = res.deep_view();
                if doc.is_tag(j) {
                    match href_of(doc, j) {
                        Some(h) => {
                            if text_contains(h.as_str(), "ariel.ctu.unimi.it") {
                                res.push(h);
                            }
                        },
                        None => {},
                    }
                }
                assert(res.deep_view() =~= mid + match course_link(doc@, j as int) {
                    Some(h) => seq![h],
                    None => Seq::empty(),
                });
                assert(before + course_links_in(doc@, s as int, j + 1) =~= before
                    + course_links_in(doc@, s as int, j as int) + match course_link(doc@, j as int) {
                    Some(h) => seq![h],
                    None => Seq::empty(),
                });
                j = j + 1;
            }
        } else {
            assert(res.deep_view() =~= before + Seq::<Seq<char>>::empty());
        }
        m = m + 1;
    }
    res
}

#[verifier::loop_isolation(false)]
fn first_contents(doc: &HtmlDocument) -> (r: Option<String>)
    ensures
        r.deep_view() == ({
            let uls = tl_elements_by_class(doc@.raw, "navbar-nav"@);
            first_contents_over(doc@, uls, uls.len() as int)
        }),
{
    let n = doc.len();
    let uls = doc.elements_by_class("navbar-nav");
    let mut found: Option<String> = None;
    let mut m: usize = 0;
    while m < uls.len()
        invariant
            m <= uls@.len(),
            found.deep_view() == first_contents_over(doc@, uls@, m as int),
        decreases uls@.len() - m,
    {
        let ul = uls[m];
        if found.is_none() && ul < n {
            let (s, e) = doc.below(ul);
            let mut item: Option<String> = None;
            let mut c = s;
            while c < e
                invariant
                    s <= c <= e,
                    found is None,
                    item.deep_view() == first_contents_item(doc@, s as int, c as int),
                decreases e - c,
            {
                if item.is_none() && doc.tag_is(c, "li") {
                    let (s2, e2) = doc.below(c);
                    let mut link: Option<String> = None;
                    let mut k = s2;
                    while k < e2
                        invariant
                            s2 <= k <= e2,
                            item is None,
                            link.deep_view() == first_contents_link(doc@, s2 as int, k as int),
                        decreases e2 - k,
                    {
                        if link.is_none() && doc.is_tag(k) {
                            match href_of(doc, k) {
                                Some(h) => {
                                    if text_contains(h.as_str(), "toolName=conten") {
                                        link = Some(h);
                                    }
                                },
                                None => {},
                            }
                        }
                        k = k + 1;
                    }
                    item = link;
                }
                c = c + 1;
            }
            found = item;
        }
        m = m + 1;
    }
    found
}

#[verifier::loop_isolation(false)]
fn thread_links(doc: &HtmlDocument, base: &String) -> (r: Option<Vec<String>>)
    ensures
        r matches Some(v) ==> (match tl_element_by_id(doc@.raw, "roomList"@) {
            Some(rl) => if (rl as int) < doc@.len() {
                thread_links_in(base@, doc@, doc@.below_start(rl as int), doc@.below_end(rl as int))
            } else {
                Some(Seq::empty())
            },
            None => Some(Seq::empty()),
        }) == Some(v.deep_view()),
        r is None ==> (match tl_element_by_id(doc@.raw, "roomList"@) {
            Some(rl) => if (rl as int) < doc@.len() {
                thread_links_in(base@, doc@, doc@.below_start(rl as int), doc@.below_end(rl as int))
            } else {
                Some(Seq::empty())
            },
            None => Some(Seq::empty()),
        }) is None,
{
    let n = doc.len();
    let mut res: Vec<String> = Vec::new();
    let rl = match doc.element_by_id("roomList") {
        Some(rl) => rl,
        None => {
            assert(res.deep_view() =~= Seq::<Seq<char>>::empty());
            return Some(res);
        },
    };
    if rl >= n {
        assert(res.deep_view() =~= Seq::<Seq<char>>::empty());
        return Some(res);
    }
    let (s, e) = doc.below(rl);
    let mut j = s;
    assert(res.deep_view() =~= Seq::<Seq<char>>::empty());
    while j < e
        invariant
            s <= j <= e,
            thread_links_in(base@, doc@, s as int, j as int) == Some(res.deep_view()),
        decreases e - j,
    {
        match href_of(doc, j) {
            Some(h) => {
                proof {
                    reveal_strlit("amp;");
                    reveal_strlit("");
                }
                let h2 = replace_exec(h.as_str(), "amp;", "");
                if doc.tag_is(j, "a") && text_contains(h2.as_str(), "ThreadList") {
                    match url_join(base.as_str(), h2.as_str()) {
                        Some(u) => {
                            let ghost before = res.deep_view();
                            res.push(u);
                            assert(res.deep_view() =~= before.push(u@));
                        },
                        None => {
                            proof {
                                lemma_threads_none_stays(base@, doc@, s as int, j + 1, e as int);
                            }
                            return None;
                        },
                    }
                }
            },
            None => {},
        }
        j = j + 1;
    }
    Some(res)
}

proof fn lemma_threads_none_stays(base: Seq<char>, d: DomView, lo: int, k: int, m: int)
    requires
        lo <= k <= m,
        thread_links_in(base, d, lo, k) is None,
    ensures
        thread_links_in(base, d, lo, m) is None,
    decreases m - k,
{
    if k < m {
        lemma_threads_none_stays(base, d, lo, k, m - 1);
    }
}

impl ArielPage {
    fn children_checked(&self) -> (r: Option<Vec<String>>)
        ensures
            r matches Some(v) ==> page_children(self.url@, self.soup@, self.kind) == Some(
                v.deep_view(),
            ),
            r is None ==> page_children(self.url@, self.soup@, self.kind) is None,
    {
        match self.kind {
            ArielPageKind::HomePage => Some(course_links(&self.soup)),
            ArielPageKind::SiteHomePage => match first_contents(&self.soup) {
                None => {
                    let v: Vec<String> = Vec::new();
                    assert(v.deep_view() =~= Seq::<Seq<char>>::empty());
                    Some(v)
                },
                Some(h) => match url_join(self.url.as_str(), h.as_str()) {
                    Some(u) => {
                        let mut v: Vec<String> = Vec::new();
                        v.push(u);
                        assert(v.deep_view() =~= seq![u@]);
                        Some(v)
                    },
                    None => None,
                },
            },
            ArielPageKind::SiteAmbient => thread_links(&self.soup, &self.url),
            ArielPageKind::Unknown => {
                let v: Vec<String> = Vec::new();
                assert(v.deep_view() =~= Seq::<Seq<char>>::empty());
                Some(v)
            },
        }
    }

    /// The addresses of the pages below this one (see `page_children`).
    pub fn get_children(&self) -> (r: Vec<String>)
        requires
            page_children(self.url@, self.soup@, self.kind) is Some,
        ensures
            page_children(self.url@, self.soup@, self.kind) == Some(r.deep_view()),
    {
        match self.children_checked() {
            Some(v) => v,
            None => Vec::new(),
        }
    }

    /// The addresses of the pages below this one where they can all be
    /// formed; `None` where joining an address to the page's fails.
    pub fn try_get_children(&self) -> (r: Option<Vec<String>>)
        ensures
            r matches Some(v) ==> page_children(self.url@, self.soup@, self.kind) == Some(
                v.deep_view(),
            ),
            r is None ==> page_children(self.url@, self.soup@, self.kind) is None,
    {
        match self.children_checked() {
            Some(_) => Some(self.get_children()),
            None => None,
        }
    }
}

/// What a resource found on a page is.
#[derive(Clone, Copy, PartialEq, Eq, Debug)]
pub enum ArielPageDataKind {
    /// A recorded lesson, served as an HLS stream.
    LessonStream,
    /// A file.
    Generic,
}

/// A resource found on a page: where it was found, its name, its address
/// and its kind.
pub struct ArielPageData {
    pub from_site: String,
    pub from_ambient: String,
    pub from_thread: String,
    pub name: String,
    pub url: String,
    pub kind: ArielPageDataKind,
}

/// A resource as plain values.
pub struct DataView {
    pub from_site: Seq<char>,
    pub from_ambient: Seq<char>,
    pub from_thread: Seq<char>,
    pub name: Seq<char>,
    pub url: Seq<char>,
    pub kind: ArielPageDataKind,
}

impl View for ArielPageData {
    type V = DataView;

    open spec fn view(&self) -> DataView {
        DataView {
            from_site: self.from_site@,
            from_ambient: self.from_ambient@,
            from_thread: self.from_thread@,
            name: self.name@,
            url: self.url@,
            kind: self.kind,
        }
    }
}

/// The views of a list of resources.
pub open spec fn data_views(v: Seq<ArielPageData>) -> Seq<DataView> {
    v.map_values(|x: ArielPageData| x@)
}

/// The title of a thread as node `j` may give it: the trimmed text of an
/// `h2` tag whose class holds `arielTitle`; else `t` stays.
pub open spec fn thread_title_step(d: DomView, j: int, t: Seq<char>) -> Seq<char> {
    match d.class[j] {
        Some(Some(cl)) => if d.tag_is(j, "h2"@) && seq_contains(cl, "arielTitle"@) {
            trim(d.texts[j])
        } else {
            t
        },
        _ => t,
    }
}

/// The title of a thread whose nodes are `[lo, hi)`: that of the last
/// heading that gives one, or the empty text.
pub open spec fn thread_title(d: DomView, lo: int, hi: int) -> Seq<char>
    decreases hi - lo,
{
    if hi <= lo {
        Seq::empty()
    } else {
        thread_title_step(d, hi - 1, thread_title(d, lo, hi - 1))
    }
}

/// Where a resource is found: the page's address (against which file links
/// are joined), the course, the room and the thread.
pub struct Origin {
    pub base: Seq<char>,
    pub site: Seq<char>,
    pub ambient: Seq<char>,
    pub thread: Seq<char>,
}

/// The resource that node `j` of a thread offers: for a tag whose class
/// holds `filename` and that has an `href`, a file named by its text at
/// that address without `amp;` (joined to the page's); for a tag without a
/// class value, whose `type` holds `video` and that has a `src`, a recorded
/// lesson named `recording_<thread>` at that address. `Some(None)`: none;
/// `None`: its address cannot be formed.
pub open spec fn row_item(o: Origin, d: DomView, j: int) -> Option<Option<DataView>> {
    if !d.is_tag(j) {
        Some(None)
    } else {
        match d.class[j] {
            Some(Some(cl)) => if seq_contains(cl, "filename"@) {
                match d.href[j] {
                    Some(Some(h)) => match url_join_spec(o.base, replace_all(h, "amp;"@, ""@)) {
                        Some(u) => Some(
                            Some(
                                DataView {
                                    from_site: o.site,
                                    from_ambient: o.ambient,
                                    from_thread: o.thread,
                                    name: d.texts[j],
                                    url: u,
                                    kind: ArielPageDataKind::Generic,
                                },
                            ),
                        ),
                        None => None,
                    },
                    _ => Some(None),
                }
            } else {
                Some(None)
            },
            _ => match d.typ[j] {
                Some(Some(ty)) => if seq_contains(ty, "video"@) {
                    match d.src[j] {
                        Some(Some(sv)) => match url_parse_spec(sv) {
                            Some(u) => Some(
                                Some(
                                    DataView {
                                        from_site: o.site,
                                        from_ambient: o.ambient,
                                        from_thread: o.thread,
                                        name: "recording_"@ + o.thread,
                                        url: u,
                                        kind: ArielPageDataKind::LessonStream,
                                    },
                                ),
                            ),
                            None => None,
                        },
                        _ => Some(None),
                    }
                } else {
                    Some(None)
                },
                _ => Some(None),
            },
        }
    }
}

/// The resources that the nodes `[lo, hi)` of a thread offer, in order.
pub open spec fn row_items(o: Origin, d: DomView, lo: int, hi: int) -> Option<Seq<DataView>>
    decreases hi - lo,
{
    if hi <= lo {
        Some(Seq::empty())
    } else {
        match row_items(o, d, lo, hi - 1) {
            None => None,
            Some(a) => match row_item(o, d, hi - 1) {
                None => None,
                Some(None) => Some(a),
                Some(Some(x)) => Some(a.push(x)),
            },
        }
    }
}

/// The resources of the thread (`tr` tag) at node `c`, if it is one.
pub open spec fn thread_items(base: Seq<char>, site: Seq<char>, ambient: Seq<char>, d: DomView, c: int) -> Option<Seq<DataView>> {
    if d.tag_is(c, "tr"@) {
        let lo = d.below_start(c);
        let hi = d.below_end(c);
        let o = Origin { base, site, ambient, thread: thread_title(d, lo, hi) };
        row_items(o, d, lo, hi)
    } else {
        Some(Seq::empty())
    }
}

/// The resources of the threads among the nodes `[lo, hi)`, in order.
pub open spec fn threads_items(base: Seq<char>, site: Seq<char>, ambient: Seq<char>, d: DomView, lo: int, hi: int) -> Option<Seq<DataView>>
    decreases hi - lo,
{
    if hi <= lo {
        Some(Seq::empty())
    } else {
        match threads_items(base, site, ambient, d, lo, hi - 1) {
            None => None,
            Some(a) => match thread_items(base, site, ambient, d, hi - 1) {
                None => None,
                Some(r) => Some(a + r),
            },
        }
    }
}

/// The resources below the first `m` topmost nodes that are `html` tags.
pub open spec fn page_items(base: Seq<char>, site: Seq<char>, ambient: Seq<char>, d: DomView, m: int) -> Option<Seq<DataView>>
    decreases m,
{
    if m <= 0 {
        Some(Seq::empty())
    } else {
        match page_items(base, site, ambient, d, m - 1) {
            None => None,
            Some(a) => {
                let t = d.top[m - 1] as int;
                if t < d.len() && d.tag_is(t, "html"@) {
                    match threads_items(base, site, ambient, d, d.below_start(t), d.below_end(t)) {
                        None => None,
                        Some(r) => Some(a + r),
                    }
                } else {
                    Some(a)
                }
            },
        }
    }
}

/// Whether a resource with address `u` is in `s`.
pub open spec fn has_url(s: Seq<DataView>, u: Seq<char>) -> bool {
    exists|i: int| 0 <= i < s.len() && #[trigger] s[i].url == u
}

/// `s` with every resource dropped whose address an earlier one has.
pub open spec fn first_per_url(s: Seq<DataView>) -> Seq<DataView>
    decreases s.len(),
{
    if s.len() == 0 {
        s
    } else {
        let r = first_per_url(s.drop_last());
        if has_url(r, s.last().url) {
            r
        } else {
            r.push(s.last())
        }
    }
}

/// The resources that a page offers: those of its threads, in order, one per
/// address (the first); every one carries the course's title and the
/// page's. `None` where an address cannot be formed.
pub open spec fn page_data(url: Seq<char>, d: DomView, kind: ArielPageKind) -> Option<Seq<DataView>> {
    match page_items(url, site_title(d), page_title(url, d, kind), d, d.top.len() as int) {
        None => None,
        Some(c) => Some(first_per_url(c)),
    }
}

fn attr_value(doc: &HtmlDocument, a: Attr, j: usize) -> (r: Option<String>)
    requires
        j < doc@.len(),
    ensures
        r.deep_view() == (match doc@.attr(a, j as int) {
            Some(Some(h)) => Some(h),
            _ => None,
        }),
{
    match doc.attr(a, j) {
        Some(Some(h)) => Some(h.clone()),
        _ => None,
    }
}

#[verifier::loop_isolation(false)]
fn thread_title_exec(doc: &HtmlDocument, lo: usize, hi: usize) -> (r: String)
    requires
        lo <= hi <= doc@.len(),
    ensures
        r@ == thread_title(doc@, lo as int, hi as int),
{
    let mut t = String::new();
    let mut j = lo;
    while j < hi
        invariant
            lo <= j <= hi,
            t@ == thread_title(doc@, lo as int, j as int),
        decreases hi - j,
    {
        match attr_value(doc, Attr::Class, j) {
            Some(cl) => {
                if doc.tag_is(j, "h2") && text_contains(cl.as_str(), "arielTitle") {
                    t = trim_exec(doc.text(j).as_str());
                }
            },
            None => {},
        }
        j = j + 1;
    }
    t
}

/// One resource, with copies of where it was found.
fn make_data(base: &ArielPageData, name: String, url: String, kind: ArielPageDataKind) -> (r: ArielPageData)
    ensures
        r@ == (DataView { name: name@, url: url@, kind, ..base@ }),
{
    ArielPageData {
        from_site: base.from_site.clone(),
        from_ambient: base.from_ambient.clone(),
        from_thread: base.from_thread.clone(),
        name,
        url,
        kind,
    }
}

proof fn lemma_rows_none_stays(o: Origin, d: DomView, lo: int, k: int, m: int)
    requires
        lo <= k <= m,
        row_items(o, d, lo, k) is None,
    ensures
        row_items(o, d, lo, m) is None,
    decreases m - k,
{
    if k < m {
        lemma_rows_none_stays(o, d, lo, k, m - 1);
    }
}

#[verifier::loop_isolation(false)]
fn thread_items_exec(doc: &HtmlDocument, base: &String, site: &String, ambient: &String, c: usize) -> (r: Option<Vec<ArielPageData>>)
    requires
        c < doc@.len(),
    ensures
        r matches Some(v) ==> thread_items(base@, site@, ambient@, doc@, c as int) == Some(data_views(v@)),
        r is None ==> thread_items(base@, site@, ambient@, doc@, c as int) is None,
{
    let mut res: Vec<ArielPageData> = Vec::new();
    if !doc.tag_is(c, "tr") {
        assert(data_views(res@) =~= Seq::<DataView>::empty());
        return Some(res);
    }
    let (lo, hi) = doc.below(c);
    let title = thread_title_exec(doc, lo, hi);
    let ghost o = Origin { base: base@, site: site@, ambient: ambient@, thread: title@ };
    let proto = ArielPageData {
        from_site: site.clone(),
        from_ambient: ambient.clone(),
        from_thread: title.clone(),
        name: String::new(),
        url: String::new(),
        kind: ArielPageDataKind::Generic,
    };
    proof {
        reveal_strlit("amp;");
        reveal_strlit("");
    }
    let mut j = lo;
    assert(data_views(res@) =~= Seq::<DataView>::empty());
    while j < hi
        invariant
            lo <= j <= hi,
            row_items(o, doc@, lo as int, j as int) == Some(data_views(res@)),
        decreases hi - j,
    {
        if doc.is_tag(j) {
            match attr_value(doc, Attr::Class, j) {
                Some(cl) => {
                    if text_contains(cl.as_str(), "filename") {
                        match attr_value(doc, Attr::Href, j) {
                            Some(h) => {
                                let h2 = replace_exec(h.as_str(), "amp;", "");
                                match url_join(base.as_str(), h2.as_str()) {
                                    Some(u) => {
                                        let item = make_data(&proto, doc.text(j).clone(), u, ArielPageDataKind::Generic);
                                        let ghost before = res@;
                                        res.push(item);
                                        assert(data_views(res@) =~= data_views(before).push(item@));
                                    },
                                    None => {
                                        proof {
                                            lemma_rows_none_stays(o, doc@, lo as int, j + 1, hi as int);
                                        }
                                        return None;
                                    },
                                }
                            },
                            None => {},
                        }
                    }
                },
                None => {
                    match attr_value(doc, Attr::Type, j) {
                        Some(ty) => {
                            if text_contains(ty.as_str(), "video") {
                                match attr_value(doc, Attr::Src, j) {
                                    Some(sv) => {
                                        match url_parse(sv.as_str()) {
                                            Some(u) => {
                                                let name = concat("recording_", title.as_str());
                                                let item = make_data(&proto, name, u, ArielPageDataKind::LessonStream);
                                                let ghost before = res@;
                                                res.push(item);
                                                assert(data_views(res@) =~= data_views(before).push(item@));
                                            },
                                            None => {
                                                proof {
                                                    lemma_rows_none_stays(o, doc@, lo as int, j + 1, hi as int);
                                                }
                                                return None;
                                            },
                                        }
                                    },
                                    None => {},
                                }
                            }
                        },
                        None => {},
                    }
                },
            }
        }
        j = j + 1;
    }
    Some(res)
}

proof fn lemma_threads_items_none_stays(base: Seq<char>, site: Seq<char>, ambient: Seq<char>, d: DomView, lo: int, k: int, m: int)
    requires
        lo <= k <= m,
        threads_items(base, site, ambient, d, lo, k) is None,
    ensures
        threads_items(base, site, ambient, d, lo, m) is None,
    decreases m - k,
{
    if k < m {
        lemma_threads_items_none_stays(base, site, ambient, d, lo, k, m - 1);
    }
}

proof fn lemma_page_items_none_stays(base: Seq<char>, site: Seq<char>, ambient: Seq<char>, d: DomView, k: int, m: int)
    requires
        0 <= k <= m,
        page_items(base, site, ambient, d, k) is None,
    ensures
        page_items(base, site, ambient, d, m) is None,
    decreases m - k,
{
    if k < m {
        lemma_page_items_none_stays(base, site, ambient, d, k, m - 1);
    }
}

#[verifier::loop_isolation(false)]
fn page_items_exec(doc: &HtmlDocument, base: &String, site: &String, ambient: &String) -> (r: Option<Vec<ArielPageData>>)
    ensures
        r matches Some(v) ==> page_items(base@, site@, ambient@, doc@, doc@.top.len() as int) == Some(data_views(v@)),
        r is None ==> page_items(base@, site@, ambient@, doc@, doc@.top.len() as int) is None,
{
    let n = doc.len();
    let top = doc.top();
    let mut res: Vec<ArielPageData> = Vec::new();
    let mut m: usize = 0;
    assert(data_views(res@) =~= Seq::<DataView>::empty());
    while m < top.len()
        invariant
            m <= top@.len(),
            page_items(base@, site@, ambient@, doc@, m as int) == Some(data_views(res@)),
        decreases top@.len() - m,
    {
        let t = top[m];
        if t < n && doc.tag_is(t, "html") {
            let (lo, hi) = doc.below(t);
            let ghost before = res@;
            let mut c = lo;
            assert(data_views(before) + Seq::<DataView>::empty() =~= data_views(res@));
            while c < hi
                invariant
                    lo <= c <= hi,
                    threads_items(base@, site@, ambient@, doc@, lo as int, c as int) matches Some(q) && data_views(res@) == data_views(before) + q,
                decreases hi - c,
            {
                let ghost q = threads_items(base@, site@, ambient@, doc@, lo as int, c as int).unwrap();
                match thread_items_exec(doc, base, site, ambient, c) {
                    Some(mut v) => {
                        let ghost mid = res@;
                        let ghost vv = v@;
                        res.append(&mut v);
                        assert(data_views(res@) =~= data_views(mid) + data_views(vv));
                        assert(data_views(before) + (q + data_views(vv)) =~= data_views(before) + q + data_views(vv));
                    },
                    None => {
                        proof {
                            lemma_threads_items_none_stays(base@, site@, ambient@, doc@, lo as int, c + 1, hi as int);
                            lemma_page_items_none_stays(base@, site@, ambient@, doc@, m + 1, top@.len() as int);
                        }
                        return None;
                    },
                }
                c = c + 1;
            }
        }
        m = m + 1;
    }
    Some(res)
}

fn copy_data(x: &ArielPageData) -> (r: ArielPageData)
    ensures
        r@ == x@,
{
    ArielPageData {
        from_site: x.from_site.clone(),
        from_ambient: x.from_ambient.clone(),
        from_thread: x.from_thread.clone(),
        name: x.name.clone(),
        url: x.url.clone(),
        kind: x.kind,
    }
}

#[verifier::loop_isolation(false)]
fn first_per_url_exec(items: &Vec<ArielPageData>) -> (r: Vec<ArielPageData>)
    ensures
        data_views(r@) == first_per_url(data_views(items@)),
{
    let ghost all = data_views(items@);
    let n = items.len();
    let mut res: Vec<ArielPageData> = Vec::new();
    let mut k: usize = 0;
    assert(first_per_url(all.subrange(0, 0)) =~= data_views(res@));
    while k < n
        invariant
            k <= n,
            n == all.len(),
            data_views(res@) == first_per_url(all.subrange(0, k as int)),
        decreases n - k,
    {
        let item = copy_data(&items[k]);
        assert(item@ == all[k as int]);
        let mut seen = false;
        let mut i: usize = 0;
        while i < res.len()
            invariant
                i <= res@.len(),
                seen == exists|t: int| 0 <= t < i && #[trigger] data_views(res@)[t].url == item@.url,
            decreases res@.len() - i,
        {
            assert(data_views(res@)[i as int] == res@[i as int]@);
            if text_eq(res[i].url.as_str(), item.url.as_str()) {
                assert(data_views(res@)[i as int].url == item@.url);
                seen = true;
            } else {
                assert(data_views(res@)[i as int].url != item@.url);
            }
            i = i + 1;
        }
        let ghost prefix = all.subrange(0, k + 1);
        assert(prefix.drop_last() =~= all.subrange(0, k as int));
        assert(prefix.last() == item@);
        if !seen {
            let ghost before = res@;
            res.push(item);
            assert(data_views(res@) =~= data_views(before).push(item@));
        }
        k = k + 1;
    }
    assert(all.subrange(0, n as int) =~= all);
    res
}

impl ArielPage {
    fn data_checked(&self) -> (r: Option<Vec<ArielPageData>>)
        ensures
            r matches Some(v) ==> page_data(self.url@, self.soup@, self.kind) == Some(data_views(v@)),
            r is None ==> page_data(self.url@, self.soup@, self.kind) is None,
    {
        let site = self.get_site_name();
        let ambient = self.get_title();
        match page_items_exec(&self.soup, &self.url, &site, &ambient) {
            Some(items) => Some(first_per_url_exec(&items)),
            None => None,
        }
    }

    /// The resources that the page offers (see `page_data`): the files and
    /// recorded lessons of its threads, one per address.
    pub fn get_data(&self) -> (r: Vec<ArielPageData>)
        requires
            page_data(self.url@, self.soup@, self.kind) is Some,
        ensures
            page_data(self.url@, self.soup@, self.kind) == Some(data_views(r@)),
    {
        match self.data_checked() {
            Some(v) => v,
            None => Vec::new(),
        }
    }

    /// The resources that the page offers, where all their addresses can be
    /// formed; `None` otherwise.
    pub fn try_get_data(&self) -> (r: Option<Vec<ArielPageData>>)
        ensures
            r matches Some(v) ==> page_data(self.url@, self.soup@, self.kind) == Some(data_views(v@)),
            r is None ==> page_data(self.url@, self.soup@, self.kind) is None,
    {
        match self.data_checked() {
            Some(_) => Some(self.get_data()),
            None => None,
        }
    }
}

/// `rand::random::<i32>()`. Nothing is claimed of the number.
#[verifier::external_body]
fn random_i32() -> i32 {
    rand::random::<i32>()
}

/// The pattern by which the address of a recorded lesson names its file.
pub open spec fn vod_pattern() -> Seq<char> {
    ".*/vod/(.+):(.+)/manifest.m3u8"@
}

/// Group `k` of a match, `None` where it took no part.
pub open spec fn group(gs: Seq<Option<Seq<char>>>, k: int) -> Option<Seq<char>> {
    if 0 <= k < gs.len() {
        gs[k]
    } else {
        None
    }
}

/// The file name of a recorded lesson named `v` on the server: the part
/// before its last `.` in snake case, then the extension from that `.` on.
pub open spec fn vod_file_name(v: Seq<char>) -> Seq<char> {
    match last_index_of(v, '.') {
        Some(i) => snake_case_spec(v.subrange(0, i)) + "."@ + v.subrange(i + 1, v.len() as int),
        None => snake_case_spec(v),
    }
}

/// The file name of a recorded lesson named `name` at address `url`, where
/// `id` is the random number drawn: the server's name for it where the
/// address carries one; else the name followed by the number (and by the
/// extension where the address carries that alone).
pub open spec fn stream_file_name(name: Seq<char>, url: Seq<char>, id: i32) -> Seq<char> {
    let filename = name + decimal_i32(id);
    match regex_captures_spec(vod_pattern(), url) {
        Some(Some(gs)) => match group(gs, 2) {
            Some(v) => vod_file_name(v),
            None => match group(gs, 1) {
                Some(e) => filename + "."@ + e,
                None => filename,
            },
        },
        _ => filename,
    }
}

/// The holders of a course as they are listed: each followed by `, ` but
/// the last.
pub open spec fn holders_text(hs: Seq<Seq<char>>, k: int) -> Seq<char>
    decreases k,
{
    if k <= 0 {
        Seq::empty()
    } else {
        holders_text(hs, k - 1) + if k - 1 < hs.len() - 1 {
            hs[k - 1] + ", "@
        } else {
            hs[k - 1]
        }
    }
}

/// How a course is shown: `<title> [<holders>] accessible`, or `non
/// accessible`.
pub open spec fn title_page_text(p: TitlePageView) -> Seq<char> {
    p.title + " ["@ + holders_text(p.holders, p.holders.len() as int) + "]"@ + if p.can_access {
        " accessible"@
    } else {
        " non accessible"@
    }
}

impl ArielTitlePage {
    /// The course as it is shown (see `title_page_text`).
    pub fn to_display_string(&self) -> (r: String)
        ensures
            r@ == title_page_text(self@),
    {
        let ghost hs = self.holders.deep_view();
        let n = self.holders.len();
        let mut list = String::new();
        let mut i: usize = 0;
        while i < n
            invariant
                n == hs.len(),
                hs == self.holders.deep_view(),
                i <= n,
                list@ == holders_text(hs, i as int),
            decreases n - i,
        {
            if i < n - 1 {
                let piece = concat(self.holders[i].as_str(), ", ");
                list = concat(list.as_str(), piece.as_str());
                assert(list@ =~= holders_text(hs, i + 1));
            } else {
                list = concat(list.as_str(), self.holders[i].as_str());
            }
            i = i + 1;
        }
        let a = concat(self.title.as_str(), " [");
        let b = concat(a.as_str(), list.as_str());
        let c = concat(b.as_str(), "]");
        if self.can_access {
            concat(c.as_str(), " accessible")
        } else {
            concat(c.as_str(), " non accessible")
        }
    }
}

fn group_exec(gs: &Vec<Option<String>>, k: usize) -> (r: Option<String>)
    ensures
        r.deep_view() == group(gs.deep_view(), k as int),
{
    if k < gs.len() {
        match &gs[k] {
            Some(g) => Some(g.clone()),
            None => None,
        }
    } else {
        None
    }
}

/// The name under which resource `d` is saved, where `id` is the random
/// number drawn for it: its own name for a file; for a recorded lesson, see
/// `stream_file_name`.
pub open spec fn data_file_name(d: DataView, id: i32) -> Seq<char> {
    match d.kind {
        ArielPageDataKind::Generic => d.name,
        ArielPageDataKind::LessonStream => stream_file_name(d.name, d.url, id),
    }
}

impl ArielPageData {
    /// The name under which the resource is saved when `id` is the random
    /// number drawn for it (see `data_file_name`).
    pub fn file_name_with(&self, id: i32) -> (r: String)
        ensures
            r@ == data_file_name(self@, id),
    {
        match self.kind {
            ArielPageDataKind::LessonStream => {
                let filename = concat(self.name.as_str(), decimal_i32_exec(id).as_str());
                match regex_captures(".*/vod/(.+):(.+)/manifest.m3u8", self.url.as_str()) {
                    Some(Some(gs)) => match group_exec(&gs, 2) {
                        Some(v) => match last_index_of_exec(v.as_str(), '.') {
                            Some(i) => {
                                let stem = snake_case(prefix_to(v.as_str(), i).as_str());
                                let ext = concat(".", suffix_after(v.as_str(), i).as_str());
                                concat(stem.as_str(), ext.as_str())
                            },
                            None => snake_case(v.as_str()),
                        },
                        None => match group_exec(&gs, 1) {
                            Some(e) => {
                                let a = concat(filename.as_str(), ".");
                                concat(a.as_str(), e.as_str())
                            },
                            None => filename,
                        },
                    },
                    _ => filename,
                }
            },
            ArielPageDataKind::Generic => self.name.clone(),
        }
    }

    /// The name under which the resource is saved: its own name for a file;
    /// for a recorded lesson, the name the address gives it, or its own name
    /// with a random number (see `data_file_name`).
    pub fn get_name(&self) -> (r: String)
        ensures
            exists|id: i32| r@ == data_file_name(self@, id),
            self.kind == ArielPageDataKind::Generic ==> r@ == self.name@,
    {
        match self.kind {
            ArielPageDataKind::LessonStream => {
                let id = random_i32();
                self.file_name_with(id)
            },
            ArielPageDataKind::Generic => {
                let r = self.name.clone();
                assert(r@ == data_file_name(self@, 0i32));
                r
            },
        }
    }

    /// The resource as it is shown: `<name> (url: <address>)`, the name as
    /// `get_name` gives it.
    pub fn to_display_string(&self) -> (r: String)
        ensures
            exists|id: i32| r@ == data_file_name(self@, id) + " (url: "@ + self.url@ + ")"@,
            self.kind == ArielPageDataKind::Generic ==> r@ == self.name@ + " (url: "@ + self.url@
                + ")"@,
    {
        let name = self.get_name();
        let a = concat(name.as_str(), " (url: ");
        let b = concat(a.as_str(), self.url.as_str());
        let r = concat(b.as_str(), ")");
        proof {
            let id = choose|id: i32| name@ == data_file_name(self@, id);
            assert(r@ == data_file_name(self@, id) + " (url: "@ + self.url@ + ")"@);
        }
        r
    }
}

/// Keeping the first resource per address leaves no two resources with one
/// address, keeps every address that occurs, and keeps only resources that
/// occur.
pub proof fn lemma_first_per_url(s: Seq<DataView>)
    ensures
        forall|i: int, j: int|
            0 <= i < j < first_per_url(s).len() ==> #[trigger] first_per_url(s)[i].url
                != #[trigger] first_per_url(s)[j].url,
        forall|u: Seq<char>| #[trigger] has_url(first_per_url(s), u) <==> has_url(s, u),
        forall|i: int|
            0 <= i < first_per_url(s).len() ==> exists|j: int|
                0 <= j < s.len() && #[trigger] s[j] == #[trigger] first_per_url(s)[i],
    decreases s.len(),
{
    if s.len() > 0 {
        let p = s.drop_last();
        let r = first_per_url(p);
        lemma_first_per_url(p);
        assert forall|u: Seq<char>| has_url(s, u) <==> has_url(p, u) || s.last().url == u by {
            if has_url(s, u) {
                let i = choose|i: int| 0 <= i < s.len() && #[trigger] s[i].url == u;
                if i < p.len() {
                    assert(p[i] == s[i]);
                }
            }
            if has_url(p, u) {
                let i = choose|i: int| 0 <= i < p.len() && #[trigger] p[i].url == u;
                assert(s[i] == p[i]);
            }
            if s.last().url == u {
                assert(s[s.len() - 1].url == u);
            }
        }
        if !has_url(r, s.last().url) {
            let q = r.push(s.last());
            assert forall|u: Seq<char>| has_url(q, u) <==> has_url(r, u) || s.last().url == u by {
                if has_url(q, u) {
                    let i = choose|i: int| 0 <= i < q.len() && #[trigger] q[i].url == u;
                    if i < r.len() {
                        assert(r[i] == q[i]);
                    }
                }
                if has_url(r, u) {
                    let i = choose|i: int| 0 <= i < r.len() && #[trigger] r[i].url == u;
                    assert(q[i] == r[i]);
                }
                if s.last().url == u {
                    assert(q[q.len() - 1].url == u);
                }
            }
            assert forall|i: int, j: int| 0 <= i < j < q.len() implies #[trigger] q[i].url
                != #[trigger] q[j].url by {
                if j == q.len() - 1 {
                    if q[i].url == q[j].url {
                        assert(r[i].url == s.last().url);
                        assert(has_url(r, s.last().url));
                    }
                } else {
                    assert(q[i] == r[i] && q[j] == r[j]);
                }
            }
            assert forall|i: int| 0 <= i < q.len() implies exists|j: int|
                0 <= j < s.len() && #[trigger] s[j] == #[trigger] q[i] by {
                if i == q.len() - 1 {
                    assert(s[s.len() - 1] == q[i]);
                } else {
                    assert(q[i] == r[i]);
                    let j = choose|j: int| 0 <= j < p.len() && #[trigger] p[j] == #[trigger] r[i];
                    assert(s[j] == p[j]);
                }
            }
        } else {
            assert forall|i: int| 0 <= i < r.len() implies exists|j: int|
                0 <= j < s.len() && #[trigger] s[j] == #[trigger] r[i] by {
                let j = choose|j: int| 0 <= j < p.len() && #[trigger] p[j] == #[trigger] r[i];
                assert(s[j] == p[j]);
            }
        }
    }
}

/// The resources that a page offers are one per address: no two share an
/// address, and every address of a resource found in its threads is offered.
pub proof fn law_page_data_one_per_address(url: Seq<char>, d: DomView, kind: ArielPageKind)
    requires
        page_data(url, d, kind) is Some,
    ensures
        ({
            let v = page_data(url, d, kind).unwrap();
            let c = page_items(url, site_title(d), page_title(url, d, kind), d, d.top.len() as int).unwrap();
            &&& forall|i: int, j: int| 0 <= i < j < v.len() ==> #[trigger] v[i].url != #[trigger] v[j].url
            &&& forall|u: Seq<char>| #[trigger] has_url(v, u) <==> has_url(c, u)
        }),
{
    let c = page_items(url, site_title(d), page_title(url, d, kind), d, d.top.len() as int).unwrap();
    lemma_first_per_url(c);
}

proof fn lemma_projects_len(d: DomView, hs: Seq<usize>, k: int)
    requires
        k >= 0,
        projects_of(d, hs, k) is Some,
    ensures
        projects_of(d, hs, k).unwrap().len() == k,
    decreases k,
{
    if k > 0 {
        lemma_projects_len(d, hs, k - 1);
    }
}

/// A search page lists one course per element of class `ariel-project`.
pub proof fn law_one_course_per_entry(raw: Seq<char>)
    requires
        search_results(raw) is Some,
    ensures
        search_results(raw).unwrap().len() == tl_elements_by_class(raw, "ariel-project"@).len(),
{
    let d = document_of(raw).unwrap();
    let hs = tl_elements_by_class(raw, "ariel-project"@);
    lemma_projects_len(d, hs, hs.len() as int);
}

/// A page of no known kind has no pages below it and is titled by its
/// address.
pub proof fn law_unknown_page(url: Seq<char>, d: DomView)
    ensures
        page_children(url, d, ArielPageKind::Unknown) == Some(Seq::<Seq<char>>::empty()),
        page_title(url, d, ArielPageKind::Unknown) == "Unknown ("@ + url + ")"@,
{
}

/// The home page is titled `Ariel`, and a course home page by its course's
/// title.
pub proof fn law_titles(url: Seq<char>, d: DomView)
    ensures
        page_title(url, d, ArielPageKind::HomePage) == "Ariel"@,
        page_title(url, d, ArielPageKind::SiteHomePage) == site_title(d),
{
}

/// A login is refused only by a page that has the login form (an element of
/// id `cvLogin`) and shows an error below it; a page without the form never
/// refuses it.
pub proof fn law_rejection_needs_the_form(raw: Seq<char>)
    ensures
        login_outcome(raw) == Err::<(), PageError>(PageError::LoginRejected) ==> ({
            &&& tl_element_by_id(raw, "cvLogin"@) matches Some(h)
            &&& document_of(raw) matches Some(d)
            &&& shows_login_error(d, h as int)
        }),
        document_of(raw) is Some && tl_element_by_id(raw, "cvLogin"@) is None ==> login_outcome(raw)
            == Ok::<(), PageError>(()),
{
}

} // verus!
