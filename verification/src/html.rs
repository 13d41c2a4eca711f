//! The parsed HTML document that the page analysis reads, as plain values.
//!
//! Parsing is done by the `tl` crate, with id and class tracking switched on
//! as the pages of Ariel are read. The document keeps, for every node of
//! `tl::VDom::nodes` (in document order): its tag name, its inner text, the
//! node range that `Children::all` covers below it, and the values of the
//! attributes the analysis looks at. The lookups by id and by class are asked
//! of `tl` on the stored source.
//!
//! `tl` numbers the nodes in document order and keeps the nodes below a tag
//! together, so the nodes below a tag are those of `Children::all`, in the
//! order in which `Node::find_node` visits them.

use vstd::prelude::*;

verus! {

/// For each node of `tl::parse(raw)`, its tag name; `None` for text and
/// comment nodes. The outer `None`: `tl::parse` failed.
pub uninterp spec fn tl_tag_names(raw: Seq<char>) -> Option<Seq<Option<Seq<char>>>>;

/// For each node of `tl::parse(raw)`, what `Node::inner_text` returns.
pub uninterp spec fn tl_inner_texts(raw: Seq<char>) -> Option<Seq<Seq<char>>>;

/// For each node of `tl::parse(raw)`, the first and last node index of the
/// slice that `Children::all` returns below it; `None` for a node that is no
/// tag or has no children.
pub uninterp spec fn tl_child_spans(raw: Seq<char>) -> Option<Seq<Option<(usize, usize)>>>;

/// The indices of `VDom::children` (the topmost nodes) of `tl::parse(raw)`.
pub uninterp spec fn tl_top_nodes(raw: Seq<char>) -> Option<Seq<usize>>;

/// For each node of `tl::parse(raw)`, `Attributes::get(key)` of a tag, with
/// the value read as UTF-8; `None` for a node that is no tag.
pub uninterp spec fn tl_attribute_column(raw: Seq<char>, key: Seq<char>) -> Option<
    Seq<Option<Option<Seq<char>>>>,
>;

/// The node index that `VDom::get_element_by_id(id)` returns on
/// `tl::parse(raw)`; `None` also where parsing fails.
pub uninterp spec fn tl_element_by_id(raw: Seq<char>, id: Seq<char>) -> Option<usize>;

/// The node indices that `VDom::get_elements_by_class_name(class)` yields on
/// `tl::parse(raw)`, in their order; empty also where parsing fails.
pub uninterp spec fn tl_elements_by_class(raw: Seq<char>, class: Seq<char>) -> Seq<usize>;

/// `tl::parse`, then `HTMLTag::name` of every tag of `VDom::nodes`.
/// Claimed: a function of `raw`; `None` where `tl::parse` fails, which it
/// does only on input longer than `u32::MAX` bytes (at most four per
/// character).
#[verifier::external_body]
fn tag_names(raw: &str) -> (r: Option<Vec<Option<String>>>)
    ensures
        r.deep_view() == tl_tag_names(raw@),
        raw@.len() * 4 <= u32::MAX ==> r is Some,
{
    let dom = tl::parse(raw, tl::ParserOptions::new().track_ids().track_classes()).ok()?;
    Some(dom.nodes().iter().map(|n| n.as_tag().map(|t| t.name().as_utf8_str().into_owned())).collect())
}

/// `tl::parse`, then `Node::inner_text` of every node of `VDom::nodes`.
/// Claimed: a function of `raw`; `None` where `tl::parse` fails, which it
/// does only on input longer than `u32::MAX` bytes (at most four per
/// character); one entry per node, as many as `tag_names` lists.
#[verifier::external_body]
fn inner_texts(raw: &str) -> (r: Option<Vec<String>>)
    ensures
        r.deep_view() == tl_inner_texts(raw@),
        raw@.len() * 4 <= u32::MAX ==> r is Some,
        r matches Some(v) ==> tl_tag_names(raw@) matches Some(t) && v.len() == t.len(),
{
    let dom = tl::parse(raw, tl::ParserOptions::new().track_ids().track_classes()).ok()?;
    Some(dom.nodes().iter().map(|n| n.inner_text(dom.parser()).into_owned()).collect())
}

/// `tl::parse`, then `Children::boundaries` (the bounds that `Children::all`
/// slices by) of every node of `VDom::nodes`. Claimed: a function of `raw`;
/// `None` where `tl::parse` fails, which it does only on input longer than
/// `u32::MAX` bytes (at most four per character); one entry per node, and
/// each span `(s, e)` has `s <= e` below the node count: the parser numbers
/// the nodes in document order, a tag before what it holds, so the first
/// child comes no later than the last node below the tag.
#[verifier::external_body]
fn child_spans(raw: &str) -> (r: Option<Vec<Option<(usize, usize)>>>)
    ensures
        r.deep_view() == tl_child_spans(raw@),
        raw@.len() * 4 <= u32::MAX ==> r is Some,
        r matches Some(v) ==> tl_tag_names(raw@) matches Some(t) && v.len() == t.len() && forall|i: int|
            0 <= i < v.len() ==> (#[trigger] v@[i] matches Some((s, e)) ==> s <= e < t.len()),
{
    let dom = tl::parse(raw, tl::ParserOptions::new().track_ids().track_classes()).ok()?;
    let p = dom.parser();
    Some(dom.nodes().iter().map(|n| n.children().and_then(|c| c.boundaries(p))).map(|b| b.map(|(s, e)| (s as usize, e as usize))).collect())
}

/// `tl::parse`, then `VDom::children`. Claimed: a function of `raw`; `None`
/// where `tl::parse` fails, which it does only on input longer than
/// `u32::MAX` bytes (at most four per character); each index is that of a
/// node.
#[verifier::external_body]
fn top_nodes(raw: &str) -> (r: Option<Vec<usize>>)
    ensures
        r.deep_view() == tl_top_nodes(raw@),
        raw@.len() * 4 <= u32::MAX ==> r is Some,
        r matches Some(v) ==> tl_tag_names(raw@) matches Some(t) && forall|k: int|
            0 <= k < v.len() ==> #[trigger] v@[k] < t.len(),
{
    let dom = tl::parse(raw, tl::ParserOptions::new().track_ids().track_classes()).ok()?;
    Some(dom.children().iter().map(|h| h.get_inner() as usize).collect())
}

/// `tl::parse`, then `Attributes::get(key)` of every tag of `VDom::nodes`.
/// Claimed: a function of `raw` and `key`; `None` where `tl::parse` fails,
/// which it does only on input longer than `u32::MAX` bytes (at most four
/// per character); one entry per node.
#[verifier::external_body]
fn attribute_column<'a>(raw: &'a str, key: &'a str) -> (r: Option<Vec<Option<Option<String>>>>)
    ensures
        r.deep_view() == tl_attribute_column(raw@, key@),
        raw@.len() * 4 <= u32::MAX ==> r is Some,
        r matches Some(v) ==> tl_tag_names(raw@) matches Some(t) && v.len() == t.len(),
{
    let dom = tl::parse(raw, tl::ParserOptions::new().track_ids().track_classes()).ok()?;
    Some(dom.nodes().iter().map(|n| n.as_tag().and_then(|t| t.attributes().get(key)).map(|v| v.map(|b| b.as_utf8_str().into_owned()))).collect())
}

/// `tl::parse`, then `VDom::get_element_by_id`. Claimed: a function of `raw`
/// and `id`; the index found is that of a node.
#[verifier::external_body]
fn element_by_id<'a>(raw: &'a str, id: &'a str) -> (r: Option<usize>)
    ensures
        r == tl_element_by_id(raw@, id@),
        r matches Some(h) ==> tl_tag_names(raw@) matches Some(t) && h < t.len(),
{
    let dom = tl::parse(raw, tl::ParserOptions::new().track_ids().track_classes()).ok()?;
    dom.get_element_by_id(id).map(|h| h.get_inner() as usize)
}

/// `tl::parse`, then `VDom::get_elements_by_class_name`. Claimed: a function
/// of `raw` and `class`; each index found is that of a node.
#[verifier::external_body]
fn elements_by_class(raw: &str, class: &str) -> (r: Vec<usize>)
    ensures
        r@ == tl_elements_by_class(raw@, class@),
        forall|k: int|
            0 <= k < r@.len() ==> (tl_tag_names(raw@) matches Some(t) && #[trigger] r@[k] < t.len()),
{
    match tl::parse(raw, tl::ParserOptions::new().track_ids().track_classes()) {
        Ok(dom) => dom.get_elements_by_class_name(class).map(|h| h.get_inner() as usize).collect(),
        Err(_) => Vec::new(),
    }
}

/// The attributes that the page analysis reads.
#[derive(Clone, Copy, PartialEq, Eq, Debug)]
pub enum Attr {
    Class,
    Href,
    Type,
    Src,
}

/// A parsed document, as plain values.
pub struct DomView {
    pub raw: Seq<char>,
    pub tags: Seq<Option<Seq<char>>>,
    pub texts: Seq<Seq<char>>,
    pub spans: Seq<Option<(usize, usize)>>,
    pub top: Seq<usize>,
    pub class: Seq<Option<Option<Seq<char>>>>,
    pub href: Seq<Option<Option<Seq<char>>>>,
    pub typ: Seq<Option<Option<Seq<char>>>>,
    pub src: Seq<Option<Option<Seq<char>>>>,
}

impl DomView {
    /// The number of nodes.
    pub open spec fn len(self) -> nat {
        self.tags.len()
    }

    /// Every table has one entry per node and every index points at a node.
    pub open spec fn wf(self) -> bool {
        &&& self.texts.len() == self.len()
        &&& self.spans.len() == self.len()
        &&& self.class.len() == self.len()
        &&& self.href.len() == self.len()
        &&& self.typ.len() == self.len()
        &&& self.src.len() == self.len()
        &&& forall|k: int| 0 <= k < self.top.len() ==> #[trigger] self.top[k] < self.len()
        &&& forall|i: int|
            0 <= i < self.len() ==> (#[trigger] self.spans[i] matches Some((s, e)) ==> s <= e
                < self.len())
    }

    /// `Attributes::get` of the given attribute on node `i`.
    pub open spec fn attr(self, a: Attr, i: int) -> Option<Option<Seq<char>>> {
        match a {
            Attr::Class => self.class[i],
            Attr::Href => self.href[i],
            Attr::Type => self.typ[i],
            Attr::Src => self.src[i],
        }
    }

    /// Node `i` is a tag.
    pub open spec fn is_tag(self, i: int) -> bool {
        self.tags[i] is Some
    }

    /// Node `i` is a tag named `name`.
    pub open spec fn tag_is(self, i: int, name: Seq<char>) -> bool {
        self.tags[i] == Some(name)
    }

    /// Node `i` is a tag whose attribute `a` holds exactly `v`.
    pub open spec fn attr_is(self, i: int, a: Attr, v: Seq<char>) -> bool {
        self.is_tag(i) && self.attr(a, i) == Some(Some(v))
    }

    /// The first index of the nodes below `i` (the start of `Children::all`).
    pub open spec fn below_start(self, i: int) -> int {
        match self.spans[i] {
            Some((s, e)) => s as int,
            None => 0,
        }
    }

    /// One past the last index of the nodes below `i`.
    pub open spec fn below_end(self, i: int) -> int {
        match self.spans[i] {
            Some((s, e)) => e + 1,
            None => 0,
        }
    }
}

/// The document that `tl` makes of `raw`, where every table was produced
/// and they agree with one another.
pub open spec fn document_of(raw: Seq<char>) -> Option<DomView> {
    let tags = tl_tag_names(raw);
    let texts = tl_inner_texts(raw);
    let spans = tl_child_spans(raw);
    let top = tl_top_nodes(raw);
    let class = tl_attribute_column(raw, "class"@);
    let href = tl_attribute_column(raw, "href"@);
    let typ = tl_attribute_column(raw, "type"@);
    let src = tl_attribute_column(raw, "src"@);
    if tags is Some && texts is Some && spans is Some && top is Some && class is Some && href is Some
        && typ is Some && src is Some {
        let d = DomView {
            raw,
            tags: tags.unwrap(),
            texts: texts.unwrap(),
            spans: spans.unwrap(),
            top: top.unwrap(),
            class: class.unwrap(),
            href: href.unwrap(),
            typ: typ.unwrap(),
            src: src.unwrap(),
        };
        if d.wf() {
            Some(d)
        } else {
            None
        }
    } else {
        None
    }
}

/// A parsed HTML document.
pub struct HtmlDocument {
    raw: String,
    tags: Vec<Option<String>>,
    texts: Vec<String>,
    spans: Vec<Option<(usize, usize)>>,
    top: Vec<usize>,
    class: Vec<Option<Option<String>>>,
    href: Vec<Option<Option<String>>>,
    typ: Vec<Option<Option<String>>>,
    src: Vec<Option<Option<String>>>,
}

impl View for HtmlDocument {
    type V = DomView;

    closed spec fn view(&self) -> DomView {
        DomView {
            raw: self.raw@,
            tags: self.tags.deep_view(),
            texts: self.texts.deep_view(),
            spans: self.spans.deep_view(),
            top: self.top.deep_view(),
            class: self.class.deep_view(),
            href: self.href.deep_view(),
            typ: self.typ.deep_view(),
            src: self.src.deep_view(),
        }
    }
}

#[verifier::loop_isolation(false)]
fn tables_agree(
    raw: &String,
    tags: &Vec<Option<String>>,
    texts: &Vec<String>,
    spans: &Vec<Option<(usize, usize)>>,
    top: &Vec<usize>,
    class: &Vec<Option<Option<String>>>,
    href: &Vec<Option<Option<String>>>,
    typ: &Vec<Option<Option<String>>>,
    src: &Vec<Option<Option<String>>>,
) -> (r: bool)
    ensures
        r == (DomView {
            raw: raw@,
            tags: tags.deep_view(),
            texts: texts.deep_view(),
            spans: spans.deep_view(),
            top: top.deep_view(),
            class: class.deep_view(),
            href: href.deep_view(),
            typ: typ.deep_view(),
            src: src.deep_view(),
        }).wf(),
{
    let ghost d = DomView {
        raw: raw@,
        tags: tags.deep_view(),
        texts: texts.deep_view(),
        spans: spans.deep_view(),
        top: top.deep_view(),
        class: class.deep_view(),
        href: href.deep_view(),
        typ: typ.deep_view(),
        src: src.deep_view(),
    };
    let n = tags.len();
    if texts.len() != n || spans.len() != n || class.len() != n || href.len() != n || typ.len()
        != n || src.len() != n {
        return false;
    }
    let mut k: usize = 0;
    while k < top.len()
        invariant
            n == d.len(),
            d.top == top.deep_view(),
            forall|j: int| 0 <= j < k ==> #[trigger] d.top[j] < n,
        decreases top@.len() - k,
    {
        assert(d.top[k as int] == top@[k as int]);
        assert(d.top.len() == top@.len());
        if top[k] >= n {
            return false;
        }
        k = k + 1;
    }
    let mut i: usize = 0;
    while i < n
        invariant
            n == d.len(),
            n == d.spans.len(),
            d.spans == spans.deep_view(),
            forall|j: int|
                0 <= j < i ==> (#[trigger] d.spans[j] matches Some((s, e)) ==> s <= e < n),
        decreases n - i,
    {
        assert(d.spans[i as int] == spans@[i as int]);
        match spans[i] {
            Some((s, e)) => {
                if s > e || e >= n {
                    return false;
                }
            },
            None => {},
        }
        i = i + 1;
    }
    true
}

impl HtmlDocument {
    #[verifier::type_invariant]
    spec fn tables_fit(&self) -> bool {
        document_of(self@.raw) == Some(self@)
    }

    /// Parses `raw` with `tl`; `None` where `tl` fails or its answers do not
    /// fit together, which cannot happen to a source of at most `u32::MAX`
    /// bytes.
    pub fn parse(raw: String) -> (r: Option<HtmlDocument>)
        ensures
            r is Some <==> document_of(raw@) is Some,
            r matches Some(d) ==> d@ == document_of(raw@).unwrap(),
            raw@.len() * 4 <= u32::MAX ==> r is Some,
    {
        let tags = tag_names(raw.as_str());
        let texts = inner_texts(raw.as_str());
        let spans = child_spans(raw.as_str());
        let top = top_nodes(raw.as_str());
        let class = attribute_column(raw.as_str(), "class");
        let href = attribute_column(raw.as_str(), "href");
        let typ = attribute_column(raw.as_str(), "type");
        let src = attribute_column(raw.as_str(), "src");
        match (tags, texts, spans, top, class, href, typ, src) {
            (Some(tags), Some(texts), Some(spans), Some(top), Some(class), Some(href), Some(typ), Some(src)) => {
                if tables_agree(&raw, &tags, &texts, &spans, &top, &class, &href, &typ, &src) {
                    Some(HtmlDocument { raw, tags, texts, spans, top, class, href, typ, src })
                } else {
                    None
                }
            },
            _ => None,
        }
    }

    /// The source the document was parsed from.
    pub fn raw(&self) -> (r: &String)
        ensures
            r@ == self@.raw,
    {
        &self.raw
    }

    /// The number of nodes.
    pub fn len(&self) -> (r: usize)
        ensures
            r == self@.len(),
            self@.wf(),
    {
        proof {
            use_type_invariant(self);
        }
        self.tags.len()
    }

    /// The topmost nodes.
    pub fn top(&self) -> (r: &Vec<usize>)
        ensures
            r@ == self@.top,
    {
        assert(self.top.deep_view() =~= self.top@);
        &self.top
    }

    /// Whether node `i` is a tag.
    pub fn is_tag(&self, i: usize) -> (r: bool)
        requires
            i < self@.len(),
        ensures
            r == self@.is_tag(i as int),
    {
        proof {
            use_type_invariant(self);
        }
        self.tags[i].is_some()
    }

    /// Whether node `i` is a tag named `name`.
    pub fn tag_is(&self, i: usize, name: &str) -> (r: bool)
        requires
            i < self@.len(),
        ensures
            r == self@.tag_is(i as int, name@),
    {
        proof {
            use_type_invariant(self);
        }
        match &self.tags[i] {
            Some(t) => crate::text::text_eq(t.as_str(), name),
            None => false,
        }
    }

    /// The inner text of node `i`.
    pub fn text(&self, i: usize) -> (r: &String)
        requires
            i < self@.len(),
        ensures
            r@ == self@.texts[i as int],
    {
        proof {
            use_type_invariant(self);
        }
        &self.texts[i]
    }

    /// `Attributes::get` of `a` on node `i`.
    pub fn attr(&self, a: Attr, i: usize) -> (r: &Option<Option<String>>)
        requires
            i < self@.len(),
        ensures
            r.deep_view() == self@.attr(a, i as int),
    {
        proof {
            use_type_invariant(self);
        }
        match a {
            Attr::Class => &self.class[i],
            Attr::Href => &self.href[i],
            Attr::Type => &self.typ[i],
            Attr::Src => &self.src[i],
        }
    }

    /// Whether node `i` is a tag whose attribute `a` is exactly `v`.
    pub fn attr_is(&self, i: usize, a: Attr, v: &str) -> (r: bool)
        requires
            i < self@.len(),
        ensures
            r == self@.attr_is(i as int, a, v@),
    {
        proof {
            use_type_invariant(self);
        }
        if !self.is_tag(i) {
            return false;
        }
        match self.attr(a, i) {
            Some(Some(x)) => crate::text::text_eq(x.as_str(), v),
            _ => false,
        }
    }

    /// The bounds `[start, end)` of the nodes below `i`.
    pub fn below(&self, i: usize) -> (r: (usize, usize))
        requires
            i < self@.len(),
        ensures
            r.0 == self@.below_start(i as int),
            r.1 == self@.below_end(i as int),
            r.0 <= r.1 <= self@.len(),
    {
        proof {
            use_type_invariant(self);
        }
        let n = self.tags.len();
        assert(self@.spans[i as int] == self.spans@[i as int]);
        match self.spans[i] {
            Some((s, e)) => (s, e + 1),
            None => (0, 0),
        }
    }

    /// `VDom::get_element_by_id` on the source.
    pub fn element_by_id(&self, id: &str) -> (r: Option<usize>)
        ensures
            r == tl_element_by_id(self@.raw, id@),
            r matches Some(h) ==> h < self@.len(),
    {
        proof {
            use_type_invariant(self);
        }
        element_by_id(self.raw.as_str(), id)
    }

    /// `VDom::get_elements_by_class_name` on the source.
    pub fn elements_by_class(&self, class: &str) -> (r: Vec<usize>)
        ensures
            r@ == tl_elements_by_class(self@.raw, class@),
            forall|k: int| 0 <= k < r@.len() ==> #[trigger] r@[k] < self@.len(),
    {
        proof {
            use_type_invariant(self);
        }
        elements_by_class(self.raw.as_str(), class)
    }
}

} // verus!
