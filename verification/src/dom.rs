//! Reading pages: what the parsers see of a page is a list of matched elements, each with the
//! attributes that were asked for, its inner markup and its text.
//!
//! Parsing markup and matching selectors are left to the `scraper` crate, patterns to the
//! `regex` crate. What they return is known here by name only; the parsers state their results
//! over those names.

use regex::Regex;
use scraper::{ElementRef, Html, Selector};
use vstd::prelude::*;

verus! {

/// What is read of one element.
#[derive(Debug)]
pub struct Node {
    /// The values of the attributes that were asked for, in the order of asking; `None` where
    /// the element has no such attribute.
    pub attrs: Vec<Option<String>>,
    /// The markup inside the element.
    pub inner_html: String,
    /// The text inside the element, without markup.
    pub text: String,
}

/// View of a [`Node`].
pub struct NodeView {
    pub attrs: Seq<Option<Seq<char>>>,
    pub inner_html: Seq<char>,
    pub text: Seq<char>,
}

impl View for Node {
    type V = NodeView;

    open spec fn view(&self) -> NodeView {
        NodeView {
            attrs: self.attrs.deep_view(),
            inner_html: self.inner_html@,
            text: self.text@,
        }
    }
}

impl DeepView for Node {
    type V = NodeView;

    open spec fn deep_view(&self) -> NodeView {
        self@
    }
}

/// An element that matches a selector, and for each of a list of further selectors the
/// elements below it that match, in document order.
#[derive(Debug)]
pub struct Match {
    pub node: Node,
    pub inner: Vec<Vec<Node>>,
}

/// View of a [`Match`].
pub struct MatchView {
    pub node: NodeView,
    pub inner: Seq<Seq<NodeView>>,
}

impl View for Match {
    type V = MatchView;

    open spec fn view(&self) -> MatchView {
        MatchView { node: self.node@, inner: self.inner.deep_view() }
    }
}

impl DeepView for Match {
    type V = MatchView;

    open spec fn deep_view(&self) -> MatchView {
        self@
    }
}

/// What the `scraper` crate finds in the document `html`: the elements that match the selector
/// `outer`, in document order, each with the elements below it that match each selector of
/// `inner`; of every element the attributes named in `attrs`, its inner markup and its text.
/// `None` where one of the selectors is not a selector.
pub uninterp spec fn selection(
    html: Seq<char>,
    outer: Seq<char>,
    inner: Seq<Seq<char>>,
    attrs: Seq<Seq<char>>,
) -> Option<Seq<MatchView>>;

/// `Html::parse_document`, `Selector::parse`, `Html::select`, `ElementRef::select`,
/// `ElementRef::attr`, `ElementRef::inner_html` and `ElementRef::text` of the `scraper` crate.
/// The result is the named value `selection` of the arguments.
#[verifier::external_body]
pub(crate) fn select(html: &str, outer: &str, inner: &Vec<String>, attrs: &Vec<String>) -> (found:
    Option<Vec<Match>>)
    ensures
        found.deep_view() == selection(html@, outer@, inner.deep_view(), attrs.deep_view()),
{
    let outer = Selector::parse(outer).ok()?;
    let inner = inner.iter().map(|s| Selector::parse(s).ok()).collect::<Option<Vec<_>>>()?;
    let node = |e: ElementRef| Node {
        attrs: attrs.iter().map(|a| e.attr(a).map(String::from)).collect(),
        inner_html: e.inner_html(),
        text: e.text().collect(),
    };
    let found = |o| Match {
        node: node(o),
        inner: inner.iter().map(|s| o.select(s).map(node).collect()).collect(),
    };
    Some(Html::parse_document(html).select(&outer).map(found).collect())
}

/// The first of a list of nodes.
pub open spec fn first_node(nodes: Seq<NodeView>) -> Option<NodeView> {
    if nodes.len() > 0 {
        Some(nodes[0])
    } else {
        None
    }
}

/// The last of a list of nodes.
pub open spec fn last_node(nodes: Seq<NodeView>) -> Option<NodeView> {
    if nodes.len() > 0 {
        Some(nodes.last())
    } else {
        None
    }
}

/// The nodes that a match holds for its `i`-th inner selector; none where it holds no such list.
pub open spec fn inner_at(m: MatchView, i: int) -> Seq<NodeView> {
    if 0 <= i < m.inner.len() {
        m.inner[i]
    } else {
        Seq::empty()
    }
}

/// The value that a node holds for the `i`-th attribute asked for.
pub open spec fn attr_at(node: NodeView, i: int) -> Option<Seq<char>> {
    if 0 <= i < node.attrs.len() {
        node.attrs[i]
    } else {
        None
    }
}

/// The first node that a match holds for its `i`-th inner selector.
pub fn first_inner(m: &Match, i: usize) -> (found: Option<&Node>)
    ensures
        match found {
            Some(node) => first_node(inner_at(m@, i as int)) == Some(node@),
            None => first_node(inner_at(m@, i as int)) is None,
        },
{
    if i < m.inner.len() && m.inner[i].len() > 0 {
        Some(&m.inner[i][0])
    } else {
        None
    }
}

/// The last node that a match holds for its `i`-th inner selector.
pub fn last_inner(m: &Match, i: usize) -> (found: Option<&Node>)
    ensures
        match found {
            Some(node) => last_node(inner_at(m@, i as int)) == Some(node@),
            None => last_node(inner_at(m@, i as int)) is None,
        },
{
    if i < m.inner.len() && m.inner[i].len() > 0 {
        Some(&m.inner[i][m.inner[i].len() - 1])
    } else {
        None
    }
}

/// The value that a node holds for the `i`-th attribute asked for.
pub fn attr_of(node: &Node, i: usize) -> (found: Option<&String>)
    ensures
        match found {
            Some(value) => attr_at(node@, i as int) == Some(value@),
            None => attr_at(node@, i as int) is None,
        },
{
    if i < node.attrs.len() {
        match &node.attrs[i] {
            Some(value) => Some(value),
            None => None,
        }
    } else {
        None
    }
}

/// What the `regex` crate captures: the text of the group `group` in the first match of
/// `pattern` in `text`. `None` where `pattern` is not a pattern; `Some(None)` where there is no
/// match or the group took no part in it.
pub uninterp spec fn capture(pattern: Seq<char>, text: Seq<char>, group: usize) -> Option<
    Option<Seq<char>>,
>;

/// `Regex::new`, `Regex::captures` and `Captures::get` of the `regex` crate. The result is the
/// named value `capture` of the arguments.
#[verifier::external_body]
pub(crate) fn first_capture(pattern: &str, text: &str, group: usize) -> (found: Option<
    Option<String>,
>)
    ensures
        found.deep_view() == capture(pattern@, text@, group),
{
    let regex = Regex::new(pattern).ok()?;
    Some(regex.captures(text).and_then(|c| c.get(group)).map(|m| m.as_str().to_string()))
}

} // verus!
