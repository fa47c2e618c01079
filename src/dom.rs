//! A flat model of a parsed HTML document and the queries the listing and
//! detail pages need.
//!
//! Nodes are stored in document order, each with the index of its parent;
//! select lays a document out depth first, so a parent always comes before
//! its children. Children and descendants are read off the parent links and
//! so come in document order; a parent link that does not point backwards
//! counts as none.
use select::node::Data;
use crate::text::{clone_chars, has_prefix_at, is_white_space, starts_with, white_space};
use vstd::prelude::*;

verus! {

/// What a node is: text, an element with its name and attributes in
/// source order, or a comment.
pub enum NodeData {
    Text(Vec<char>),
    Element(Vec<char>, Vec<(Vec<char>, Vec<char>)>),
    Comment,
}

/// One node of a document and the index of its parent, if it has one.
pub struct DomNode {
    pub parent: Option<usize>,
    pub data: NodeData,
}

/// The nodes that select's parser makes of a markup text.
pub uninterp spec fn html_nodes(html: Seq<char>) -> Seq<DomNode>;

/// Relies on select's `Document::from(&str)`, which parses the markup with
/// html5ever and lists its nodes depth first; the node list is copied here
/// field for field.
#[verifier::external_body]
pub(crate) fn parse_html(html: &str) -> (r: Vec<DomNode>)
    ensures
        r@ == html_nodes(html@),
{
    let chars = |t: &str| t.chars().collect::<Vec<char>>();
    select::document::Document::from(html).nodes.into_iter().map(|raw| DomNode {
        parent: raw.parent,
        data: match raw.data {
            Data::Text(t) => NodeData::Text(chars(&t)),
            Data::Element(n, a) => NodeData::Element(
                chars(&n.local),
                a.into_iter().map(|(k, v)| (chars(&k.local), chars(&v))).collect(),
            ),
            Data::Comment(_) => NodeData::Comment,
        },
    }).collect()
}

/// The characters of `s`.
pub fn chars_of(s: &str) -> (r: Vec<char>)
    ensures
        r@ == s@,
{
    let n = s.unicode_len();
    let mut r: Vec<char> = Vec::new();
    let mut i: usize = 0;
    while i < n
        invariant
            n == s@.len(),
            i <= n,
            r@ == s@.subrange(0, i as int),
        decreases n - i,
    {
        r.push(s.get_char(i));
        assert(r@ =~= s@.subrange(0, i + 1));
        i += 1;
    }
    assert(s@.subrange(0, n as int) =~= s@);
    r
}

/// Node `j` lies strictly below node `n`.
pub open spec fn below(nodes: Seq<DomNode>, j: int, n: int) -> bool
    decreases j,
{
    if 0 <= j < nodes.len() {
        match nodes[j].parent {
            Some(p) => p < j && (p == n || below(nodes, p as int, n)),
            None => false,
        }
    } else {
        false
    }
}

pub fn is_below(nodes: &Vec<DomNode>, j: usize, n: usize) -> (r: bool)
    requires
        j < nodes@.len(),
    ensures
        r == below(nodes@, j as int, n as int),
{
    let mut cur: usize = j;
    loop
        invariant
            cur < nodes@.len(),
            below(nodes@, j as int, n as int) == below(nodes@, cur as int, n as int),
        decreases cur,
    {
        match nodes[cur].parent {
            None => return false,
            Some(p) => {
                if p >= cur {
                    return false;
                }
                if p == n {
                    return true;
                }
                cur = p;
            },
        }
    }
}

pub open spec fn is_element(node: DomNode, name: Seq<char>) -> bool {
    match node.data {
        NodeData::Element(m, _) => m@ == name,
        _ => false,
    }
}

pub fn element_named(node: &DomNode, name: &Vec<char>) -> (r: bool)
    ensures
        r == is_element(*node, name@),
{
    match &node.data {
        NodeData::Element(m, _) => same_chars(m, name),
        _ => false,
    }
}

pub fn same_chars(a: &Vec<char>, b: &Vec<char>) -> (r: bool)
    ensures
        r == (a@ == b@),
{
    if a.len() != b.len() {
        return false;
    }
    let mut i: usize = 0;
    while i < a.len()
        invariant
            a@.len() == b@.len(),
            i <= a@.len(),
            forall|k: int| 0 <= k < i ==> a@[k] == b@[k],
        decreases a@.len() - i,
    {
        if a[i] != b[i] {
            return false;
        }
        i += 1;
    }
    assert(a@ =~= b@);
    true
}

/// The value of the first attribute called `name` among `attrs`.
pub open spec fn attr_in(attrs: Seq<(Vec<char>, Vec<char>)>, name: Seq<char>) -> Option<Seq<char>>
    decreases attrs.len(),
{
    if attrs.len() == 0 {
        None
    } else if attrs[0].0@ == name {
        Some(attrs[0].1@)
    } else {
        attr_in(attrs.drop_first(), name)
    }
}

/// The value of attribute `name` of an element; `None` for other nodes.
pub open spec fn attr_of(node: DomNode, name: Seq<char>) -> Option<Seq<char>> {
    match node.data {
        NodeData::Element(_, attrs) => attr_in(attrs@, name),
        _ => None,
    }
}

pub fn attr(node: &DomNode, name: &Vec<char>) -> (r: Option<Vec<char>>)
    ensures
        match r {
            Some(v) => attr_of(*node, name@) == Some(v@),
            None => attr_of(*node, name@) is None,
        },
{
    match &node.data {
        NodeData::Element(_, attrs) => {
            let mut i: usize = 0;
            assert(attrs@.subrange(0, attrs@.len() as int) =~= attrs@);
            while i < attrs.len()
                invariant
                    i <= attrs@.len(),
                    attr_of(*node, name@) == attr_in(attrs@, name@),
                    attr_in(attrs@, name@) == attr_in(
                        attrs@.subrange(i as int, attrs@.len() as int),
                        name@,
                    ),
                decreases attrs@.len() - i,
            {
                let ghost rest = attrs@.subrange(i as int, attrs@.len() as int);
                assert(rest.drop_first() =~= attrs@.subrange(i + 1, attrs@.len() as int));
                assert(rest[0] == attrs@[i as int]);
                if same_chars(&attrs[i].0, name) {
                    return Some(clone_chars(&attrs[i].1));
                }
                i += 1;
            }
            None
        },
        _ => None,
    }
}

pub fn append_chars(out: &mut Vec<char>, s: &Vec<char>)
    ensures
        final(out)@ == old(out)@ + s@,
{
    let mut i: usize = 0;
    while i < s.len()
        invariant
            i <= s@.len(),
            out@ == old(out)@ + s@.subrange(0, i as int),
        decreases s@.len() - i,
    {
        out.push(s[i]);
        assert(out@ =~= old(out)@ + s@.subrange(0, i + 1));
        i += 1;
    }
    assert(s@.subrange(0, s@.len() as int) =~= s@);
}

/// The text of the text nodes among `nodes[0..k]` that are `n` or below it.
pub open spec fn text_within(nodes: Seq<DomNode>, n: int, k: int) -> Seq<char>
    decreases k,
{
    if k <= 0 {
        Seq::empty()
    } else {
        let before = text_within(nodes, n, k - 1);
        let j = k - 1;
        match nodes[j].data {
            NodeData::Text(t) => if j == n || below(nodes, j, n) {
                before + t@
            } else {
                before
            },
            _ => before,
        }
    }
}

/// The combined text of node `n` and everything below it, as select's
/// `Node::text` gives it.
pub open spec fn text_of(nodes: Seq<DomNode>, n: int) -> Seq<char> {
    text_within(nodes, n, nodes.len() as int)
}

pub fn text(nodes: &Vec<DomNode>, n: usize) -> (r: Vec<char>)
    ensures
        r@ == text_of(nodes@, n as int),
{
    let mut r: Vec<char> = Vec::new();
    let mut j: usize = 0;
    while j < nodes.len()
        invariant
            j <= nodes@.len(),
            r@ == text_within(nodes@, n as int, j as int),
        decreases nodes@.len() - j,
    {
        match &nodes[j].data {
            NodeData::Text(t) => {
                if j == n || is_below(nodes, j, n) {
                    append_chars(&mut r, t);
                }
            },
            _ => {},
        }
        j += 1;
    }
    r
}

/// `w` is one of the white-space separated words of `s`.
pub open spec fn has_word(s: Seq<char>, w: Seq<char>) -> bool {
    &&& w.len() > 0
    &&& forall|k: int| 0 <= k < w.len() ==> !is_white_space(#[trigger] w[k])
    &&& exists|i: int| #[trigger] word_at(s, w, i)
}

/// `w` stands in `s` at `i`, with white space or an end on either side.
pub open spec fn word_at(s: Seq<char>, w: Seq<char>, i: int) -> bool {
    &&& 0 <= i <= s.len()
    &&& starts_with(s.subrange(i, s.len() as int), w)
    &&& (i == 0 || is_white_space(s[i - 1]))
    &&& (i + w.len() == s.len() || is_white_space(s[i + w.len()]))
}

pub fn contains_word(s: &Vec<char>, w: &Vec<char>) -> (r: bool)
    ensures
        r == has_word(s@, w@),
{
    if w.len() == 0 {
        return false;
    }
    let mut k: usize = 0;
    while k < w.len()
        invariant
            k <= w@.len(),
            forall|m: int| 0 <= m < k ==> !is_white_space(#[trigger] w@[m]),
        decreases w@.len() - k,
    {
        if white_space(w[k]) {
            return false;
        }
        k += 1;
    }
    let n = s.len();
    let mut i: usize = 0;
    loop
        invariant
            n == s@.len(),
            i <= s@.len(),
            w@.len() > 0,
            forall|k: int| 0 <= k < w@.len() ==> !is_white_space(#[trigger] w@[k]),
            forall|m: int| 0 <= m < i ==> !#[trigger] word_at(s@, w@, m),
        decreases s@.len() - i,
    {
        if has_prefix_at(s, i, w) {
            assert(w@.len() <= s@.len() - i);
            let left = i == 0 || white_space(s[i - 1]);
            let right = w.len() == n - i || white_space(s[i + w.len()]);
            if left && right {
                assert(word_at(s@, w@, i as int));
                return true;
            }
        }
        if i == n {
            return false;
        }
        i += 1;
    }
}

} // verus!
