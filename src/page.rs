//! What the bot reads from the listing page and from a post's detail page.
use crate::dom::{
    append_chars, attr, attr_of, below, chars_of, contains_word, element_named, has_word,
    html_nodes, is_below, is_element, parse_html, text, text_of, DomNode,
};
use crate::number::{i64_of, parse_i64, parse_u64, render_i64, signed_decimal, u64_of};
use crate::text::{
    contains_chars, has_prefix_at, occurs_in, remove_all, remove_char, starts_with, trim, trimmed,
    without_all, without_char,
};
use vstd::prelude::*;

verus! {

/// Why a page could not be read.
#[derive(Clone, Copy, Debug, PartialEq, Eq, Structural)]
pub enum ParseError {
    /// The listing has no `ul#post-list-posts`.
    NoListing,
    /// A listing entry has no `id` attribute.
    MissingId,
    /// A listing entry's `id` is not `p` and a number.
    BadId,
    /// A parent notice links to no post.
    NoParentLink,
    /// The parent link does not end in a number.
    BadParentId,
    /// The page has no `span#post-score-<id>`.
    NoScore,
    /// The score is not a number.
    BadScore,
    /// The page has no `a#highres`.
    NoHighres,
    /// The `a#highres` link has no `href`.
    NoHref,
    /// A child link's text is not a number.
    BadChildId,
}

/// A search for the first node, in document order, that meets a condition.
pub enum Find {
    /// An element with the given name and `id`.
    ElementWithId(Seq<char>, Seq<char>),
    /// A `status-notice` element with a link child whose text holds the
    /// given words.
    Notice(Seq<char>),
    /// A link below the given node whose `href` starts with `/post/show/`.
    ShowLinkBelow(int),
}

pub enum Query {
    ElementWithId(Vec<char>, Vec<char>),
    Notice(Vec<char>),
    ShowLinkBelow(usize),
}

impl View for Query {
    type V = Find;

    open spec fn view(&self) -> Find {
        match self {
            Query::ElementWithId(name, id) => Find::ElementWithId(name@, id@),
            Query::Notice(words) => Find::Notice(words@),
            Query::ShowLinkBelow(n) => Find::ShowLinkBelow(*n as int),
        }
    }
}

pub open spec fn show_prefix() -> Seq<char> {
    "/post/show/"@
}

/// Node `j` is a link whose `href` starts with `/post/show/`.
pub open spec fn is_show_link(nodes: Seq<DomNode>, j: int) -> bool {
    is_element(nodes[j], "a"@) && match attr_of(nodes[j], "href"@) {
        Some(h) => starts_with(h, show_prefix()),
        None => false,
    }
}

pub open spec fn is_notice(nodes: Seq<DomNode>, j: int, words: Seq<char>) -> bool {
    &&& match attr_of(nodes[j], "class"@) {
        Some(c) => has_word(c, "status-notice"@),
        None => false,
    }
    &&& exists|k: int|
        0 <= k < nodes.len() && #[trigger] nodes[k].parent == Some(j as usize) && is_element(
            nodes[k],
            "a"@,
        ) && occurs_in(text_of(nodes, k), words)
}

pub open spec fn meets(nodes: Seq<DomNode>, f: Find, j: int) -> bool {
    match f {
        Find::ElementWithId(name, id) => is_element(nodes[j], name) && attr_of(nodes[j], "id"@)
            == Some(id),
        Find::Notice(words) => is_notice(nodes, j, words),
        Find::ShowLinkBelow(n) => below(nodes, j, n) && is_show_link(nodes, j),
    }
}

pub open spec fn first_from(nodes: Seq<DomNode>, f: Find, i: int) -> Option<int>
    decreases nodes.len() - i,
{
    if i < 0 || i >= nodes.len() {
        None
    } else if meets(nodes, f, i) {
        Some(i)
    } else {
        first_from(nodes, f, i + 1)
    }
}

/// The first node in document order that meets `f`.
pub open spec fn first(nodes: Seq<DomNode>, f: Find) -> Option<int> {
    first_from(nodes, f, 0)
}

fn show_link(nodes: &Vec<DomNode>, j: usize) -> (r: bool)
    requires
        j < nodes@.len(),
    ensures
        r == is_show_link(nodes@, j as int),
{
    if !element_named(&nodes[j], &chars_of("a")) {
        return false;
    }
    match attr(&nodes[j], &chars_of("href")) {
        Some(h) => {
            let p = chars_of("/post/show/");
            let r = has_prefix_at(&h, 0, &p);
            assert(h@.subrange(0, h@.len() as int) =~= h@);
            r
        },
        None => false,
    }
}

fn notice(nodes: &Vec<DomNode>, j: usize, words: &Vec<char>) -> (r: bool)
    requires
        j < nodes@.len(),
    ensures
        r == is_notice(nodes@, j as int, words@),
{
    match attr(&nodes[j], &chars_of("class")) {
        Some(c) => {
            if !contains_word(&c, &chars_of("status-notice")) {
                return false;
            }
        },
        None => {
            return false;
        },
    }
    let a = chars_of("a");
    let mut k: usize = 0;
    while k < nodes.len()
        invariant
            k <= nodes@.len(),
            j < nodes@.len(),
            a@ == "a"@,
            match attr_of(nodes@[j as int], "class"@) {
                Some(c) => has_word(c, "status-notice"@),
                None => false,
            },
            forall|m: int|
                0 <= m < k ==> !(#[trigger] nodes@[m].parent == Some(j) && is_element(
                    nodes@[m],
                    "a"@,
                ) && occurs_in(text_of(nodes@, m), words@)),
        decreases nodes@.len() - k,
    {
        if nodes[k].parent == Some(j) && element_named(&nodes[k], &a) {
            if contains_chars(&text(nodes, k), words) {
                assert(nodes@[k as int].parent == Some(j));
                return true;
            }
        }
        k += 1;
    }
    false
}

fn query_meets(nodes: &Vec<DomNode>, q: &Query, j: usize) -> (r: bool)
    requires
        j < nodes@.len(),
    ensures
        r == meets(nodes@, q@, j as int),
{
    match q {
        Query::ElementWithId(name, id) => {
            if !element_named(&nodes[j], name) {
                return false;
            }
            match attr(&nodes[j], &chars_of("id")) {
                Some(v) => crate::dom::same_chars(&v, id),
                None => false,
            }
        },
        Query::Notice(words) => notice(nodes, j, words),
        Query::ShowLinkBelow(n) => is_below(nodes, j, *n) && show_link(nodes, j),
    }
}

pub fn find_first(nodes: &Vec<DomNode>, q: &Query) -> (r: Option<usize>)
    ensures
        match r {
            Some(i) => i < nodes@.len() && first(nodes@, q@) == Some(i as int),
            None => first(nodes@, q@) is None,
        },
{
    let mut i: usize = 0;
    while i < nodes.len()
        invariant
            i <= nodes@.len(),
            first(nodes@, q@) == first_from(nodes@, q@, i as int),
        decreases nodes@.len() - i,
    {
        if query_meets(nodes, q, i) {
            return Some(i);
        }
        i += 1;
    }
    None
}

/// The entries that a list of children yields.
#[derive(Clone, Copy, Debug, PartialEq, Eq, Structural)]
pub enum Items {
    /// `li` children of the listing, read by their `id`.
    ListingEntries,
    /// Links to posts among a notice's children, read by their text.
    ChildLinks,
}

pub open spec fn is_item(nodes: Seq<DomNode>, kind: Items, n: int, j: int) -> bool {
    nodes[j].parent == Some(n as usize) && match kind {
        Items::ListingEntries => is_element(nodes[j], "li"@),
        Items::ChildLinks => is_show_link(nodes, j),
    }
}

/// The post id in a listing entry's `id` attribute, such as `p1234`.
pub open spec fn post_id(a: Seq<char>) -> Option<i64> {
    i64_of(without_char(trimmed(a), 'p'))
}

pub open spec fn item_value(nodes: Seq<DomNode>, kind: Items, j: int) -> Result<i64, ParseError> {
    match kind {
        Items::ListingEntries => match attr_of(nodes[j], "id"@) {
            None => Err(ParseError::MissingId),
            Some(a) => match post_id(a) {
                Some(v) => Ok(v),
                None => Err(ParseError::BadId),
            },
        },
        Items::ChildLinks => match i64_of(trimmed(text_of(nodes, j))) {
            Some(v) => Ok(v),
            None => Err(ParseError::BadChildId),
        },
    }
}

/// The values of the items among `nodes[0..k]` that are children of `n`,
/// or the error of the first that cannot be read.
pub open spec fn items_upto(nodes: Seq<DomNode>, kind: Items, n: int, k: int) -> Result<
    Seq<i64>,
    ParseError,
>
    decreases k,
{
    if k <= 0 {
        Ok(Seq::empty())
    } else {
        match items_upto(nodes, kind, n, k - 1) {
            Err(e) => Err(e),
            Ok(s) => if is_item(nodes, kind, n, k - 1) {
                match item_value(nodes, kind, k - 1) {
                    Ok(v) => Ok(s.push(v)),
                    Err(e) => Err(e),
                }
            } else {
                Ok(s)
            },
        }
    }
}

pub open spec fn items_of(nodes: Seq<DomNode>, kind: Items, n: int) -> Result<Seq<i64>, ParseError> {
    items_upto(nodes, kind, n, nodes.len() as int)
}

proof fn lemma_items_error_stays(nodes: Seq<DomNode>, kind: Items, n: int, k: int, m: int)
    requires
        0 <= k <= m,
        items_upto(nodes, kind, n, k) is Err,
    ensures
        items_upto(nodes, kind, n, m) == items_upto(nodes, kind, n, k),
    decreases m - k,
{
    if m > k {
        lemma_items_error_stays(nodes, kind, n, k, m - 1);
    }
}

fn item_at(nodes: &Vec<DomNode>, kind: Items, n: usize, j: usize) -> (r: bool)
    requires
        j < nodes@.len(),
    ensures
        r == is_item(nodes@, kind, n as int, j as int),
{
    if nodes[j].parent != Some(n) {
        return false;
    }
    match kind {
        Items::ListingEntries => element_named(&nodes[j], &chars_of("li")),
        Items::ChildLinks => show_link(nodes, j),
    }
}

fn value_at(nodes: &Vec<DomNode>, kind: Items, j: usize) -> (r: Result<i64, ParseError>)
    requires
        j < nodes@.len(),
    ensures
        r == item_value(nodes@, kind, j as int),
{
    match kind {
        Items::ListingEntries => match attr(&nodes[j], &chars_of("id")) {
            None => Err(ParseError::MissingId),
            Some(a) => match parse_i64(&remove_char(&trim(&a), 'p')) {
                Some(v) => Ok(v),
                None => Err(ParseError::BadId),
            },
        },
        Items::ChildLinks => match parse_i64(&trim(&text(nodes, j))) {
            Some(v) => Ok(v),
            None => Err(ParseError::BadChildId),
        },
    }
}

pub fn collect_items(nodes: &Vec<DomNode>, kind: Items, n: usize) -> (r: Result<Vec<i64>, ParseError>)
    ensures
        match r {
            Ok(v) => items_of(nodes@, kind, n as int) == Ok::<Seq<i64>, ParseError>(v@),
            Err(e) => items_of(nodes@, kind, n as int) == Err::<Seq<i64>, ParseError>(e),
        },
{
    let mut out: Vec<i64> = Vec::new();
    let mut j: usize = 0;
    while j < nodes.len()
        invariant
            j <= nodes@.len(),
            items_upto(nodes@, kind, n as int, j as int) == Ok::<Seq<i64>, ParseError>(out@),
        decreases nodes@.len() - j,
    {
        if item_at(nodes, kind, n, j) {
            match value_at(nodes, kind, j) {
                Ok(v) => {
                    out.push(v);
                },
                Err(e) => {
                    proof {
                        lemma_items_error_stays(nodes@, kind, n as int, j + 1, nodes@.len() as int);
                    }
                    return Err(e);
                },
            }
        }
        j += 1;
    }
    Ok(out)
}

/// The post ids of a listing page, in page order.
pub open spec fn listing_of(nodes: Seq<DomNode>) -> Result<Seq<i64>, ParseError> {
    match first(nodes, Find::ElementWithId("ul"@, "post-list-posts"@)) {
        None => Err(ParseError::NoListing),
        Some(u) => items_of(nodes, Items::ListingEntries, u),
    }
}

/// Reads the post ids of a parsed listing page.
pub fn listing_ids(nodes: &Vec<DomNode>) -> (r: Result<Vec<i64>, ParseError>)
    ensures
        match r {
            Ok(v) => listing_of(nodes@) == Ok::<Seq<i64>, ParseError>(v@),
            Err(e) => listing_of(nodes@) == Err::<Seq<i64>, ParseError>(e),
        },
{
    let q = Query::ElementWithId(chars_of("ul"), chars_of("post-list-posts"));
    match find_first(nodes, &q) {
        None => Err(ParseError::NoListing),
        Some(u) => collect_items(nodes, Items::ListingEntries, u),
    }
}

/// Reads the post ids of a listing page's markup.
pub fn get_image_list(html: &str) -> (r: Result<Vec<i64>, ParseError>)
    ensures
        match r {
            Ok(v) => listing_of(html_nodes(html@)) == Ok::<Seq<i64>, ParseError>(v@),
            Err(e) => listing_of(html_nodes(html@)) == Err::<Seq<i64>, ParseError>(e),
        },
{
    listing_ids(&parse_html(html))
}

/// The parent that a detail page declares: `None` where it declares none,
/// else the parent's id or why it cannot be read.
pub open spec fn parent_of(nodes: Seq<DomNode>) -> Option<Result<i64, ParseError>> {
    match first(nodes, Find::Notice("parent post"@)) {
        None => None,
        Some(n) => match first(nodes, Find::ShowLinkBelow(n)) {
            None => Some(Err(ParseError::NoParentLink)),
            Some(a) => match attr_of(nodes[a], "href"@) {
                Some(h) => match i64_of(without_all(trimmed(h), show_prefix())) {
                    Some(v) => Some(Ok(v)),
                    None => Some(Err(ParseError::BadParentId)),
                },
                None => Some(Err(ParseError::NoParentLink)),
            },
        },
    }
}

pub fn parent_link(nodes: &Vec<DomNode>) -> (r: Option<Result<i64, ParseError>>)
    ensures
        r == parent_of(nodes@),
{
    let q = Query::Notice(chars_of("parent post"));
    match find_first(nodes, &q) {
        None => None,
        Some(n) => match find_first(nodes, &Query::ShowLinkBelow(n)) {
            None => Some(Err(ParseError::NoParentLink)),
            Some(a) => match attr(&nodes[a], &chars_of("href")) {
                Some(h) => {
                    let p = chars_of("/post/show/");
                    match parse_i64(&remove_all(&trim(&h), &p)) {
                        Some(v) => Some(Ok(v)),
                        None => Some(Err(ParseError::BadParentId)),
                    }
                },
                None => Some(Err(ParseError::NoParentLink)),
            },
        },
    }
}

/// The id of a post's score element.
pub open spec fn score_element_id(id: i64) -> Seq<char> {
    "post-score-"@ + signed_decimal(id as int)
}

/// The score that a detail page shows for post `id`.
pub open spec fn score_of(nodes: Seq<DomNode>, id: i64) -> Result<u64, ParseError> {
    match first(nodes, Find::ElementWithId("span"@, score_element_id(id))) {
        None => Err(ParseError::NoScore),
        Some(j) => match u64_of(trimmed(text_of(nodes, j))) {
            Some(v) => Ok(v),
            None => Err(ParseError::BadScore),
        },
    }
}

pub fn find_score(id: i64, nodes: &Vec<DomNode>) -> (r: Result<u64, ParseError>)
    ensures
        r == score_of(nodes@, id),
{
    let mut key = chars_of("post-score-");
    append_chars(&mut key, &render_i64(id));
    let q = Query::ElementWithId(chars_of("span"), key);
    match find_first(nodes, &q) {
        None => Err(ParseError::NoScore),
        Some(j) => match parse_u64(&trim(&text(nodes, j))) {
            Some(v) => Ok(v),
            None => Err(ParseError::BadScore),
        },
    }
}

/// The address of the full-size image that a detail page links to.
pub open spec fn highres_of(nodes: Seq<DomNode>) -> Result<Seq<char>, ParseError> {
    match first(nodes, Find::ElementWithId("a"@, "highres"@)) {
        None => Err(ParseError::NoHighres),
        Some(j) => match attr_of(nodes[j], "href"@) {
            Some(u) => Ok(u),
            None => Err(ParseError::NoHref),
        },
    }
}

pub fn find_raw_url(nodes: &Vec<DomNode>) -> (r: Result<Vec<char>, ParseError>)
    ensures
        match r {
            Ok(u) => highres_of(nodes@) == Ok::<Seq<char>, ParseError>(u@),
            Err(e) => highres_of(nodes@) == Err::<Seq<char>, ParseError>(e),
        },
{
    let q = Query::ElementWithId(chars_of("a"), chars_of("highres"));
    match find_first(nodes, &q) {
        None => Err(ParseError::NoHighres),
        Some(j) => match attr(&nodes[j], &chars_of("href")) {
            Some(u) => Ok(u),
            None => Err(ParseError::NoHref),
        },
    }
}

/// The child posts that a detail page declares, in page order.
pub open spec fn children_of(nodes: Seq<DomNode>) -> Result<Seq<i64>, ParseError> {
    match first(nodes, Find::Notice("child post"@)) {
        None => Ok(Seq::empty()),
        Some(n) => items_of(nodes, Items::ChildLinks, n),
    }
}

pub fn child_links(nodes: &Vec<DomNode>) -> (r: Result<Vec<i64>, ParseError>)
    ensures
        match r {
            Ok(v) => children_of(nodes@) == Ok::<Seq<i64>, ParseError>(v@),
            Err(e) => children_of(nodes@) == Err::<Seq<i64>, ParseError>(e),
        },
{
    let q = Query::Notice(chars_of("child post"));
    match find_first(nodes, &q) {
        None => Ok(Vec::new()),
        Some(n) => collect_items(nodes, Items::ChildLinks, n),
    }
}

} // verus!
