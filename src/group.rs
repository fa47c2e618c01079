//! Resolution of a post into its image group: the canonical post (its parent,
//! where it declares one) followed by the canonical post's children.
//!
//! Fetching pages is left to the caller: the resolver says which post it
//! needs next and takes that post's page in return.
use crate::dom::{html_nodes, parse_html, DomNode};
use crate::page::{
    child_links, children_of, find_raw_url, find_score, highres_of, parent_link, parent_of,
    score_of, ParseError,
};
use std::collections::VecDeque;
use vstd::prelude::*;

verus! {

/// A resolved image group: its score and its members' full-size image
/// addresses, canonical post first.
#[derive(Debug, Clone)]
pub struct ImgData {
    pub score: u64,
    pub url: VecDeque<(i64, String)>,
}

pub open spec fn link_view(l: (i64, String)) -> (i64, Seq<char>) {
    (l.0, l.1@)
}

pub open spec fn char_links(v: Seq<(i64, Vec<char>)>) -> Seq<(i64, Seq<char>)> {
    v.map_values(|l: (i64, Vec<char>)| (l.0, l.1@))
}

impl ImgData {
    /// The members' ids and addresses, in group order.
    pub open spec fn links(&self) -> Seq<(i64, Seq<char>)> {
        self.url@.map_values(|l: (i64, String)| link_view(l))
    }

    /// The members' ids, in group order.
    pub open spec fn member_ids(&self) -> Seq<i64> {
        self.url@.map_values(|l: (i64, String)| l.0)
    }
}

/// Relies on `String`'s `FromIterator<char>`: the string holds the
/// characters in order.
#[verifier::external_body]
pub(crate) fn string_of(chars: &Vec<char>) -> (r: String)
    ensures
        r@ == chars@,
{
    chars.iter().collect()
}

/// Why a group could not be resolved.
#[derive(Clone, Copy, Debug, PartialEq, Eq, Structural)]
pub enum ResolveError {
    /// A page could not be fetched.
    Fetch,
    /// A page could not be read.
    Parse(ParseError),
}

#[derive(Clone, Copy, Debug, PartialEq, Eq, Structural)]
pub enum Stage {
    /// Waiting for the page of the requested post.
    Requested,
    /// Waiting for the page of the declared parent.
    Parent,
    /// Waiting for the page of the child at this position.
    Child(usize),
    /// Done or failed.
    Finished,
}

/// What the resolver asks for or reports after a step.
pub enum Step {
    Fetch(i64),
    Done(i64, ImgData),
    Failed(ResolveError),
}

pub enum Outcome {
    Fetch(i64),
    Done(i64, u64, Seq<(i64, Seq<char>)>),
    Failed(ResolveError),
}

impl View for Step {
    type V = Outcome;

    open spec fn view(&self) -> Outcome {
        match self {
            Step::Fetch(id) => Outcome::Fetch(*id),
            Step::Done(id, d) => Outcome::Done(*id, d.score, d.links()),
            Step::Failed(e) => Outcome::Failed(*e),
        }
    }
}

pub struct GroupResolver {
    pub requested: i64,
    pub stage: Stage,
    pub canonical: i64,
    pub score: u64,
    pub links: Vec<(i64, Vec<char>)>,
    pub children: Vec<i64>,
}

pub struct Resolution {
    pub requested: i64,
    pub stage: Stage,
    pub canonical: i64,
    pub score: u64,
    pub links: Seq<(i64, Seq<char>)>,
    pub children: Seq<i64>,
}

impl View for GroupResolver {
    type V = Resolution;

    open spec fn view(&self) -> Resolution {
        Resolution {
            requested: self.requested,
            stage: self.stage,
            canonical: self.canonical,
            score: self.score,
            links: char_links(self.links@),
            children: self.children@,
        }
    }
}

/// `s` without `c` and without repeats, first occurrences kept.
pub open spec fn distinct_others(s: Seq<i64>, c: i64) -> Seq<i64>
    decreases s.len(),
{
    if s.len() == 0 {
        s
    } else {
        let r = distinct_others(s.drop_last(), c);
        if s.last() == c || r.contains(s.last()) {
            r
        } else {
            r.push(s.last())
        }
    }
}

/// No id occurs twice in `s`.
pub open spec fn distinct_ids(s: Seq<i64>) -> bool {
    forall|a: int, b: int| 0 <= a < b < s.len() ==> s[a] != s[b]
}

proof fn lemma_distinct_others(s: Seq<i64>, c: i64)
    ensures
        distinct_ids(distinct_others(s, c)),
        !distinct_others(s, c).contains(c),
    decreases s.len(),
{
    if s.len() > 0 {
        lemma_distinct_others(s.drop_last(), c);
        let r = distinct_others(s.drop_last(), c);
        let x = s.last();
        if !(x == c || r.contains(x)) {
            let t = r.push(x);
            assert forall|a: int, b: int| 0 <= a < b < t.len() implies t[a] != t[b] by {
                if b == r.len() {
                    assert(t[a] == r[a]);
                    if r[a] == x {
                        assert(r.contains(x));
                    }
                } else {
                    assert(t[a] == r[a] && t[b] == r[b]);
                }
            }
            if t.contains(c) {
                let k = choose|k: int| 0 <= k < t.len() && t[k] == c;
                if k < r.len() {
                    assert(r[k] == c);
                    assert(r.contains(c));
                }
            }
        }
    }
}

/// The ids of a group's members: at least one, the canonical post first,
/// none twice.
pub open spec fn well_formed_group(c: i64, links: Seq<(i64, Seq<char>)>) -> bool {
    &&& links.len() >= 1
    &&& links[0].0 == c
    &&& forall|a: int, b: int| 0 <= a < b < links.len() ==> links[a].0 != links[b].0
}

/// What the canonical page gives: its score, its image address, and the
/// other members.
pub open spec fn read_canonical(nodes: Seq<DomNode>, c: i64) -> Result<
    (u64, Seq<char>, Seq<i64>),
    ParseError,
> {
    match score_of(nodes, c) {
        Err(e) => Err(e),
        Ok(s) => match highres_of(nodes) {
            Err(e) => Err(e),
            Ok(u) => match children_of(nodes) {
                Err(e) => Err(e),
                Ok(k) => Ok((s, u, distinct_others(k, c))),
            },
        },
    }
}

/// What a child's page gives: its score and its image address.
pub open spec fn read_member(nodes: Seq<DomNode>, k: i64) -> Result<(u64, Seq<char>), ParseError> {
    match score_of(nodes, k) {
        Err(e) => Err(e),
        Ok(s) => match highres_of(nodes) {
            Err(e) => Err(e),
            Ok(u) => Ok((s, u)),
        },
    }
}

pub open spec fn finished(s: Resolution) -> Resolution {
    Resolution {
        requested: s.requested,
        stage: Stage::Finished,
        canonical: s.canonical,
        score: s.score,
        links: s.links,
        children: s.children,
    }
}

pub open spec fn begin_canonical(s: Resolution, nodes: Seq<DomNode>, c: i64) -> (
    Resolution,
    Outcome,
) {
    match read_canonical(nodes, c) {
        Err(e) => (finished(s), Outcome::Failed(ResolveError::Parse(e))),
        Ok((score, u, kids)) => {
            let t = Resolution {
                requested: s.requested,
                stage: if kids.len() == 0 {
                    Stage::Finished
                } else {
                    Stage::Child(0)
                },
                canonical: c,
                score,
                links: seq![(c, u)],
                children: kids,
            };
            if kids.len() == 0 {
                (t, Outcome::Done(c, score, t.links))
            } else {
                (t, Outcome::Fetch(kids[0]))
            }
        },
    }
}

/// The resolver's next state and outcome once the page it asked for is in.
pub open spec fn advance(s: Resolution, nodes: Seq<DomNode>) -> (Resolution, Outcome) {
    match s.stage {
        Stage::Requested => match parent_of(nodes) {
            None => begin_canonical(s, nodes, s.requested),
            Some(Ok(p)) => (
                Resolution {
                    requested: s.requested,
                    stage: Stage::Parent,
                    canonical: p,
                    score: s.score,
                    links: s.links,
                    children: s.children,
                },
                Outcome::Fetch(p),
            ),
            Some(Err(e)) => (finished(s), Outcome::Failed(ResolveError::Parse(e))),
        },
        Stage::Parent => begin_canonical(s, nodes, s.canonical),
        Stage::Child(i) => {
            let k = s.children[i as int];
            match read_member(nodes, k) {
                Err(e) => (finished(s), Outcome::Failed(ResolveError::Parse(e))),
                Ok((sc, u)) => {
                    let score = if sc > s.score {
                        sc
                    } else {
                        s.score
                    };
                    let links = s.links.push((k, u));
                    let more = i + 1 < s.children.len();
                    let t = Resolution {
                        requested: s.requested,
                        stage: if more {
                            Stage::Child((i + 1) as usize)
                        } else {
                            Stage::Finished
                        },
                        canonical: s.canonical,
                        score,
                        links,
                        children: s.children,
                    };
                    if more {
                        (t, Outcome::Fetch(s.children[i + 1]))
                    } else {
                        (t, Outcome::Done(s.canonical, score, links))
                    }
                },
            }
        },
        Stage::Finished => (s, Outcome::Failed(ResolveError::Fetch)),
    }
}

pub fn contains_id(v: &Vec<i64>, x: i64) -> (r: bool)
    ensures
        r == v@.contains(x),
{
    let mut i: usize = 0;
    while i < v.len()
        invariant
            i <= v@.len(),
            forall|k: int| 0 <= k < i ==> v@[k] != x,
        decreases v@.len() - i,
    {
        if v[i] == x {
            assert(v@[i as int] == x);
            return true;
        }
        i += 1;
    }
    false
}

pub fn distinct_children(s: &Vec<i64>, c: i64) -> (r: Vec<i64>)
    ensures
        r@ == distinct_others(s@, c),
{
    let mut r: Vec<i64> = Vec::new();
    let mut i: usize = 0;
    while i < s.len()
        invariant
            i <= s@.len(),
            r@ == distinct_others(s@.subrange(0, i as int), c),
        decreases s@.len() - i,
    {
        assert(s@.subrange(0, i + 1).drop_last() =~= s@.subrange(0, i as int));
        let x = s[i];
        if x != c && !contains_id(&r, x) {
            r.push(x);
        }
        i += 1;
    }
    assert(s@.subrange(0, s@.len() as int) =~= s@);
    r
}

fn img_data(score: u64, links: &Vec<(i64, Vec<char>)>) -> (r: ImgData)
    ensures
        r.score == score,
        r.links() == char_links(links@),
{
    let mut url: VecDeque<(i64, String)> = VecDeque::new();
    let mut i: usize = 0;
    while i < links.len()
        invariant
            i <= links@.len(),
            url@.len() == i,
            forall|j: int|
                0 <= j < i ==> #[trigger] link_view(url@[j]) == (links@[j].0, links@[j].1@),
        decreases links@.len() - i,
    {
        let s = string_of(&links[i].1);
        url.push_back((links[i].0, s));
        assert(url@[i as int] == (links@[i as int].0, s));
        i += 1;
    }
    let r = ImgData { score, url };
    assert(r.links() =~= char_links(links@));
    r
}

impl GroupResolver {
    pub open spec fn wf(&self) -> bool {
        match self.stage {
            Stage::Child(i) => {
                let links = self@.links;
                let kids = self.children@;
                &&& i < kids.len()
                &&& links.len() == i + 1
                &&& links[0].0 == self.canonical
                &&& forall|k: int| 0 <= k < i ==> links[k + 1].0 == #[trigger] kids[k]
                &&& distinct_ids(kids)
                &&& !kids.contains(self.canonical)
            },
            _ => true,
        }
    }

    /// A resolver for the group of post `id`; its first request is that
    /// post's page.
    pub fn new(id: i64) -> (r: (GroupResolver, Step))
        ensures
            r.0.wf(),
            r.0@.requested == id,
            r.0@.stage == Stage::Requested,
            r.1@ == Outcome::Fetch(id),
    {
        (
            GroupResolver {
                requested: id,
                stage: Stage::Requested,
                canonical: id,
                score: 0,
                links: Vec::new(),
                children: Vec::new(),
            },
            Step::Fetch(id),
        )
    }

    fn finish(&mut self)
        ensures
            final(self)@ == finished(old(self)@),
            final(self).wf(),
    {
        self.stage = Stage::Finished;
    }

    fn start_canonical(&mut self, nodes: &Vec<DomNode>, c: i64) -> (r: Step)
        ensures
            (final(self)@, r@) == begin_canonical(old(self)@, nodes@, c),
            final(self).wf(),
            match r@ {
                Outcome::Done(d, _, links) => well_formed_group(d, links),
                _ => true,
            },
    {
        let score = match find_score(c, nodes) {
            Err(e) => {
                self.finish();
                return Step::Failed(ResolveError::Parse(e));
            },
            Ok(s) => s,
        };
        let u = match find_raw_url(nodes) {
            Err(e) => {
                self.finish();
                return Step::Failed(ResolveError::Parse(e));
            },
            Ok(u) => u,
        };
        let kids = match child_links(nodes) {
            Err(e) => {
                self.finish();
                return Step::Failed(ResolveError::Parse(e));
            },
            Ok(k) => distinct_children(&k, c),
        };
        proof {
            let k = children_of(nodes@)->Ok_0;
            lemma_distinct_others(k, c);
        }
        self.canonical = c;
        self.score = score;
        self.links = vec![(c, u)];
        assert(char_links(self.links@) =~= seq![(c, u@)]);
        self.children = kids;
        if self.children.len() == 0 {
            self.stage = Stage::Finished;
            Step::Done(c, img_data(score, &self.links))
        } else {
            self.stage = Stage::Child(0);
            Step::Fetch(self.children[0])
        }
    }

    /// Takes in the parsed page that the last step asked for.
    pub fn on_nodes(&mut self, nodes: &Vec<DomNode>) -> (r: Step)
        requires
            old(self).wf(),
            old(self).stage != Stage::Finished,
        ensures
            (final(self)@, r@) == advance(old(self)@, nodes@),
            final(self).wf(),
            match r@ {
                Outcome::Done(c, _, links) => well_formed_group(c, links),
                _ => true,
            },
    {
        match self.stage {
            Stage::Requested => match parent_link(nodes) {
                None => {
                    let c = self.requested;
                    self.start_canonical(nodes, c)
                },
                Some(Ok(p)) => {
                    self.stage = Stage::Parent;
                    self.canonical = p;
                    Step::Fetch(p)
                },
                Some(Err(e)) => {
                    self.finish();
                    Step::Failed(ResolveError::Parse(e))
                },
            },
            Stage::Parent => {
                let c = self.canonical;
                self.start_canonical(nodes, c)
            },
            Stage::Child(i) => {
                let k = self.children[i];
                let sc = match find_score(k, nodes) {
                    Err(e) => {
                        self.finish();
                        return Step::Failed(ResolveError::Parse(e));
                    },
                    Ok(s) => s,
                };
                let u = match find_raw_url(nodes) {
                    Err(e) => {
                        self.finish();
                        return Step::Failed(ResolveError::Parse(e));
                    },
                    Ok(u) => u,
                };
                if sc > self.score {
                    self.score = sc;
                }
                let ghost before = self.links@;
                let ghost kids = self.children@;
                let ghost c = self.canonical;
                self.links.push((k, u));
                assert(char_links(self.links@) =~= char_links(before).push((k, u@)));
                proof {
                    let links = char_links(self.links@);
                    assert(links[i + 1].0 == kids[i as int]);
                    assert forall|m: int| 0 <= m < i + 1 implies links[m + 1].0 == #[trigger] kids[m] by {
                        if m < i {
                            assert(links[m + 1] == char_links(before)[m + 1]);
                        }
                    }
                    assert(links[0] == char_links(before)[0]);
                    assert forall|a: int, b: int| 0 <= a < b < links.len() implies links[a].0
                        != links[b].0 by {
                        assert(links[b].0 == kids[b - 1]);
                        if a == 0 {
                            if kids[b - 1] == c {
                                assert(kids.contains(c));
                            }
                        } else {
                            assert(links[a].0 == kids[a - 1]);
                        }
                    }
                }
                if i < self.children.len() - 1 {
                    self.stage = Stage::Child(i + 1);
                    Step::Fetch(self.children[i + 1])
                } else {
                    self.stage = Stage::Finished;
                    Step::Done(self.canonical, img_data(self.score, &self.links))
                }
            },
            Stage::Finished => Step::Failed(ResolveError::Fetch),
        }
    }

    /// Takes in the markup of the page that the last step asked for.
    pub fn on_page(&mut self, html: &str) -> (r: Step)
        requires
            old(self).wf(),
            old(self).stage != Stage::Finished,
        ensures
            (final(self)@, r@) == advance(old(self)@, html_nodes(html@)),
            final(self).wf(),
            match r@ {
                Outcome::Done(c, _, links) => well_formed_group(c, links),
                _ => true,
            },
    {
        self.on_nodes(&parse_html(html))
    }

    /// The page asked for could not be fetched: the group is given up.
    pub fn on_fetch_failed(&mut self) -> (r: Step)
        ensures
            final(self)@ == finished(old(self)@),
            r@ == Outcome::Failed(ResolveError::Fetch),
            final(self).wf(),
    {
        self.finish();
        Step::Failed(ResolveError::Fetch)
    }
}

} // verus!
