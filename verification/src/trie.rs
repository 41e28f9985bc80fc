//! The per-method prefix tree of path segments.
//!
//! Each node stands for one segment position.  A node's segment is either
//! literal text, a named parameter (`:name`) or a trailing wildcard
//! (`*name`); the latter two are "wild" and match any request segment probed
//! at their position.  A node carries a terminal pattern exactly when a route
//! registration ends at it, an ordered list of node-scoped middleware
//! identifiers, and optionally the prefix of the route group that registered
//! it.

use vstd::prelude::*;

use crate::params::Params;
use crate::utils::{
    join_from, parse_pattern, seg_is_param, seg_is_star, seg_is_wild, spec_join_slash,
    spec_parse_pattern, starts_with_char,
};

verus! {

/// One segment position in the tree for one HTTP method.
#[derive(Debug, PartialEq)]
pub struct Node {
    /// The full registered pattern; present only on terminal nodes.
    pub pattern: Option<String>,
    /// This node's own segment; absent only on the synthetic root.
    pub part: Option<String>,
    /// Child nodes, in registration order.
    pub children: Vec<Node>,
    /// True when the segment is `:name` or `*name`.
    pub is_wild: bool,
    /// Identifiers of the middleware scoped to this exact node.
    pub middlewares: Vec<usize>,
    /// The owning group's prefix, when the route was registered in a group.
    pub group_id: Option<String>,
}

/// The mathematical shape of a [`Node`]: the same tree over sequences.
pub ghost struct NodeModel {
    pub pattern: Option<Seq<char>>,
    pub part: Option<Seq<char>>,
    pub children: Seq<NodeModel>,
    pub is_wild: bool,
    pub middlewares: Seq<usize>,
    pub group_id: Option<Seq<char>>,
}

pub open spec fn opt_view(o: Option<String>) -> Option<Seq<char>> {
    match o {
        Some(s) => Some(s@),
        None => None,
    }
}

pub open spec fn opt_str_view(o: Option<&str>) -> Option<Seq<char>> {
    match o {
        Some(s) => Some(s@),
        None => None,
    }
}

impl View for Node {
    type V = NodeModel;

    open spec fn view(&self) -> NodeModel
        decreases self,
    {
        NodeModel {
            pattern: opt_view(self.pattern),
            part: opt_view(self.part),
            children: children_model(self.children@),
            is_wild: self.is_wild,
            middlewares: self.middlewares@,
            group_id: opt_view(self.group_id),
        }
    }
}

/// The models of a sequence of nodes, in order.
pub open spec fn children_model(cs: Seq<Node>) -> Seq<NodeModel>
    decreases cs,
{
    if cs.len() == 0 {
        Seq::<NodeModel>::empty()
    } else {
        children_model(cs.drop_last()).push(cs.last()@)
    }
}

/// `children_model` is the element-wise view.
pub proof fn lemma_children_model(cs: Seq<Node>)
    ensures
        children_model(cs).len() == cs.len(),
        forall|i: int| 0 <= i < cs.len() ==> #[trigger] children_model(cs)[i] == cs[i]@,
    decreases cs.len(),
{
    if cs.len() > 0 {
        lemma_children_model(cs.drop_last());
        assert(children_model(cs) == children_model(cs.drop_last()).push(cs.last()@));
        assert forall|i: int| 0 <= i < cs.len() implies #[trigger] children_model(cs)[i]
            == cs[i]@ by {
            if i < cs.len() - 1 {
                assert(children_model(cs)[i] == children_model(cs.drop_last())[i]);
                assert(cs.drop_last()[i] == cs[i]);
            }
        }
    }
}

/// The model of a fresh node: no segment, no pattern, no children.
pub open spec fn spec_new_node() -> NodeModel {
    NodeModel {
        pattern: None,
        part: None,
        children: Seq::<NodeModel>::empty(),
        is_wild: false,
        middlewares: Seq::<usize>::empty(),
        group_id: None,
    }
}

/// The model of a node freshly created for segment `part` during insertion.
pub open spec fn spec_new_child(part: Seq<char>, group_id: Option<Seq<char>>) -> NodeModel {
    NodeModel {
        pattern: None,
        part: Some(part),
        children: Seq::<NodeModel>::empty(),
        is_wild: seg_is_wild(part),
        middlewares: Seq::<usize>::empty(),
        group_id,
    }
}

/// Child `i` is a literal child whose text equals `part`.
pub open spec fn is_literal_match(cs: Seq<NodeModel>, part: Seq<char>, i: int) -> bool {
    0 <= i < cs.len() && !cs[i].is_wild && cs[i].part == Some(part)
}

/// The index of the first literal child whose text equals `part`, scanning
/// from position `k`.
pub open spec fn first_literal_match(cs: Seq<NodeModel>, part: Seq<char>, k: int) -> Option<int>
    decreases cs.len() - k,
{
    if k < 0 || k >= cs.len() {
        None
    } else if !cs[k].is_wild && cs[k].part == Some(part) {
        Some(k)
    } else {
        first_literal_match(cs, part, k + 1)
    }
}

/// The index of the first wild child, scanning from position `k`.
pub open spec fn first_wild(cs: Seq<NodeModel>, k: int) -> Option<int>
    decreases cs.len() - k,
{
    if k < 0 || k >= cs.len() {
        None
    } else if cs[k].is_wild {
        Some(k)
    } else {
        first_wild(cs, k + 1)
    }
}

/// The child an insertion descends into for segment `part`: an exact literal
/// match is preferred; failing that, a wild child matches any segment.
pub open spec fn spec_match_child(cs: Seq<NodeModel>, part: Seq<char>) -> Option<int> {
    match first_literal_match(cs, part, 0) {
        Some(i) => Some(i),
        None => first_wild(cs, 0),
    }
}

/// What inserting `pattern` (already split into `parts`) at `height` does to
/// a node: at full depth the node becomes terminal for `pattern`; otherwise
/// the insertion descends into the matching child, creating it if absent.
pub open spec fn spec_insert(
    n: NodeModel,
    pattern: Seq<char>,
    parts: Seq<Seq<char>>,
    group_id: Option<Seq<char>>,
    height: int,
) -> NodeModel
    decreases parts.len() - height,
{
    if height < 0 || height >= parts.len() {
        NodeModel { pattern: Some(pattern), ..n }
    } else {
        let part = parts[height];
        match spec_match_child(n.children, part) {
            Some(i) => NodeModel {
                children: n.children.update(
                    i,
                    spec_insert(n.children[i], pattern, parts, group_id, height + 1),
                ),
                ..n
            },
            None => NodeModel {
                children: n.children.push(
                    spec_insert(spec_new_child(part, group_id), pattern, parts, group_id, height + 1),
                ),
                ..n
            },
        }
    }
}

impl Node {
    /// A fresh node with no segment, no pattern and no children.
    pub fn new() -> (n: Node)
        ensures
            n@ == spec_new_node(),
    {
        let n = Node {
            pattern: None,
            part: None,
            children: Vec::new(),
            is_wild: false,
            middlewares: Vec::new(),
            group_id: None,
        };
        proof {
            assert(n@.children =~= spec_new_node().children);
            assert(n@.middlewares =~= spec_new_node().middlewares);
        }
        n
    }

    /// The identifiers of this node's own middleware, in attachment order.
    pub fn get_middlewares(&self) -> (r: Vec<usize>)
        ensures
            r@ == self@.middlewares,
    {
        let mut out: Vec<usize> = Vec::new();
        let n = self.middlewares.len();
        let mut k: usize = 0;
        while k < n
            invariant
                k <= n,
                n == self.middlewares@.len(),
                out@ == self.middlewares@.take(k as int),
            decreases n - k,
        {
            out.push(self.middlewares[k]);
            proof {
                assert(self.middlewares@.take(k + 1) =~= self.middlewares@.take(k as int).push(
                    self.middlewares@[k as int],
                ));
            }
            k += 1;
        }
        proof {
            assert(self.middlewares@.take(n as int) =~= self.middlewares@);
        }
        out
    }

    /// A segment is wild when it binds by position: `:name` or `*name`.
    pub fn is_wild(part: &String) -> (r: bool)
        ensures
            r == seg_is_wild(part@),
    {
        starts_with_char(part.as_str(), ':') || starts_with_char(part.as_str(), '*')
    }

    /// The child an insertion of segment `part` descends into: the literal
    /// child with that exact text if one exists, else the wild child if one
    /// exists, else none.
    pub fn match_child_mut(&self, part: &String) -> (r: Option<usize>)
        ensures
            match r {
                Some(i) => i < self.children@.len() && spec_match_child(self@.children, part@)
                    == Some(i as int),
                None => spec_match_child(self@.children, part@) is None,
            },
    {
        proof {
            lemma_children_model(self.children@);
        }
        let ghost cs = self@.children;
        let n = self.children.len();
        let mut k: usize = 0;
        while k < n
            invariant
                k <= n,
                n == cs.len(),
                cs == self@.children,
                cs == children_model(self.children@),
                self.children@.len() == n,
                first_literal_match(cs, part@, 0) == first_literal_match(cs, part@, k as int),
            decreases n - k,
        {
            proof {
                lemma_children_model(self.children@);
            }
            let c = &self.children[k];
            let mut is_match = false;
            if !c.is_wild {
                if let Some(p) = &c.part {
                    if *p == *part {
                        is_match = true;
                    }
                }
            }
            proof {
                assert(cs[k as int] == c@);
                assert(is_match == (!cs[k as int].is_wild && cs[k as int].part == Some(part@)));
            }
            if is_match {
                return Some(k);
            }
            k += 1;
        }
        assert(first_literal_match(cs, part@, 0) is None);
        let mut k: usize = 0;
        while k < n
            invariant
                k <= n,
                n == cs.len(),
                cs == self@.children,
                cs == children_model(self.children@),
                self.children@.len() == n,
                first_literal_match(cs, part@, 0) is None,
                first_wild(cs, 0) == first_wild(cs, k as int),
            decreases n - k,
        {
            proof {
                lemma_children_model(self.children@);
            }
            let c = &self.children[k];
            proof {
                assert(cs[k as int] == c@);
            }
            if c.is_wild {
                return Some(k);
            }
            k += 1;
        }
        None
    }

    /// Inserts `pattern`, already split into `parts`, below this node, which
    /// stands `height` segments into the pattern.  At full depth the node
    /// becomes terminal for `pattern`; otherwise insertion descends into the
    /// matching child, creating it (tagged with `group_id`) when none
    /// matches.
    pub fn insert(&mut self, pattern: &str, parts: &Vec<String>, group_id: Option<&str>, height: usize)
        requires
            height <= parts@.len(),
        ensures
            final(self)@ == spec_insert(
                old(self)@,
                pattern@,
                parts.deep_view(),
                opt_str_view(group_id),
                height as int,
            ),
        decreases parts@.len() - height,
    {
        proof {
            assert(parts.deep_view().len() == parts@.len());
        }
        if height == parts.len() {
            self.pattern = Some(pattern.to_owned());
            proof {
                assert(self@ == NodeModel { pattern: Some(pattern@), ..old(self)@ });
            }
        } else {
            let ghost pd = parts.deep_view();
            let part = &parts[height];
            proof {
                assert(part@ == pd[height as int]);
            }
            let m = self.match_child_mut(part);
            match m {
                Some(i) => {
                    let ghost old_children = self@.children;
                    let child = &mut self.children[i];
                    let ghost old_child = *child;
                    child.insert(pattern, parts, group_id, height + 1);
                    proof {
                        lemma_children_model(old(self).children@);
                        lemma_children_model(self.children@);
                        assert(old_child@ == old_children[i as int]);
                        assert(self@.children =~= old_children.update(
                            i as int,
                            spec_insert(old_children[i as int], pattern@, pd, opt_str_view(group_id), height + 1),
                        ));
                    }
                }
                None => {
                    let mut child = Node::new();
                    child.part = Some(part.clone());
                    child.is_wild = Node::is_wild(part);
                    match group_id {
                        Some(g) => {
                            child.group_id = Some(g.to_owned());
                        },
                        None => {},
                    }
                    proof {
                        assert(child@ == spec_new_child(pd[height as int], opt_str_view(group_id)));
                    }
                    child.insert(pattern, parts, group_id, height + 1);
                    self.children.push(child);
                    proof {
                        lemma_children_model(old(self).children@);
                        lemma_children_model(self.children@);
                        assert(self@.children =~= old(self)@.children.push(
                            spec_insert(
                                spec_new_child(pd[height as int], opt_str_view(group_id)),
                                pattern@,
                                pd,
                                opt_str_view(group_id),
                                height + 1,
                            ),
                        ));
                    }
                },
            }
        }
    }
}

/// What searching for the request segments `parts` finds below node `n`,
/// which stands at `height` segments of the request.  A node whose own
/// segment is a wildcard, or that is reached at full request depth, is the
/// match if and only if it is terminal; otherwise the search goes on into
/// the children that match the next segment, in registration order, taking
/// the first complete match.
pub open spec fn spec_search(n: NodeModel, parts: Seq<Seq<char>>, height: int) -> Option<NodeModel>
    decreases parts.len() - height, 1int, 0int,
{
    if n.part is Some && (height >= parts.len() || seg_is_star(n.part->0)) {
        if n.pattern is Some {
            Some(n)
        } else {
            None
        }
    } else if 0 <= height < parts.len() {
        spec_search_children(n.children, parts, height, 0)
    } else {
        None
    }
}

/// The first complete match found under the children `cs[k..]`: a child
/// matches segment `parts[height]` when it is wild or its text equals the
/// segment, and the first child whose subtree yields a match wins.
pub open spec fn spec_search_children(
    cs: Seq<NodeModel>,
    parts: Seq<Seq<char>>,
    height: int,
    k: int,
) -> Option<NodeModel>
    decreases parts.len() - height, 0int, cs.len() - k,
{
    if !(0 <= height < parts.len()) || k < 0 || k >= cs.len() {
        None
    } else {
        let c = cs[k];
        if c.is_wild || c.part == Some(parts[height]) {
            match spec_search(c, parts, height + 1) {
                Some(found) => Some(found),
                None => spec_search_children(cs, parts, height, k + 1),
            }
        } else {
            spec_search_children(cs, parts, height, k + 1)
        }
    }
}

/// The parameter bindings of the first `k` pattern segments against the
/// request segments: a `:name` segment binds `name` to the request segment
/// at its position; a `*name` segment (unless it is the whole pattern) binds
/// `name` to the rest of the request path, rejoined with `/`.
pub open spec fn spec_params_upto(
    pp: Seq<Seq<char>>,
    path: Seq<Seq<char>>,
    k: int,
) -> Map<Seq<char>, Seq<char>>
    decreases k,
{
    if k <= 0 {
        Map::<Seq<char>, Seq<char>>::empty()
    } else {
        let m = spec_params_upto(pp, path, k - 1);
        let part = pp[k - 1];
        if seg_is_param(part) {
            m.insert(part.skip(1), path[k - 1])
        } else if seg_is_star(part) && pp.len() > 1 {
            m.insert(part.skip(1), spec_join_slash(path.skip(k - 1)))
        } else {
            m
        }
    }
}

/// All parameter bindings of pattern segments `pp` against request segments
/// `path`.
pub open spec fn spec_extract_params(pp: Seq<Seq<char>>, path: Seq<Seq<char>>) -> Map<
    Seq<char>,
    Seq<char>,
> {
    spec_params_upto(pp, path, pp.len() as int)
}

/// The matched node and its parameter bindings for the request segments
/// `path` under `root`; no match leaves the bindings empty.
pub open spec fn spec_node_info(root: NodeModel, path: Seq<Seq<char>>) -> (
    Option<NodeModel>,
    Map<Seq<char>, Seq<char>>,
) {
    match spec_search(root, path, 0) {
        Some(n) => (Some(n), spec_extract_params(spec_parse_pattern(n.pattern->0), path)),
        None => (None, Map::<Seq<char>, Seq<char>>::empty()),
    }
}

/// A found node is terminal, and its pattern has no more segments than the
/// request path.
pub proof fn lemma_search_found(n: NodeModel, parts: Seq<Seq<char>>, height: int, m: NodeModel)
    requires
        node_wf(n, height as nat),
        0 <= height <= parts.len(),
        spec_search(n, parts, height) == Some(m),
    ensures
        m.pattern is Some,
        spec_parse_pattern(m.pattern->0).len() <= parts.len(),
    decreases parts.len() - height, 1int, 0int,
{
    if n.part is Some && (height >= parts.len() || seg_is_star(n.part->0)) {
    } else if 0 <= height < parts.len() {
        lemma_search_children_found(n.children, parts, height, 0, m, height as nat);
    }
}

proof fn lemma_search_children_found(
    cs: Seq<NodeModel>,
    parts: Seq<Seq<char>>,
    height: int,
    k: int,
    m: NodeModel,
    depth: nat,
)
    requires
        forall|i: int| 0 <= i < cs.len() ==> node_wf(#[trigger] cs[i], depth + 1),
        depth == height,
        0 <= height < parts.len(),
        0 <= k,
        spec_search_children(cs, parts, height, k) == Some(m),
    ensures
        m.pattern is Some,
        spec_parse_pattern(m.pattern->0).len() <= parts.len(),
    decreases parts.len() - height, 0int, cs.len() - k,
{
    let c = cs[k];
    if (c.is_wild || c.part == Some(parts[height])) && spec_search(c, parts, height + 1) is Some {
        lemma_search_found(c, parts, height + 1, m);
    } else {
        lemma_search_children_found(cs, parts, height, k + 1, m, depth);
    }
}

impl Node {
    /// Searches for the request segments `parts` below this node, which
    /// stands `height` segments into the request; the first complete match
    /// in registration order wins.
    pub fn search(&self, parts: &Vec<String>, height: usize) -> (r: Option<&Node>)
        requires
            height <= parts@.len(),
        ensures
            match r {
                Some(m) => spec_search(self@, parts.deep_view(), height as int) == Some(m@),
                None => spec_search(self@, parts.deep_view(), height as int) is None,
            },
        decreases parts@.len() - height,
    {
        let ghost pd = parts.deep_view();
        proof {
            assert(pd.len() == parts@.len());
        }
        let mut at_terminal = false;
        if let Some(p) = &self.part {
            if height == parts.len() || starts_with_char(p.as_str(), '*') {
                at_terminal = true;
            }
            proof {
                assert(self@.part == Some(p@));
            }
        }
        proof {
            assert(at_terminal == (self@.part is Some && (height as int >= pd.len() || seg_is_star(
                self@.part->0,
            ))));
        }
        if at_terminal {
            return match &self.pattern {
                Some(_) => Some(self),
                None => None,
            };
        }
        let plen = parts.len();
        if height < plen {
            proof {
                lemma_children_model(self.children@);
            }
            let ghost cs = self@.children;
            proof {
                assert(spec_search(self@, pd, height as int) == spec_search_children(
                    cs,
                    pd,
                    height as int,
                    0,
                ));
            }
            let part = &parts[height];
            proof {
                assert(part@ == pd[height as int]);
            }
            let n = self.children.len();
            let mut k: usize = 0;
            while k < n
                invariant
                    k <= n,
                    n == cs.len(),
                    cs == self@.children,
                    cs == children_model(self.children@),
                    self.children@.len() == n,
                    height < plen,
                    plen == parts@.len(),
                    pd == parts.deep_view(),
                    pd.len() == parts@.len(),
                    part@ == pd[height as int],
                    spec_search(self@, pd, height as int) == spec_search_children(
                        cs,
                        pd,
                        height as int,
                        k as int,
                    ),
                decreases n - k,
            {
                proof {
                    lemma_children_model(self.children@);
                }
                let c = &self.children[k];
                proof {
                    assert(cs[k as int] == c@);
                }
                let mut m = c.is_wild;
                if !m {
                    if let Some(cp) = &c.part {
                        if *cp == *part {
                            m = true;
                        }
                    }
                }
                proof {
                    assert(m == (c@.is_wild || c@.part == Some(pd[height as int])));
                }
                if m {
                    let res = c.search(parts, height + 1);
                    if res.is_some() {
                        return res;
                    }
                }
                k += 1;
            }
            return None;
        }
        None
    }

    /// Resolves request segments against a method's root: the matched node,
    /// if any, together with the parameters its pattern binds.
    pub fn get_node_info_by_root_node<'a>(root: &'a Node, path_parts: &Vec<String>) -> (r: (
        Option<&'a Node>,
        Params,
    ))
        requires
            node_wf(root@, 0),
        ensures
            ({
                let info = spec_node_info(root@, path_parts.deep_view());
                &&& match r.0 {
                    Some(m) => info.0 == Some(m@),
                    None => info.0 is None,
                }
                &&& r.1@ == info.1
                &&& r.1.wf()
            }),
    {
        let node = root.search(path_parts, 0);
        match node {
            Some(found) => {
                proof {
                    lemma_search_found(root@, path_parts.deep_view(), 0, found@);
                }
                if let Some(pattern) = &found.pattern {
                    let pattern_parts = parse_pattern(pattern.as_str());
                    let params = Self::extract_params(&pattern_parts, path_parts);
                    (Some(found), params)
                } else {
                    proof {
                        assert(false);
                    }
                    (None, Params::new())
                }
            },
            None => (None, Params::new()),
        }
    }

    /// Binds the parameters of the pattern segments `pp` against the request
    /// segments `path`.
    fn extract_params(pp: &Vec<String>, path: &Vec<String>) -> (params: Params)
        requires
            pp.deep_view().len() <= path.deep_view().len(),
        ensures
            params@ == spec_extract_params(pp.deep_view(), path.deep_view()),
            params.wf(),
    {
        let ghost ppd = pp.deep_view();
        let ghost pathd = path.deep_view();
        let mut params = Params::new();
        let n = pp.len();
        let mut k: usize = 0;
        proof {
            assert(ppd.len() == pp@.len());
            assert(pathd.len() == path@.len());
        }
        while k < n
            invariant
                k <= n,
                n == pp@.len(),
                ppd == pp.deep_view(),
                pathd == path.deep_view(),
                ppd.len() == n,
                pathd.len() == path@.len(),
                ppd.len() <= pathd.len(),
                params@ == spec_params_upto(ppd, pathd, k as int),
                params.wf(),
            decreases n - k,
        {
            let part = &pp[k];
            proof {
                assert(part@ == ppd[k as int]);
            }
            if starts_with_char(part.as_str(), ':') {
                let name = part.as_str().substring_char(1, part.as_str().unicode_len()).to_owned();
                proof {
                    assert(name@ =~= part@.skip(1));
                    assert(path@[k as int]@ == pathd[k as int]);
                }
                params.insert(name, path[k].clone());
            } else if starts_with_char(part.as_str(), '*') {
                if n > 1 {
                    let name = part.as_str().substring_char(
                        1,
                        part.as_str().unicode_len(),
                    ).to_owned();
                    let joined = join_from(path, k);
                    proof {
                        assert(name@ =~= part@.skip(1));
                    }
                    params.insert(name, joined);
                }
            }
            k += 1;
        }
        params
    }
}

/// Sibling discipline: no two literal children share their text, and at most
/// one child is wild.
pub open spec fn unique_children(cs: Seq<NodeModel>) -> bool {
    &&& forall|i: int, j: int|
        #![trigger cs[i], cs[j]]
        0 <= i < j < cs.len() && !cs[i].is_wild && !cs[j].is_wild ==> cs[i].part != cs[j].part
    &&& forall|i: int, j: int|
        #![trigger cs[i], cs[j]]
        0 <= i < j < cs.len() ==> !(cs[i].is_wild && cs[j].is_wild)
}

/// What appending `handler` to the middleware of the node that a search for
/// `parts` finds does to the tree; a failed search leaves it unchanged.
pub open spec fn spec_add_mw(
    n: NodeModel,
    parts: Seq<Seq<char>>,
    height: int,
    handler: usize,
) -> NodeModel
    decreases parts.len() - height, 1int, 0int,
{
    if n.part is Some && (height >= parts.len() || seg_is_star(n.part->0)) {
        if n.pattern is Some {
            NodeModel { middlewares: n.middlewares.push(handler), ..n }
        } else {
            n
        }
    } else if 0 <= height < parts.len() {
        NodeModel { children: spec_add_mw_children(n.children, parts, height, 0, handler), ..n }
    } else {
        n
    }
}

pub open spec fn spec_add_mw_children(
    cs: Seq<NodeModel>,
    parts: Seq<Seq<char>>,
    height: int,
    k: int,
    handler: usize,
) -> Seq<NodeModel>
    decreases parts.len() - height, 0int, cs.len() - k,
{
    if !(0 <= height < parts.len()) || k < 0 || k >= cs.len() {
        cs
    } else {
        let c = cs[k];
        if (c.is_wild || c.part == Some(parts[height])) && spec_search(c, parts, height + 1)
            is Some {
            cs.update(k, spec_add_mw(c, parts, height + 1, handler))
        } else {
            spec_add_mw_children(cs, parts, height, k + 1, handler)
        }
    }
}

/// Attaching middleware changes no node's segment, pattern or shape, so it
/// preserves well-formedness.
pub proof fn lemma_add_mw_wf(n: NodeModel, parts: Seq<Seq<char>>, height: int, handler: usize)
    requires
        node_wf(n, height as nat),
        0 <= height,
    ensures
        node_wf(spec_add_mw(n, parts, height, handler), height as nat),
    decreases parts.len() - height, 1int, 0int,
{
    let out = spec_add_mw(n, parts, height, handler);
    if n.part is Some && (height >= parts.len() || seg_is_star(n.part->0)) {
    } else if 0 <= height < parts.len() {
        lemma_add_mw_children_wf(n.children, parts, height, 0, handler, height as nat);
        let cs2 = out.children;
        assert(unique_children(cs2)) by {
            assert forall|a: int, b: int|
                #![trigger cs2[a], cs2[b]]
                0 <= a < b < cs2.len() implies (!(!cs2[a].is_wild && !cs2[b].is_wild && cs2[a].part
                == cs2[b].part) && !(cs2[a].is_wild && cs2[b].is_wild)) by {
                assert(n.children[a] == n.children[a]);
                assert(n.children[b] == n.children[b]);
            }
        }
    }
}

proof fn lemma_add_mw_children_wf(
    cs: Seq<NodeModel>,
    parts: Seq<Seq<char>>,
    height: int,
    k: int,
    handler: usize,
    depth: nat,
)
    requires
        forall|i: int| 0 <= i < cs.len() ==> node_wf(#[trigger] cs[i], depth + 1),
        depth == height,
        0 <= height,
    ensures
        ({
            let cs2 = spec_add_mw_children(cs, parts, height, k, handler);
            &&& cs2.len() == cs.len()
            &&& forall|i: int|
                0 <= i < cs.len() ==> (#[trigger] cs2[i]).part == cs[i].part && cs2[i].is_wild
                    == cs[i].is_wild && node_wf(cs2[i], depth + 1)
        }),
    decreases parts.len() - height, 0int, cs.len() - k,
{
    if !(0 <= height < parts.len()) || k < 0 || k >= cs.len() {
    } else {
        let c = cs[k];
        if (c.is_wild || c.part == Some(parts[height])) && spec_search(c, parts, height + 1)
            is Some {
            lemma_add_mw_wf(c, parts, height + 1, handler);
            lemma_add_mw_keeps_identity(c, parts, height + 1, handler);
        } else {
            lemma_add_mw_children_wf(cs, parts, height, k + 1, handler, depth);
        }
    }
}

/// Attaching middleware never changes a node's segment, wild flag or
/// pattern.
proof fn lemma_add_mw_keeps_identity(
    n: NodeModel,
    parts: Seq<Seq<char>>,
    height: int,
    handler: usize,
)
    ensures
        ({
            let out = spec_add_mw(n, parts, height, handler);
            out.part == n.part && out.is_wild == n.is_wild && out.pattern == n.pattern
        }),
    decreases parts.len() - height, 1int, 0int,
{
}

/// Nothing in the tree is wild: every node matches by its literal text.
pub open spec fn all_literal(n: NodeModel) -> bool
    decreases n,
{
    &&& !n.is_wild
    &&& forall|i: int| 0 <= i < n.children.len() ==> all_literal(#[trigger] n.children[i])
}

/// The pattern stands registered below `n`: exact literal children spell out
/// `parts[k..]` and the node at full depth is terminal for `pattern`.
pub open spec fn registered_at(
    n: NodeModel,
    parts: Seq<Seq<char>>,
    k: int,
    pattern: Seq<char>,
) -> bool
    decreases parts.len() - k,
{
    if k >= parts.len() {
        n.pattern == Some(pattern)
    } else if k < 0 {
        false
    } else {
        exists|i: int|
            0 <= i < n.children.len() && (#[trigger] n.children[i]).part == Some(parts[k])
                && registered_at(n.children[i], parts, k + 1, pattern)
    }
}

proof fn lemma_first_wild_none_of_literal(cs: Seq<NodeModel>, k: int)
    requires
        0 <= k,
        forall|j: int| 0 <= j < cs.len() ==> !(#[trigger] cs[j]).is_wild,
    ensures
        first_wild(cs, k) is None,
    decreases cs.len() - k,
{
    if k < cs.len() {
        lemma_first_wild_none_of_literal(cs, k + 1);
    }
}

proof fn lemma_first_literal_match_is_match(cs: Seq<NodeModel>, part: Seq<char>, k: int)
    requires
        0 <= k,
        first_literal_match(cs, part, k) is Some,
    ensures
        is_literal_match(cs, part, first_literal_match(cs, part, k)->0),
    decreases cs.len() - k,
{
    if !(k >= cs.len()) && !(!cs[k].is_wild && cs[k].part == Some(part)) {
        lemma_first_literal_match_is_match(cs, part, k + 1);
    }
}

/// Inserting a pattern with only literal segments keeps the tree literal.
pub proof fn lemma_insert_keeps_literal(
    n: NodeModel,
    pattern: Seq<char>,
    parts: Seq<Seq<char>>,
    group_id: Option<Seq<char>>,
    height: int,
)
    requires
        all_literal(n),
        forall|i: int| 0 <= i < parts.len() ==> !seg_is_wild(#[trigger] parts[i]),
    ensures
        all_literal(spec_insert(n, pattern, parts, group_id, height)),
    decreases parts.len() - height,
{
    let out = spec_insert(n, pattern, parts, group_id, height);
    if height < 0 || height >= parts.len() {
    } else {
        let part = parts[height];
        match spec_match_child(n.children, part) {
            Some(i) => {
                assert(0 <= i < n.children.len()) by {
                    if first_literal_match(n.children, part, 0) is Some {
                        lemma_first_literal_match_bounds(n.children, part, 0);
                    } else {
                        lemma_first_wild_bounds(n.children, 0);
                    }
                }
                lemma_insert_keeps_literal(n.children[i], pattern, parts, group_id, height + 1);
                lemma_insert_keeps_identity(n.children[i], pattern, parts, group_id, height + 1);
                assert forall|j: int| 0 <= j < out.children.len() implies all_literal(
                    #[trigger] out.children[j],
                ) by {
                    if j != i {
                        assert(out.children[j] == n.children[j]);
                    }
                }
            },
            None => {
                let fresh = spec_new_child(part, group_id);
                assert(all_literal(fresh));
                lemma_insert_keeps_literal(fresh, pattern, parts, group_id, height + 1);
                assert forall|j: int| 0 <= j < out.children.len() implies all_literal(
                    #[trigger] out.children[j],
                ) by {
                    if j < out.children.len() - 1 {
                        assert(out.children[j] == n.children[j]);
                    }
                }
            },
        }
    }
}

/// Inserting a pattern with only literal segments into an all-literal tree
/// registers it: the tree then spells the pattern out along exact literal
/// children down to a node terminal for it.
pub proof fn lemma_insert_registers(
    n: NodeModel,
    pattern: Seq<char>,
    parts: Seq<Seq<char>>,
    group_id: Option<Seq<char>>,
    height: int,
)
    requires
        all_literal(n),
        forall|i: int| 0 <= i < parts.len() ==> !seg_is_wild(#[trigger] parts[i]),
        0 <= height <= parts.len(),
    ensures
        registered_at(spec_insert(n, pattern, parts, group_id, height), parts, height, pattern),
    decreases parts.len() - height,
{
    let out = spec_insert(n, pattern, parts, group_id, height);
    if height >= parts.len() {
    } else {
        let part = parts[height];
        match spec_match_child(n.children, part) {
            Some(i) => {
                assert(0 <= i < n.children.len() && !n.children[i].is_wild && n.children[i].part
                    == Some(part)) by {
                    if first_literal_match(n.children, part, 0) is Some {
                        lemma_first_literal_match_is_match(n.children, part, 0);
                    } else {
                        lemma_first_wild_is_wild(n.children, 0);
                        assert(all_literal(n.children[first_wild(n.children, 0)->0]));
                    }
                }
                lemma_insert_registers(n.children[i], pattern, parts, group_id, height + 1);
                lemma_insert_keeps_identity(n.children[i], pattern, parts, group_id, height + 1);
                assert(out.children[i].part == Some(part));
                assert(registered_at(out.children[i], parts, height + 1, pattern));
            },
            None => {
                let fresh = spec_new_child(part, group_id);
                lemma_insert_registers(fresh, pattern, parts, group_id, height + 1);
                lemma_insert_keeps_identity(fresh, pattern, parts, group_id, height + 1);
                let j = out.children.len() - 1;
                assert(out.children[j].part == Some(part));
                assert(registered_at(out.children[j], parts, height + 1, pattern));
            },
        }
    }
}

proof fn lemma_first_wild_is_wild(cs: Seq<NodeModel>, k: int)
    requires
        0 <= k,
        first_wild(cs, k) is Some,
    ensures
        0 <= first_wild(cs, k)->0 < cs.len(),
        cs[first_wild(cs, k)->0].is_wild,
    decreases cs.len() - k,
{
    if !(k >= cs.len()) && !cs[k].is_wild {
        lemma_first_wild_is_wild(cs, k + 1);
    }
}

/// In a well-formed, all-literal tree, a registered pattern's own segments
/// are found by the search, and the found node is terminal for that very
/// pattern.
pub proof fn lemma_literal_search(n: NodeModel, parts: Seq<Seq<char>>, k: int, pattern: Seq<char>)
    requires
        node_wf(n, k as nat),
        all_literal(n),
        0 <= k <= parts.len(),
        registered_at(n, parts, k, pattern),
        k < parts.len() || n.part is Some,
    ensures
        spec_search(n, parts, k) is Some,
        spec_search(n, parts, k)->0.pattern == Some(pattern),
    decreases parts.len() - k,
{
    if k == parts.len() {
    } else {
        let cs = n.children;
        let i = choose|i: int|
            0 <= i < cs.len() && (#[trigger] cs[i]).part == Some(parts[k]) && registered_at(
                cs[i],
                parts,
                k + 1,
                pattern,
            );
        assert(n.part is Some ==> !seg_is_star(n.part->0)) by {
            if n.part is Some && seg_is_star(n.part->0) {
                assert(n.is_wild);
            }
        }
        lemma_literal_search(cs[i], parts, k + 1, pattern);
        let m = spec_search(cs[i], parts, k + 1)->0;
        assert forall|a: int| 0 <= a < cs.len() implies !(#[trigger] cs[a]).is_wild by {
            assert(all_literal(cs[a]));
        }
        lemma_literal_scan(cs, parts, k, 0, i, m);
        assert(spec_search(n, parts, k) == spec_search_children(cs, parts, k, 0));
    }
}

/// Scanning the children of a literal node, only the unique literal child
/// that equals the request segment matches, and the scan returns its result.
proof fn lemma_literal_scan(
    cs: Seq<NodeModel>,
    parts: Seq<Seq<char>>,
    k: int,
    j: int,
    i: int,
    m: NodeModel,
)
    requires
        unique_children(cs),
        forall|a: int| 0 <= a < cs.len() ==> !(#[trigger] cs[a]).is_wild,
        0 <= k < parts.len(),
        0 <= j <= i < cs.len(),
        cs[i].part == Some(parts[k]),
        spec_search(cs[i], parts, k + 1) == Some(m),
    ensures
        spec_search_children(cs, parts, k, j) == Some(m),
    decreases i - j,
{
    if j == i {
    } else {
        assert(cs[j].part != Some(parts[k]));
        lemma_literal_scan(cs, parts, k, j + 1, i, m);
    }
}

/// A pattern with only literal segments binds no parameters.
pub proof fn lemma_literal_params_empty(pp: Seq<Seq<char>>, path: Seq<Seq<char>>)
    requires
        forall|i: int| 0 <= i < pp.len() ==> !seg_is_wild(#[trigger] pp[i]),
    ensures
        spec_extract_params(pp, path) == Map::<Seq<char>, Seq<char>>::empty(),
{
    lemma_literal_params_upto(pp, path, pp.len() as int);
}

proof fn lemma_literal_params_upto(pp: Seq<Seq<char>>, path: Seq<Seq<char>>, k: int)
    requires
        forall|i: int| 0 <= i < pp.len() ==> !seg_is_wild(#[trigger] pp[i]),
        k <= pp.len(),
    ensures
        spec_params_upto(pp, path, k) == Map::<Seq<char>, Seq<char>>::empty(),
    decreases k,
{
    if k > 0 {
        lemma_literal_params_upto(pp, path, k - 1);
    }
}

/// Exact resolution of literal routes: in a well-formed, all-literal tree, a
/// request for the very segments of a registered pattern resolves to the
/// node whose terminal pattern is that pattern, with no parameters bound.
pub proof fn lemma_literal_route_resolves(
    root: NodeModel,
    pattern: Seq<char>,
    parts: Seq<Seq<char>>,
)
    requires
        node_wf(root, 0),
        all_literal(root),
        parts == spec_parse_pattern(pattern),
        forall|i: int| 0 <= i < parts.len() ==> !seg_is_wild(#[trigger] parts[i]),
        registered_at(root, parts, 0, pattern),
        parts.len() > 0,
    ensures
        spec_node_info(root, parts).0 is Some,
        spec_node_info(root, parts).0->0.pattern == Some(pattern),
        spec_node_info(root, parts).1 == Map::<Seq<char>, Seq<char>>::empty(),
{
    lemma_literal_search(root, parts, 0, pattern);
    let m = spec_search(root, parts, 0)->0;
    assert(spec_parse_pattern(m.pattern->0) == parts);
    lemma_literal_params_empty(parts, parts);
}

/// Registration and resolution of literal routes, end to end: inserting a
/// pattern with only literal segments into a well-formed, all-literal tree
/// and then requesting exactly that pattern's segments resolves to the node
/// terminal for that very pattern, with no parameters bound.
pub proof fn lemma_literal_registration_resolves(
    base: NodeModel,
    pattern: Seq<char>,
    parts: Seq<Seq<char>>,
    group_id: Option<Seq<char>>,
)
    requires
        node_wf(base, 0),
        all_literal(base),
        parts == spec_parse_pattern(pattern),
        forall|i: int| 0 <= i < parts.len() ==> !seg_is_wild(#[trigger] parts[i]),
        parts.len() > 0,
    ensures
        ({
            let root = spec_insert(base, pattern, parts, group_id, 0);
            &&& spec_node_info(root, parts).0 is Some
            &&& spec_node_info(root, parts).0->0.pattern == Some(pattern)
            &&& spec_node_info(root, parts).1 == Map::<Seq<char>, Seq<char>>::empty()
        }),
{
    let root = spec_insert(base, pattern, parts, group_id, 0);
    lemma_insert_wf(base, pattern, parts, group_id, 0);
    lemma_insert_keeps_literal(base, pattern, parts, group_id, 0);
    lemma_insert_registers(base, pattern, parts, group_id, 0);
    lemma_literal_route_resolves(root, pattern, parts);
}

/// A failed search leaves the tree unchanged by middleware attachment.
proof fn lemma_add_mw_noop(n: NodeModel, parts: Seq<Seq<char>>, height: int, handler: usize)
    requires
        spec_search(n, parts, height) is None,
    ensures
        spec_add_mw(n, parts, height, handler) == n,
    decreases parts.len() - height, 1int, 0int,
{
    if n.part is Some && (height >= parts.len() || seg_is_star(n.part->0)) {
    } else if 0 <= height < parts.len() {
        lemma_add_mw_children_noop(n.children, parts, height, 0, handler);
        assert(spec_add_mw(n, parts, height, handler) == NodeModel { children: n.children, ..n });
    }
}

proof fn lemma_add_mw_children_noop(
    cs: Seq<NodeModel>,
    parts: Seq<Seq<char>>,
    height: int,
    k: int,
    handler: usize,
)
    requires
        spec_search_children(cs, parts, height, k) is None,
    ensures
        spec_add_mw_children(cs, parts, height, k, handler) == cs,
    decreases parts.len() - height, 0int, cs.len() - k,
{
    if !(0 <= height < parts.len()) || k < 0 || k >= cs.len() {
    } else {
        lemma_add_mw_children_noop(cs, parts, height, k + 1, handler);
    }
}

impl Node {
    /// Appends `handler` to the middleware list of the node that a search
    /// for `parts` finds below this node; returns whether such a node was
    /// found, and changes nothing otherwise.
    pub fn add_middleware(&mut self, parts: &Vec<String>, height: usize, handler: usize) -> (r:
        bool)
        requires
            height <= parts@.len(),
        ensures
            r == (spec_search(old(self)@, parts.deep_view(), height as int) is Some),
            final(self)@ == spec_add_mw(old(self)@, parts.deep_view(), height as int, handler),
        decreases parts@.len() - height,
    {
        let ghost pd = parts.deep_view();
        proof {
            assert(pd.len() == parts@.len());
        }
        let mut at_terminal = false;
        if let Some(p) = &self.part {
            if height == parts.len() || starts_with_char(p.as_str(), '*') {
                at_terminal = true;
            }
            proof {
                assert(self@.part == Some(p@));
            }
        }
        proof {
            assert(at_terminal == (self@.part is Some && (height as int >= pd.len() || seg_is_star(
                self@.part->0,
            ))));
        }
        if at_terminal {
            if self.pattern.is_some() {
                self.middlewares.push(handler);
                proof {
                    assert(self@ == NodeModel {
                        middlewares: old(self)@.middlewares.push(handler),
                        ..old(self)@
                    });
                }
                return true;
            }
            return false;
        }
        let plen = parts.len();
        if height < plen {
            proof {
                lemma_children_model(self.children@);
            }
            let ghost cs0 = self@.children;
            let part_owned = parts[height].clone();
            let part = &part_owned;
            proof {
                assert(part@ == pd[height as int]);
            }
            let n = self.children.len();
            let mut k: usize = 0;
            proof {
                assert(spec_search(old(self)@, pd, height as int) == spec_search_children(
                    cs0,
                    pd,
                    height as int,
                    0,
                ));
                assert(spec_add_mw(old(self)@, pd, height as int, handler) == NodeModel {
                    children: spec_add_mw_children(cs0, pd, height as int, 0, handler),
                    ..old(self)@
                });
            }
            while k < n
                invariant
                    k <= n,
                    n == cs0.len(),
                    cs0 == self@.children,
                    cs0 == children_model(self.children@),
                    self.children@.len() == n,
                    height < plen,
                    plen == parts@.len(),
                    pd == parts.deep_view(),
                    pd.len() == parts@.len(),
                    part@ == pd[height as int],
                    spec_search(old(self)@, pd, height as int) == spec_search_children(
                        cs0,
                        pd,
                        height as int,
                        0,
                    ),
                    spec_add_mw(old(self)@, pd, height as int, handler) == (NodeModel {
                        children: spec_add_mw_children(cs0, pd, height as int, 0, handler),
                        ..old(self)@
                    }),
                    self.pattern == old(self).pattern,
                    self.part == old(self).part,
                    self.is_wild == old(self).is_wild,
                    self.middlewares == old(self).middlewares,
                    self.group_id == old(self).group_id,
                    self@ == old(self)@,
                    spec_add_mw_children(cs0, pd, height as int, 0, handler)
                        == spec_add_mw_children(cs0, pd, height as int, k as int, handler),
                    spec_search_children(cs0, pd, height as int, 0) == spec_search_children(
                        cs0,
                        pd,
                        height as int,
                        k as int,
                    ),
                decreases n - k,
            {
                proof {
                    lemma_children_model(self.children@);
                }
                let matches: bool;
                {
                    let c = &self.children[k];
                    proof {
                        assert(cs0[k as int] == c@);
                    }
                    let mut m = c.is_wild;
                    if !m {
                        if let Some(cp) = &c.part {
                            if *cp == *part {
                                m = true;
                            }
                        }
                    }
                    proof {
                        assert(m == (c@.is_wild || c@.part == Some(pd[height as int])));
                    }
                    matches = m;
                }
                if matches {
                    let child = &mut self.children[k];
                    let ghost old_child = *child;
                    let hit = child.add_middleware(parts, height + 1, handler);
                    proof {
                        lemma_children_model(old(self).children@);
                        lemma_children_model(self.children@);
                        assert(old_child@ == cs0[k as int]);
                    }
                    if hit {
                        proof {
                            assert(spec_search_children(cs0, pd, height as int, k as int)
                                is Some);
                            assert(self@.children =~= cs0.update(
                                k as int,
                                spec_add_mw(cs0[k as int], pd, height + 1, handler),
                            ));
                            assert(self@ == NodeModel {
                                children: spec_add_mw_children(cs0, pd, height as int, 0, handler),
                                ..old(self)@
                            });
                        }
                        return true;
                    }
                    proof {
                        lemma_add_mw_noop(old_child@, pd, height + 1, handler);
                        assert(self@.children =~= cs0);
                        assert(self@ == old(self)@);
                    }
                }
                k += 1;
            }
            return false;
        }
        false
    }
}

proof fn lemma_first_literal_match_none(cs: Seq<NodeModel>, part: Seq<char>, k: int)
    requires
        0 <= k,
        first_literal_match(cs, part, k) is None,
    ensures
        forall|j: int| k <= j < cs.len() ==> !(!(#[trigger] cs[j]).is_wild && cs[j].part == Some(part)),
    decreases cs.len() - k,
{
    if k < cs.len() {
        lemma_first_literal_match_none(cs, part, k + 1);
    }
}

proof fn lemma_first_wild_none(cs: Seq<NodeModel>, k: int)
    requires
        0 <= k,
        first_wild(cs, k) is None,
    ensures
        forall|j: int| k <= j < cs.len() ==> !(#[trigger] cs[j]).is_wild,
    decreases cs.len() - k,
{
    if k < cs.len() {
        lemma_first_wild_none(cs, k + 1);
    }
}

/// Insertion never changes a node's own segment, wild flag, group tag or
/// middleware.
pub proof fn lemma_insert_keeps_identity(
    n: NodeModel,
    pattern: Seq<char>,
    parts: Seq<Seq<char>>,
    group_id: Option<Seq<char>>,
    height: int,
)
    ensures
        ({
            let out = spec_insert(n, pattern, parts, group_id, height);
            out.part == n.part && out.is_wild == n.is_wild && out.group_id == n.group_id
                && out.middlewares == n.middlewares
        }),
    decreases parts.len() - height,
{
}

/// Insertion of a properly split pattern preserves well-formedness.
pub proof fn lemma_insert_wf(
    n: NodeModel,
    pattern: Seq<char>,
    parts: Seq<Seq<char>>,
    group_id: Option<Seq<char>>,
    height: int,
)
    requires
        node_wf(n, height as nat),
        0 <= height <= parts.len(),
        parts == spec_parse_pattern(pattern),
    ensures
        node_wf(spec_insert(n, pattern, parts, group_id, height), height as nat),
    decreases parts.len() - height,
{
    let out = spec_insert(n, pattern, parts, group_id, height);
    if height >= parts.len() {
        assert(spec_parse_pattern(pattern).len() == height);
    } else {
        let part = parts[height];
        crate::utils::lemma_parse_pattern_segments(pattern);
        assert(part.len() > 0);
        match spec_match_child(n.children, part) {
            Some(i) => {
                assert(0 <= i < n.children.len()) by {
                    if first_literal_match(n.children, part, 0) is Some {
                        lemma_first_literal_match_bounds(n.children, part, 0);
                    } else {
                        lemma_first_wild_bounds(n.children, 0);
                    }
                }
                assert(node_wf(n.children[i], (height + 1) as nat));
                lemma_insert_wf(n.children[i], pattern, parts, group_id, height + 1);
                lemma_insert_keeps_identity(n.children[i], pattern, parts, group_id, height + 1);
                let cs2 = out.children;
                assert(cs2 =~= n.children.update(
                    i,
                    spec_insert(n.children[i], pattern, parts, group_id, height + 1),
                ));
                assert(unique_children(cs2)) by {
                    assert forall|a: int, b: int|
                        #![trigger cs2[a], cs2[b]]
                        0 <= a < b < cs2.len() implies (!(!cs2[a].is_wild && !cs2[b].is_wild
                        && cs2[a].part == cs2[b].part) && !(cs2[a].is_wild && cs2[b].is_wild)) by {
                        assert(cs2[a].part == n.children[a].part);
                        assert(cs2[a].is_wild == n.children[a].is_wild);
                        assert(cs2[b].part == n.children[b].part);
                        assert(cs2[b].is_wild == n.children[b].is_wild);
                        assert(n.children[a] == n.children[a]);
                    }
                }
            },
            None => {
                lemma_first_literal_match_none(n.children, part, 0);
                lemma_first_wild_none(n.children, 0);
                let fresh = spec_new_child(part, group_id);
                assert(node_wf(fresh, (height + 1) as nat));
                lemma_insert_wf(fresh, pattern, parts, group_id, height + 1);
                lemma_insert_keeps_identity(fresh, pattern, parts, group_id, height + 1);
                let child = spec_insert(fresh, pattern, parts, group_id, height + 1);
                let cs2 = out.children;
                assert(cs2 =~= n.children.push(child));
                assert(unique_children(cs2)) by {
                    assert forall|a: int, b: int|
                        #![trigger cs2[a], cs2[b]]
                        0 <= a < b < cs2.len() implies (!(!cs2[a].is_wild && !cs2[b].is_wild
                        && cs2[a].part == cs2[b].part) && !(cs2[a].is_wild && cs2[b].is_wild)) by {
                        if b == cs2.len() - 1 {
                            assert(cs2[a] == n.children[a]);
                            assert(cs2[b] == child);
                        } else {
                            assert(cs2[a] == n.children[a]);
                            assert(cs2[b] == n.children[b]);
                        }
                    }
                }
            },
        }
    }
}

proof fn lemma_first_literal_match_bounds(cs: Seq<NodeModel>, part: Seq<char>, k: int)
    requires
        0 <= k,
        first_literal_match(cs, part, k) is Some,
    ensures
        0 <= first_literal_match(cs, part, k)->0 < cs.len(),
    decreases cs.len() - k,
{
    if !(k >= cs.len()) && !(!cs[k].is_wild && cs[k].part == Some(part)) {
        lemma_first_literal_match_bounds(cs, part, k + 1);
    }
}

proof fn lemma_first_wild_bounds(cs: Seq<NodeModel>, k: int)
    requires
        0 <= k,
        first_wild(cs, k) is Some,
    ensures
        0 <= first_wild(cs, k)->0 < cs.len(),
    decreases cs.len() - k,
{
    if !(k >= cs.len()) && !cs[k].is_wild {
        lemma_first_wild_bounds(cs, k + 1);
    }
}

/// Well-formedness of a node standing at `depth` segments below the root:
/// the wild flag agrees with the segment text, only the root lacks a
/// segment, a terminal pattern splits into exactly `depth` segments, and the
/// children (one level deeper) obey the sibling discipline.
pub open spec fn node_wf(n: NodeModel, depth: nat) -> bool
    decreases n,
{
    &&& (n.is_wild <==> (n.part is Some && seg_is_wild(n.part->0)))
    &&& (depth == 0 ==> n.part is None)
    &&& (depth > 0 ==> n.part is Some && n.part->0.len() > 0)
    &&& (n.pattern is Some ==> spec_parse_pattern(n.pattern->0).len() == depth)
    &&& unique_children(n.children)
    &&& forall|i: int|
        0 <= i < n.children.len() ==> node_wf(#[trigger] n.children[i], depth + 1)
}

} // verus!
