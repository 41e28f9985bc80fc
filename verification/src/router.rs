//! The route table: one trie root per HTTP method, and the handler for each
//! registered `(method, pattern)` pair.
//!
//! Both tables have unique keys; registering the identical `(method,
//! pattern)` twice overwrites the earlier handler, so the last registration
//! wins.

use vstd::prelude::*;

use crate::params::Params;
use crate::trie::{
    lemma_add_mw_wf, lemma_insert_wf, node_wf, opt_str_view, spec_add_mw, spec_insert,
    spec_new_node, spec_node_info, spec_search, Node, NodeModel,
};
use crate::utils::{parse_pattern, spec_parse_pattern};

verus! {

/// The route registry: per-method tries and the leaf handlers.
#[derive(Debug)]
pub struct Router {
    /// One trie root per HTTP method token.
    pub node_tree: Vec<(String, Node)>,
    /// The handler registered for each `(method, pattern)` pair.
    pub handlers: Vec<(String, String, usize)>,
}

/// The mapping from method to trie root that the table denotes.
pub open spec fn tree_assoc(items: Seq<(String, Node)>) -> Map<Seq<char>, NodeModel>
    decreases items.len(),
{
    if items.len() == 0 {
        Map::<Seq<char>, NodeModel>::empty()
    } else {
        tree_assoc(items.drop_last()).insert(items.last().0@, items.last().1@)
    }
}

/// The mapping from `(method, pattern)` to handler that the table denotes;
/// later entries win.
pub open spec fn handler_assoc(items: Seq<(String, String, usize)>) -> Map<
    (Seq<char>, Seq<char>),
    usize,
>
    decreases items.len(),
{
    if items.len() == 0 {
        Map::<(Seq<char>, Seq<char>), usize>::empty()
    } else {
        handler_assoc(items.drop_last()).insert(
            (items.last().0@, items.last().1@),
            items.last().2,
        )
    }
}

pub open spec fn unique_tree_keys(items: Seq<(String, Node)>) -> bool {
    forall|i: int, j: int|
        #![trigger items[i], items[j]]
        0 <= i < j < items.len() ==> items[i].0@ != items[j].0@
}

pub open spec fn unique_handler_keys(items: Seq<(String, String, usize)>) -> bool {
    forall|i: int, j: int|
        #![trigger items[i], items[j]]
        0 <= i < j < items.len() ==> (items[i].0@, items[i].1@) != (items[j].0@, items[j].1@)
}

proof fn lemma_tree_found(items: Seq<(String, Node)>, i: int)
    requires
        unique_tree_keys(items),
        0 <= i < items.len(),
    ensures
        tree_assoc(items).contains_key(items[i].0@),
        tree_assoc(items)[items[i].0@] == items[i].1@,
    decreases items.len(),
{
    if i < items.len() - 1 {
        assert(unique_tree_keys(items.drop_last()));
        assert(items.drop_last()[i] == items[i]);
        lemma_tree_found(items.drop_last(), i);
        assert(items.last().0@ != items[i].0@);
    }
}

proof fn lemma_tree_absent(items: Seq<(String, Node)>, key: Seq<char>)
    requires
        forall|i: int| 0 <= i < items.len() ==> (#[trigger] items[i]).0@ != key,
    ensures
        !tree_assoc(items).contains_key(key),
    decreases items.len(),
{
    if items.len() > 0 {
        assert(forall|i: int|
            0 <= i < items.drop_last().len() ==> (#[trigger] items.drop_last()[i]).0@ != key);
        lemma_tree_absent(items.drop_last(), key);
    }
}

proof fn lemma_tree_update(items: Seq<(String, Node)>, i: int, kv: (String, Node))
    requires
        unique_tree_keys(items),
        0 <= i < items.len(),
        items[i].0@ == kv.0@,
    ensures
        tree_assoc(items.update(i, kv)) == tree_assoc(items).insert(kv.0@, kv.1@),
        unique_tree_keys(items.update(i, kv)),
    decreases items.len(),
{
    let upd = items.update(i, kv);
    assert forall|a: int, b: int|
        #![trigger upd[a], upd[b]]
        0 <= a < b < upd.len() implies upd[a].0@ != upd[b].0@ by {
        assert(items[a].0@ != items[b].0@);
    }
    if i == items.len() - 1 {
        assert(upd.drop_last() =~= items.drop_last());
        assert(upd.last() == kv);
        assert(tree_assoc(items.drop_last()).insert(items.last().0@, items.last().1@).insert(
            kv.0@,
            kv.1@,
        ) =~= tree_assoc(items.drop_last()).insert(kv.0@, kv.1@));
    } else {
        assert(upd.drop_last() =~= items.drop_last().update(i, kv));
        assert(unique_tree_keys(items.drop_last()));
        assert(items.drop_last()[i] == items[i]);
        lemma_tree_update(items.drop_last(), i, kv);
        assert(upd.last() == items.last());
        assert(items.last().0@ != kv.0@);
        assert(tree_assoc(items.drop_last()).insert(kv.0@, kv.1@).insert(
            items.last().0@,
            items.last().1@,
        ) =~= tree_assoc(items.drop_last()).insert(items.last().0@, items.last().1@).insert(
            kv.0@,
            kv.1@,
        ));
    }
}

proof fn lemma_handler_update(items: Seq<(String, String, usize)>, i: int, kv: (String, String, usize))
    requires
        unique_handler_keys(items),
        0 <= i < items.len(),
        items[i].0@ == kv.0@,
        items[i].1@ == kv.1@,
    ensures
        handler_assoc(items.update(i, kv)) == handler_assoc(items).insert((kv.0@, kv.1@), kv.2),
        unique_handler_keys(items.update(i, kv)),
    decreases items.len(),
{
    let upd = items.update(i, kv);
    assert forall|a: int, b: int|
        #![trigger upd[a], upd[b]]
        0 <= a < b < upd.len() implies (upd[a].0@, upd[a].1@) != (upd[b].0@, upd[b].1@) by {
        assert((items[a].0@, items[a].1@) != (items[b].0@, items[b].1@));
    }
    if i == items.len() - 1 {
        assert(upd.drop_last() =~= items.drop_last());
        assert(upd.last() == kv);
        assert(handler_assoc(items.drop_last()).insert(
            (items.last().0@, items.last().1@),
            items.last().2,
        ).insert((kv.0@, kv.1@), kv.2) =~= handler_assoc(items.drop_last()).insert(
            (kv.0@, kv.1@),
            kv.2,
        ));
    } else {
        assert(upd.drop_last() =~= items.drop_last().update(i, kv));
        assert(unique_handler_keys(items.drop_last()));
        assert(items.drop_last()[i] == items[i]);
        lemma_handler_update(items.drop_last(), i, kv);
        assert(upd.last() == items.last());
        assert((items.last().0@, items.last().1@) != (kv.0@, kv.1@));
        assert(handler_assoc(items.drop_last()).insert((kv.0@, kv.1@), kv.2).insert(
            (items.last().0@, items.last().1@),
            items.last().2,
        ) =~= handler_assoc(items.drop_last()).insert(
            (items.last().0@, items.last().1@),
            items.last().2,
        ).insert((kv.0@, kv.1@), kv.2));
    }
}

impl Router {
    /// The mapping from method to trie root.
    pub open spec fn tree_map(self) -> Map<Seq<char>, NodeModel> {
        tree_assoc(self.node_tree@)
    }

    /// The mapping from `(method, pattern)` to handler identifier.
    pub open spec fn handlers_map(self) -> Map<(Seq<char>, Seq<char>), usize> {
        handler_assoc(self.handlers@)
    }

    /// Keys are unique in both tables and every trie root is well-formed.
    pub open spec fn wf(self) -> bool {
        &&& unique_tree_keys(self.node_tree@)
        &&& unique_handler_keys(self.handlers@)
        &&& forall|i: int|
            0 <= i < self.node_tree@.len() ==> node_wf((#[trigger] self.node_tree@[i]).1@, 0)
    }

    /// The trie root an insertion under `method` starts from: the method's
    /// root where one exists, else a fresh one.
    pub open spec fn route_base(self, method: Seq<char>) -> NodeModel {
        if self.tree_map().contains_key(method) {
            self.tree_map()[method]
        } else {
            spec_new_node()
        }
    }

    /// The resolution of `(method, path)`: the matched terminal node and its
    /// parameter bindings; an unregistered method matches nothing.
    pub open spec fn spec_get_route(self, method: Seq<char>, path: Seq<char>) -> (
        Option<NodeModel>,
        Map<Seq<char>, Seq<char>>,
    ) {
        if self.tree_map().contains_key(method) {
            spec_node_info(self.tree_map()[method], spec_parse_pattern(path))
        } else {
            (None, Map::<Seq<char>, Seq<char>>::empty())
        }
    }

    /// An empty registry.
    pub fn new() -> (r: Router)
        ensures
            r.wf(),
            r.tree_map() == Map::<Seq<char>, NodeModel>::empty(),
            r.handlers_map() == Map::<(Seq<char>, Seq<char>), usize>::empty(),
    {
        let r = Router { node_tree: Vec::new(), handlers: Vec::new() };
        proof {
            assert(r.tree_map() =~= Map::<Seq<char>, NodeModel>::empty());
            assert(r.handlers_map() =~= Map::<(Seq<char>, Seq<char>), usize>::empty());
        }
        r
    }

    /// The position of `method`'s trie root, if the method has one.
    fn find_tree_index(&self, method: &str) -> (r: Option<usize>)
        ensures
            match r {
                Some(i) => i < self.node_tree@.len() && self.node_tree@[i as int].0@ == method@,
                None => forall|j: int|
                    0 <= j < self.node_tree@.len() ==> (#[trigger] self.node_tree@[j]).0@
                        != method@,
            },
    {
        let key = method.to_owned();
        let n = self.node_tree.len();
        let mut k: usize = 0;
        while k < n
            invariant
                k <= n,
                n == self.node_tree@.len(),
                key@ == method@,
                forall|j: int| 0 <= j < k ==> (#[trigger] self.node_tree@[j]).0@ != method@,
            decreases n - k,
        {
            if self.node_tree[k].0 == key {
                return Some(k);
            }
            k += 1;
        }
        None
    }

    /// Registers `handler` for `(method, pattern)`: the pattern is inserted
    /// into the method's trie (created on first use), tagged with `group_id`
    /// where the registration comes from a group, and the handler is stored
    /// under the pair, overwriting any earlier registration of the same
    /// pair.
    pub fn add_route(&mut self, method: &str, pattern: &str, group_id: Option<&str>, handler: usize)
        requires
            old(self).wf(),
            pattern@.len() > 0 && pattern@[0] == '/',
        ensures
            final(self).wf(),
            final(self).tree_map() == old(self).tree_map().insert(
                method@,
                spec_insert(
                    old(self).route_base(method@),
                    pattern@,
                    spec_parse_pattern(pattern@),
                    opt_str_view(group_id),
                    0,
                ),
            ),
            final(self).handlers_map() == old(self).handlers_map().insert(
                (method@, pattern@),
                handler,
            ),
    {
        let ghost inserted = spec_insert(
            old(self).route_base(method@),
            pattern@,
            spec_parse_pattern(pattern@),
            opt_str_view(group_id),
            0,
        );
        let parts = parse_pattern(pattern);
        let idx = self.find_tree_index(method);
        let i: usize;
        match idx {
            Some(found) => {
                i = found;
                proof {
                    lemma_tree_found(self.node_tree@, i as int);
                }
            },
            None => {
                proof {
                    lemma_tree_absent(self.node_tree@, method@);
                }
                let ghost items0 = self.node_tree@;
                self.node_tree.push((method.to_owned(), Node::new()));
                i = self.node_tree.len() - 1;
                proof {
                    assert(self.node_tree@.drop_last() =~= items0);
                    assert(self.tree_map() == tree_assoc(items0).insert(
                        method@,
                        spec_new_node(),
                    ));
                    assert forall|a: int, b: int|
                        #![trigger self.node_tree@[a], self.node_tree@[b]]
                        0 <= a < b < self.node_tree@.len() implies self.node_tree@[a].0@
                        != self.node_tree@[b].0@ by {
                        if b < self.node_tree@.len() - 1 {
                            assert(items0[a].0@ != items0[b].0@);
                        } else {
                            assert(self.node_tree@[a] == items0[a]);
                        }
                    }
                    lemma_tree_found(self.node_tree@, i as int);
                }
            },
        }
        let ghost items1 = self.node_tree@;
        let ghost base = self.node_tree@[i as int].1@;
        proof {
            assert(base == old(self).route_base(method@)) by {
                if old(self).tree_map().contains_key(method@) {
                } else {
                    lemma_tree_absent(old(self).node_tree@, method@);
                }
            }
            assert(node_wf(base, 0));
            crate::utils::lemma_parse_pattern_segments(pattern@);
            lemma_insert_wf(base, pattern@, spec_parse_pattern(pattern@), opt_str_view(group_id), 0);
        }
        let entry = &mut self.node_tree[i];
        entry.1.insert(pattern, &parts, group_id, 0);
        proof {
            assert(self.node_tree@ =~= items1.update(i as int, self.node_tree@[i as int]));
            assert(self.node_tree@[i as int].0@ == method@);
            assert(self.node_tree@[i as int].1@ == inserted);
            lemma_tree_update(items1, i as int, self.node_tree@[i as int]);
            assert(self.tree_map() =~= old(self).tree_map().insert(method@, inserted));
            crate::trie::lemma_insert_wf(base, pattern@, spec_parse_pattern(pattern@), opt_str_view(group_id), 0);
            assert forall|j: int|
                0 <= j < self.node_tree@.len() implies node_wf(
                (#[trigger] self.node_tree@[j]).1@,
                0,
            ) by {
                if j != i {
                    assert(self.node_tree@[j] == items1[j]);
                }
            }
        }
        self.set_handler(method, pattern, handler);
    }

    /// Stores `handler` under `(method, pattern)`, overwriting any earlier
    /// handler of that pair.
    fn set_handler(&mut self, method: &str, pattern: &str, handler: usize)
        requires
            unique_handler_keys(old(self).handlers@),
        ensures
            final(self).handlers_map() == old(self).handlers_map().insert(
                (method@, pattern@),
                handler,
            ),
            unique_handler_keys(final(self).handlers@),
            final(self).node_tree == old(self).node_tree,
    {
        let m = method.to_owned();
        let p = pattern.to_owned();
        let n = self.handlers.len();
        let mut k: usize = 0;
        while k < n
            invariant
                k <= n,
                n == self.handlers@.len(),
                unique_handler_keys(self.handlers@),
                self.handlers@ == old(self).handlers@,
                self.node_tree == old(self).node_tree,
                m@ == method@,
                p@ == pattern@,
                forall|j: int|
                    0 <= j < k ==> ((#[trigger] self.handlers@[j]).0@, self.handlers@[j].1@) != (
                        method@,
                        pattern@,
                    ),
            decreases n - k,
        {
            let hit = self.handlers[k].0 == m && self.handlers[k].1 == p;
            if hit {
                let ghost items0 = self.handlers@;
                let r = &mut self.handlers[k];
                *r = (m, p, handler);
                proof {
                    lemma_handler_update(items0, k as int, self.handlers@[k as int]);
                    assert(self.handlers@ =~= items0.update(k as int, self.handlers@[k as int]));
                }
                return;
            }
            k += 1;
        }
        let ghost items0 = self.handlers@;
        self.handlers.push((m, p, handler));
        proof {
            assert(self.handlers@.drop_last() =~= items0);
            assert forall|a: int, b: int|
                #![trigger self.handlers@[a], self.handlers@[b]]
                0 <= a < b < self.handlers@.len() implies (self.handlers@[a].0@,
            self.handlers@[a].1@) != (self.handlers@[b].0@, self.handlers@[b].1@) by {
                if b < self.handlers@.len() - 1 {
                    assert((items0[a].0@, items0[a].1@) != (items0[b].0@, items0[b].1@));
                } else {
                    assert(self.handlers@[a] == items0[a]);
                }
            }
        }
    }

    /// The handler registered for `(method, pattern)`, if any.
    pub fn get_handler(&self, method: &str, pattern: &str) -> (r: Option<usize>)
        requires
            self.wf(),
        ensures
            match r {
                Some(h) => self.handlers_map().contains_key((method@, pattern@))
                    && self.handlers_map()[(method@, pattern@)] == h,
                None => !self.handlers_map().contains_key((method@, pattern@)),
            },
    {
        let m = method.to_owned();
        let p = pattern.to_owned();
        let n = self.handlers.len();
        let mut k: usize = 0;
        while k < n
            invariant
                k <= n,
                n == self.handlers@.len(),
                unique_handler_keys(self.handlers@),
                m@ == method@,
                p@ == pattern@,
                forall|j: int|
                    0 <= j < k ==> ((#[trigger] self.handlers@[j]).0@, self.handlers@[j].1@) != (
                        method@,
                        pattern@,
                    ),
            decreases n - k,
        {
            let hit = self.handlers[k].0 == m && self.handlers[k].1 == p;
            if hit {
                proof {
                    lemma_handler_found(self.handlers@, k as int);
                }
                return Some(self.handlers[k].2);
            }
            k += 1;
        }
        proof {
            lemma_handler_absent(self.handlers@, (method@, pattern@));
        }
        None
    }

    /// Resolves `(method, path)` to the matched node and the parameters its
    /// pattern binds; an unregistered method matches nothing.
    pub fn get_route(&self, method: &str, path: &str) -> (r: (Option<&Node>, Params))
        requires
            self.wf(),
        ensures
            ({
                let info = self.spec_get_route(method@, path@);
                &&& match r.0 {
                    Some(m) => info.0 == Some(m@),
                    None => info.0 is None,
                }
                &&& r.1@ == info.1
                &&& r.1.wf()
            }),
    {
        let idx = self.find_tree_index(method);
        match idx {
            Some(i) => {
                proof {
                    lemma_tree_found(self.node_tree@, i as int);
                }
                let root = &self.node_tree[i].1;
                let path_parts = parse_pattern(path);
                Node::get_node_info_by_root_node(root, &path_parts)
            },
            None => {
                proof {
                    lemma_tree_absent(self.node_tree@, method@);
                }
                (None, Params::new())
            },
        }
    }

    /// Appends `handler` to the node-scoped middleware of the route
    /// registered as `pattern` under `method`; middleware can only attach to
    /// a node that is itself a registered route.
    pub fn add_hooks(&mut self, pattern: &str, method: &str, handler: usize)
        requires
            old(self).wf(),
            old(self).tree_map().contains_key(method@),
            spec_search(
                old(self).tree_map()[method@],
                spec_parse_pattern(pattern@),
                0,
            ) is Some,
        ensures
            final(self).wf(),
            final(self).tree_map() == old(self).tree_map().insert(
                method@,
                spec_add_mw(
                    old(self).tree_map()[method@],
                    spec_parse_pattern(pattern@),
                    0,
                    handler,
                ),
            ),
            final(self).handlers == old(self).handlers,
    {
        let idx = self.find_tree_index(method);
        match idx {
            Some(i) => {
                proof {
                    lemma_tree_found(self.node_tree@, i as int);
                }
                let ghost items1 = self.node_tree@;
                let ghost base = self.node_tree@[i as int].1@;
                let parts = parse_pattern(pattern);
                let entry = &mut self.node_tree[i];
                let hit = entry.1.add_middleware(&parts, 0, handler);
                proof {
                    assert(self.node_tree@ =~= items1.update(i as int, self.node_tree@[i as int]));
                    lemma_tree_update(items1, i as int, self.node_tree@[i as int]);
                    assert(self.tree_map() =~= old(self).tree_map().insert(
                        method@,
                        spec_add_mw(base, spec_parse_pattern(pattern@), 0, handler),
                    ));
                    lemma_add_mw_wf(base, spec_parse_pattern(pattern@), 0, handler);
                    assert forall|j: int|
                        0 <= j < self.node_tree@.len() implies node_wf(
                        (#[trigger] self.node_tree@[j]).1@,
                        0,
                    ) by {
                        if j != i {
                            assert(self.node_tree@[j] == items1[j]);
                        }
                    }
                }
            },
            None => {
                proof {
                    lemma_tree_absent(self.node_tree@, method@);
                    assert(false);
                }
            },
        }
    }
}

/// Last registration wins: registering a handler for a `(method, pattern)`
/// pair and then another handler for the identical pair leaves the second
/// one as the pair's handler, whatever the table held before.  `add_route`
/// takes the handler table through exactly these two insertions.
pub proof fn lemma_last_registration_wins(
    handlers0: Map<(Seq<char>, Seq<char>), usize>,
    method: Seq<char>,
    pattern: Seq<char>,
    h1: usize,
    h2: usize,
)
    ensures
        handlers0.insert((method, pattern), h1).insert((method, pattern), h2).contains_key(
            (method, pattern),
        ),
        handlers0.insert((method, pattern), h1).insert((method, pattern), h2)[(method, pattern)]
            == h2,
        handlers0.insert((method, pattern), h1).insert((method, pattern), h2) == handlers0.insert(
            (method, pattern),
            h2,
        ),
{
    assert(handlers0.insert((method, pattern), h1).insert((method, pattern), h2)
        =~= handlers0.insert((method, pattern), h2));
}

proof fn lemma_tree_contains_index(items: Seq<(String, Node)>, key: Seq<char>)
    requires
        tree_assoc(items).contains_key(key),
    ensures
        exists|i: int| 0 <= i < items.len() && (#[trigger] items[i]).0@ == key,
    decreases items.len(),
{
    if items.len() > 0 && items.last().0@ != key {
        lemma_tree_contains_index(items.drop_last(), key);
        let i = choose|i: int|
            0 <= i < items.drop_last().len() && (#[trigger] items.drop_last()[i]).0@ == key;
        assert(items[i].0@ == key);
    }
}

/// Every trie root a well-formed router holds is itself well-formed.
pub proof fn lemma_tree_root_wf(r: Router, method: Seq<char>)
    requires
        r.wf(),
        r.tree_map().contains_key(method),
    ensures
        node_wf(r.tree_map()[method], 0),
{
    lemma_tree_contains_index(r.node_tree@, method);
    let i = choose|i: int|
        0 <= i < r.node_tree@.len() && (#[trigger] r.node_tree@[i]).0@ == method;
    lemma_tree_found(r.node_tree@, i);
}

proof fn lemma_handler_found(items: Seq<(String, String, usize)>, i: int)
    requires
        unique_handler_keys(items),
        0 <= i < items.len(),
    ensures
        handler_assoc(items).contains_key((items[i].0@, items[i].1@)),
        handler_assoc(items)[(items[i].0@, items[i].1@)] == items[i].2,
    decreases items.len(),
{
    if i < items.len() - 1 {
        assert(unique_handler_keys(items.drop_last()));
        assert(items.drop_last()[i] == items[i]);
        lemma_handler_found(items.drop_last(), i);
        assert((items.last().0@, items.last().1@) != (items[i].0@, items[i].1@));
    }
}

proof fn lemma_handler_absent(items: Seq<(String, String, usize)>, key: (Seq<char>, Seq<char>))
    requires
        forall|i: int|
            0 <= i < items.len() ==> ((#[trigger] items[i]).0@, items[i].1@) != key,
    ensures
        !handler_assoc(items).contains_key(key),
    decreases items.len(),
{
    if items.len() > 0 {
        assert(forall|i: int|
            0 <= i < items.drop_last().len() ==> ((#[trigger] items.drop_last()[i]).0@,
            items.drop_last()[i].1@) != key);
        lemma_handler_absent(items.drop_last(), key);
    }
}

} // verus!
