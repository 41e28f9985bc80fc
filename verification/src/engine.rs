//! The dispatch engine: the route table, the group-scoped middleware lists
//! keyed by group prefix, and the global middleware.
//!
//! Resolving a request assembles the ordered handler chain — global
//! middleware, then the matched node's group middleware, then the node's own
//! middleware, then the terminal handler — and installs it into a fresh
//! request context; an unmatched request keeps only the global middleware
//! and is answered with a not-found response once its chain has run.

use vstd::prelude::*;

use crate::context::Context;
use crate::params::Params;
use crate::router::Router;
use crate::router_group::RouterGroup;
use crate::trie::{lemma_search_found, node_wf, NodeModel};
use crate::utils::spec_parse_pattern;

verus! {

/// The engine: route registry, group middleware and global middleware.
#[derive(Debug)]
pub struct Engine {
    /// The route table.
    pub router: Router,
    /// Group-scoped middleware, keyed by the group's accumulated prefix.
    pub groups: Vec<(String, Vec<usize>)>,
    /// Global middleware, in registration order.
    pub middlewares: Vec<usize>,
}

/// The mapping from group prefix to middleware list; later entries win.
pub open spec fn groups_assoc(items: Seq<(String, Vec<usize>)>) -> Map<Seq<char>, Seq<usize>>
    decreases items.len(),
{
    if items.len() == 0 {
        Map::<Seq<char>, Seq<usize>>::empty()
    } else {
        groups_assoc(items.drop_last()).insert(items.last().0@, items.last().1@)
    }
}

pub open spec fn unique_group_keys(items: Seq<(String, Vec<usize>)>) -> bool {
    forall|i: int, j: int|
        #![trigger items[i], items[j]]
        0 <= i < j < items.len() ==> items[i].0@ != items[j].0@
}

proof fn lemma_groups_found(items: Seq<(String, Vec<usize>)>, i: int)
    requires
        unique_group_keys(items),
        0 <= i < items.len(),
    ensures
        groups_assoc(items).contains_key(items[i].0@),
        groups_assoc(items)[items[i].0@] == items[i].1@,
    decreases items.len(),
{
    if i < items.len() - 1 {
        assert(unique_group_keys(items.drop_last()));
        assert(items.drop_last()[i] == items[i]);
        lemma_groups_found(items.drop_last(), i);
        assert(items.last().0@ != items[i].0@);
    }
}

proof fn lemma_groups_absent(items: Seq<(String, Vec<usize>)>, key: Seq<char>)
    requires
        forall|i: int| 0 <= i < items.len() ==> (#[trigger] items[i]).0@ != key,
    ensures
        !groups_assoc(items).contains_key(key),
    decreases items.len(),
{
    if items.len() > 0 {
        assert(forall|i: int|
            0 <= i < items.drop_last().len() ==> (#[trigger] items.drop_last()[i]).0@ != key);
        lemma_groups_absent(items.drop_last(), key);
    }
}

proof fn lemma_groups_update(items: Seq<(String, Vec<usize>)>, i: int, kv: (String, Vec<usize>))
    requires
        unique_group_keys(items),
        0 <= i < items.len(),
        items[i].0@ == kv.0@,
    ensures
        groups_assoc(items.update(i, kv)) == groups_assoc(items).insert(kv.0@, kv.1@),
        unique_group_keys(items.update(i, kv)),
    decreases items.len(),
{
    let upd = items.update(i, kv);
    assert forall|a: int, b: int|
        #![trigger upd[a], upd[b]]
        0 <= a < b < upd.len() implies upd[a].0@ != upd[b].0@ by {
        assert(items[a].0@ != items[b].0@);
    }
    if i == items.len() - 1 {
        assert(upd.drop_last() =~= items.drop_last());
        assert(upd.last() == kv);
        assert(groups_assoc(items.drop_last()).insert(items.last().0@, items.last().1@).insert(
            kv.0@,
            kv.1@,
        ) =~= groups_assoc(items.drop_last()).insert(kv.0@, kv.1@));
    } else {
        assert(upd.drop_last() =~= items.drop_last().update(i, kv));
        assert(unique_group_keys(items.drop_last()));
        assert(items.drop_last()[i] == items[i]);
        lemma_groups_update(items.drop_last(), i, kv);
        assert(upd.last() == items.last());
        assert(items.last().0@ != kv.0@);
        assert(groups_assoc(items.drop_last()).insert(kv.0@, kv.1@).insert(
            items.last().0@,
            items.last().1@,
        ) =~= groups_assoc(items.drop_last()).insert(items.last().0@, items.last().1@).insert(
            kv.0@,
            kv.1@,
        ));
    }
}

/// Group middleware isolation: the chain assembled for a route whose node
/// carries no group tag holds no group middleware at all — it is exactly the
/// global middleware, then the node's own middleware, then the terminal
/// handler.
pub proof fn lemma_group_isolation(e: Engine, n: NodeModel, h: usize)
    requires
        n.group_id is None,
    ensures
        e.spec_chain(n, h) == e.middlewares@ + n.middlewares + seq![h],
{
    assert(e.middlewares@ + Seq::<usize>::empty() + n.middlewares + seq![h] =~= e.middlewares@
        + n.middlewares + seq![h]);
}

/// A fresh engine: no routes, no groups, no middleware.
pub fn new() -> (e: Engine)
    ensures
        e.wf(),
        e.router.tree_map() == Map::<Seq<char>, NodeModel>::empty(),
        e.router.handlers_map() == Map::<(Seq<char>, Seq<char>), usize>::empty(),
        e.groups_map() == Map::<Seq<char>, Seq<usize>>::empty(),
        e.middlewares@ == Seq::<usize>::empty(),
{
    let e = Engine { router: Router::new(), groups: Vec::new(), middlewares: Vec::new() };
    proof {
        assert(e.groups_map() =~= Map::<Seq<char>, Seq<usize>>::empty());
        assert(e.middlewares@ =~= Seq::<usize>::empty());
    }
    e
}

impl Engine {
    /// The mapping from group prefix to that group's middleware list.
    pub open spec fn groups_map(self) -> Map<Seq<char>, Seq<usize>> {
        groups_assoc(self.groups@)
    }

    /// The route table is well-formed and group prefixes are unique.
    pub open spec fn wf(self) -> bool {
        &&& self.router.wf()
        &&& unique_group_keys(self.groups@)
    }

    /// The group middleware that a node tagged `gid` pulls into its chain:
    /// the tagged group's list, or nothing for an untagged node or an
    /// unknown tag.
    pub open spec fn spec_group_mws(self, gid: Option<Seq<char>>) -> Seq<usize> {
        match gid {
            Some(g) => if self.groups_map().contains_key(g) {
                self.groups_map()[g]
            } else {
                Seq::<usize>::empty()
            },
            None => Seq::<usize>::empty(),
        }
    }

    /// The resolved chain for matched node `n` with terminal handler `h`:
    /// global middleware, then the node's group middleware, then the node's
    /// own middleware, then `h`.
    pub open spec fn spec_chain(self, n: NodeModel, h: usize) -> Seq<usize> {
        self.middlewares@ + self.spec_group_mws(n.group_id) + n.middlewares + seq![h]
    }

    /// The resolution of a request: the chain to run, the bound parameters,
    /// and whether a route matched.  An unmatched request keeps the global
    /// middleware as its whole chain.
    pub open spec fn spec_handler(self, method: Seq<char>, path: Seq<char>) -> (
        Seq<usize>,
        Map<Seq<char>, Seq<char>>,
        bool,
    ) {
        let info = self.router.spec_get_route(method, path);
        match info.0 {
            Some(n) => if self.router.handlers_map().contains_key((method, n.pattern->0)) {
                (
                    self.spec_chain(n, self.router.handlers_map()[(method, n.pattern->0)]),
                    info.1,
                    true,
                )
            } else {
                (self.middlewares@, info.1, false)
            },
            None => (self.middlewares@, info.1, false),
        }
    }

    /// Resolves one request: binds its parameters, assembles its chain into
    /// a fresh context, and reports whether a route matched; an unmatched
    /// request is owed a not-found response once its chain has run.
    pub fn handler(&self, method: &str, path: &str) -> (r: (Context, bool))
        requires
            self.wf(),
        ensures
            ({
                let resolved = self.spec_handler(method@, path@);
                &&& r.0.wf()
                &&& r.0.handlers@ == resolved.0
                &&& r.0.params@ == resolved.1
                &&& r.1 == resolved.2
                &&& r.0.cursor() == 0
                &&& r.0.method@ == method@
                &&& r.0.path@ == path@
                &&& r.0.forms@ == Map::<Seq<char>, Seq<char>>::empty()
                &&& r.0.response.status == 200
                &&& r.0.response.headers@ == Map::<Seq<char>, Seq<char>>::empty()
                &&& r.0.response.body@ == Seq::<char>::empty()
            }),
    {
        let mut context = Context::new(method, path);
        let route = self.router.get_route(method, path);
        context.params = route.1;
        let mut chain = self.get_middlewares();
        match route.0 {
            Some(node) => {
                proof {
                    if self.router.tree_map().contains_key(method@) {
                        let root = self.router.tree_map()[method@];
                        let segs = spec_parse_pattern(path@);
                        assert(node_wf(root, 0)) by {
                            crate::router::lemma_tree_root_wf(self.router, method@);
                        }
                        lemma_search_found(root, segs, 0, node@);
                    }
                }
                if let Some(pattern) = &node.pattern {
                    let h = self.router.get_handler(method, pattern.as_str());
                    match h {
                        Some(h) => {
                            if let Some(gid) = &node.group_id {
                                let mut gmws = self.get_middlewares_by_group_id(gid.as_str());
                                chain.append(&mut gmws);
                            }
                            let mut nmws = node.get_middlewares();
                            chain.append(&mut nmws);
                            chain.push(h);
                            proof {
                                assert(chain@ =~= self.spec_chain(
                                    node@,
                                    self.router.handlers_map()[(method@, node@.pattern->0)],
                                ));
                            }
                            context.set_chain(chain);
                            (context, true)
                        },
                        None => {
                            context.set_chain(chain);
                            (context, false)
                        },
                    }
                } else {
                    proof {
                        assert(false);
                    }
                    context.set_chain(chain);
                    (context, false)
                }
            },
            None => {
                context.set_chain(chain);
                (context, false)
            },
        }
    }

    /// Registers `handler` for `(GET, pattern)` at top level.
    pub fn get(self, pattern: &str, handler: usize) -> (e: Self)
        requires
            self.wf(),
            pattern@.len() > 0 && pattern@[0] == '/',
        ensures
            e.wf(),
            self.route_added(e, "GET"@, pattern@, None, handler),
    {
        self.add_route("GET", pattern, handler)
    }

    /// Registers `handler` for `(POST, pattern)` at top level.
    pub fn post(self, pattern: &str, handler: usize) -> (e: Self)
        requires
            self.wf(),
            pattern@.len() > 0 && pattern@[0] == '/',
        ensures
            e.wf(),
            self.route_added(e, "POST"@, pattern@, None, handler),
    {
        self.add_route("POST", pattern, handler)
    }

    /// Registers `handler` for `(PUT, pattern)` at top level.
    pub fn put(self, pattern: &str, handler: usize) -> (e: Self)
        requires
            self.wf(),
            pattern@.len() > 0 && pattern@[0] == '/',
        ensures
            e.wf(),
            self.route_added(e, "PUT"@, pattern@, None, handler),
    {
        self.add_route("PUT", pattern, handler)
    }

    /// Registers `handler` for `(DELETE, pattern)` at top level.
    pub fn delete(self, pattern: &str, handler: usize) -> (e: Self)
        requires
            self.wf(),
            pattern@.len() > 0 && pattern@[0] == '/',
        ensures
            e.wf(),
            self.route_added(e, "DELETE"@, pattern@, None, handler),
    {
        self.add_route("DELETE", pattern, handler)
    }

    /// Registers `handler` for `(PATCH, pattern)` at top level.
    pub fn patch(self, pattern: &str, handler: usize) -> (e: Self)
        requires
            self.wf(),
            pattern@.len() > 0 && pattern@[0] == '/',
        ensures
            e.wf(),
            self.route_added(e, "PATCH"@, pattern@, None, handler),
    {
        self.add_route("PATCH", pattern, handler)
    }

    /// One route registration took the engine from `self` to `post`: the
    /// pattern stands inserted in the method's trie, tagged with `gid`, the
    /// handler is stored under the pair, and groups and global middleware
    /// are unchanged.
    pub open spec fn route_added(
        self,
        post: Engine,
        method: Seq<char>,
        pattern: Seq<char>,
        gid: Option<Seq<char>>,
        handler: usize,
    ) -> bool {
        &&& post.router.tree_map() == self.router.tree_map().insert(
            method,
            crate::trie::spec_insert(
                self.router.route_base(method),
                pattern,
                spec_parse_pattern(pattern),
                gid,
                0,
            ),
        )
        &&& post.router.handlers_map() == self.router.handlers_map().insert(
            (method, pattern),
            handler,
        )
        &&& post.groups == self.groups
        &&& post.middlewares == self.middlewares
    }

    /// Appends `handler` to the global middleware.
    pub fn hooks(self, handler: usize) -> (e: Self)
        requires
            self.wf(),
        ensures
            e.wf(),
            e.middlewares@ == self.middlewares@.push(handler),
            e.router == self.router,
            e.groups == self.groups,
    {
        let mut e = self;
        e.middlewares.push(handler);
        e
    }

    /// Appends `handler` to the node-scoped middleware of the route
    /// registered as `pattern` under `method`.
    pub fn add_hooks(self, pattern: &str, method: &str, handler: usize) -> (e: Self)
        requires
            self.wf(),
            self.router.tree_map().contains_key(method@),
            crate::trie::spec_search(
                self.router.tree_map()[method@],
                spec_parse_pattern(pattern@),
                0,
            ) is Some,
        ensures
            e.wf(),
            e.router.tree_map() == self.router.tree_map().insert(
                method@,
                crate::trie::spec_add_mw(
                    self.router.tree_map()[method@],
                    spec_parse_pattern(pattern@),
                    0,
                    handler,
                ),
            ),
            e.router.handlers == self.router.handlers,
            e.groups == self.groups,
            e.middlewares == self.middlewares,
    {
        let mut e = self;
        e.router.add_hooks(pattern, method, handler);
        e
    }

    /// Opens a route group for `prefix`, registering its (initially empty)
    /// middleware list; a second group with the same prefix resets the list.
    pub fn group(&mut self, prefix: &str) -> (g: RouterGroup)
        requires
            old(self).wf(),
        ensures
            final(self).wf(),
            final(self).groups_map() == old(self).groups_map().insert(
                prefix@,
                Seq::<usize>::empty(),
            ),
            final(self).router == old(self).router,
            final(self).middlewares == old(self).middlewares,
            g.prefix@ == prefix@,
    {
        self.set_group_list(prefix, Vec::new());
        RouterGroup::new(prefix)
    }

    /// Stores `list` as the middleware list of `prefix`, replacing any
    /// earlier list.
    pub(crate) fn set_group_list(&mut self, prefix: &str, list: Vec<usize>)
        requires
            old(self).wf(),
        ensures
            final(self).wf(),
            final(self).groups_map() == old(self).groups_map().insert(prefix@, list@),
            final(self).router == old(self).router,
            final(self).middlewares == old(self).middlewares,
    {
        let key = prefix.to_owned();
        let n = self.groups.len();
        let mut k: usize = 0;
        while k < n
            invariant
                old(self).wf(),
                k <= n,
                n == self.groups@.len(),
                unique_group_keys(self.groups@),
                self.groups@ == old(self).groups@,
                self.router == old(self).router,
                self.middlewares == old(self).middlewares,
                key@ == prefix@,
                forall|j: int| 0 <= j < k ==> (#[trigger] self.groups@[j]).0@ != prefix@,
            decreases n - k,
        {
            let hit = self.groups[k].0 == key;
            if hit {
                let ghost items0 = self.groups@;
                let r = &mut self.groups[k];
                *r = (key, list);
                proof {
                    lemma_groups_update(items0, k as int, self.groups@[k as int]);
                    assert(self.groups@ =~= items0.update(k as int, self.groups@[k as int]));
                }
                return;
            }
            k += 1;
        }
        let ghost items0 = self.groups@;
        self.groups.push((key, list));
        proof {
            assert(self.groups@.drop_last() =~= items0);
            assert forall|a: int, b: int|
                #![trigger self.groups@[a], self.groups@[b]]
                0 <= a < b < self.groups@.len() implies self.groups@[a].0@
                != self.groups@[b].0@ by {
                if b < self.groups@.len() - 1 {
                    assert(items0[a].0@ != items0[b].0@);
                } else {
                    assert(self.groups@[a] == items0[a]);
                }
            }
        }
    }

    /// Appends `handler` to the middleware list of `prefix`, creating the
    /// list on first use.
    pub(crate) fn add_group_hook(&mut self, prefix: &str, handler: usize)
        requires
            old(self).wf(),
        ensures
            final(self).wf(),
            final(self).groups_map() == old(self).groups_map().insert(
                prefix@,
                old(self).spec_group_mws(Some(prefix@)).push(handler),
            ),
            final(self).router == old(self).router,
            final(self).middlewares == old(self).middlewares,
    {
        let current = self.get_middlewares_by_group_id(prefix);
        let mut list = current;
        list.push(handler);
        self.set_group_list(prefix, list);
    }

    /// The middleware list registered for group `group_id`, or nothing for
    /// an unknown group.
    pub fn get_middlewares_by_group_id(&self, group_id: &str) -> (r: Vec<usize>)
        requires
            self.wf(),
        ensures
            r@ == self.spec_group_mws(Some(group_id@)),
    {
        let key = group_id.to_owned();
        let n = self.groups.len();
        let mut k: usize = 0;
        while k < n
            invariant
                k <= n,
                n == self.groups@.len(),
                unique_group_keys(self.groups@),
                key@ == group_id@,
                forall|j: int| 0 <= j < k ==> (#[trigger] self.groups@[j]).0@ != group_id@,
            decreases n - k,
        {
            let hit = self.groups[k].0 == key;
            if hit {
                proof {
                    lemma_groups_found(self.groups@, k as int);
                }
                return copy_ids(&self.groups[k].1);
            }
            k += 1;
        }
        proof {
            lemma_groups_absent(self.groups@, group_id@);
        }
        let r: Vec<usize> = Vec::new();
        proof {
            assert(r@ =~= Seq::<usize>::empty());
        }
        r
    }

    /// The global middleware, in registration order.
    pub fn get_middlewares(&self) -> (r: Vec<usize>)
        ensures
            r@ == self.middlewares@,
    {
        copy_ids(&self.middlewares)
    }

    fn add_route(self, method: &str, pattern: &str, handler: usize) -> (e: Self)
        requires
            self.wf(),
            pattern@.len() > 0 && pattern@[0] == '/',
        ensures
            e.wf(),
            self.route_added(e, method@, pattern@, None, handler),
    {
        let mut e = self;
        e.router.add_route(method, pattern, None, handler);
        e
    }
}

/// A copy of a middleware identifier list.
fn copy_ids(ids: &Vec<usize>) -> (r: Vec<usize>)
    ensures
        r@ == ids@,
{
    let mut out: Vec<usize> = Vec::new();
    let n = ids.len();
    let mut k: usize = 0;
    while k < n
        invariant
            k <= n,
            n == ids@.len(),
            out@ == ids@.take(k as int),
        decreases n - k,
    {
        out.push(ids[k]);
        proof {
            assert(ids@.take(k + 1) =~= ids@.take(k as int).push(ids@[k as int]));
        }
        k += 1;
    }
    proof {
        assert(ids@.take(n as int) =~= ids@);
    }
    out
}

} // verus!
