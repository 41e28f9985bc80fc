//! Route groups: a fluent builder that prefixes sub-paths and attaches
//! group-scoped middleware.
//!
//! A group is identified by its accumulated prefix string; a nested group's
//! prefix is the concatenation of all enclosing prefixes, and two groups
//! with the same effective prefix share one middleware list.  Registering a
//! route through a group tags the resulting trie node with the group's
//! prefix, which pulls the group's middleware into that route's chain at
//! dispatch.

use vstd::prelude::*;

use crate::engine::Engine;
use crate::utils::spec_parse_pattern;

verus! {

/// A route-registration scope bound to an accumulated path prefix.
#[derive(Debug)]
pub struct RouterGroup {
    /// The group's accumulated prefix.
    pub prefix: String,
}

impl RouterGroup {
    /// A group for `prefix`.
    pub fn new(prefix: &str) -> (g: RouterGroup)
        ensures
            g.prefix@ == prefix@,
    {
        RouterGroup { prefix: prefix.to_owned() }
    }

    /// Registers `handler` for the method and the group-prefixed pattern,
    /// tagging the route's node with this group's prefix.
    fn add_route(&self, engine: &mut Engine, method: &str, sub_pattern: &str, handler: usize)
        requires
            old(engine).wf(),
            (self.prefix@ + sub_pattern@).len() > 0 && (self.prefix@ + sub_pattern@)[0] == '/',
        ensures
            final(engine).wf(),
            old(engine).route_added(
                *final(engine),
                method@,
                self.prefix@ + sub_pattern@,
                Some(self.prefix@),
                handler,
            ),
    {
        let pattern = self.prefix.clone().concat(sub_pattern);
        engine.router.add_route(method, pattern.as_str(), Some(self.prefix.as_str()), handler);
    }

    /// Registers `handler` for `GET` on the group-prefixed pattern.
    pub fn get(self, engine: &mut Engine, sub_pattern: &str, handler: usize) -> (g: Self)
        requires
            old(engine).wf(),
            (self.prefix@ + sub_pattern@).len() > 0 && (self.prefix@ + sub_pattern@)[0] == '/',
        ensures
            final(engine).wf(),
            old(engine).route_added(
                *final(engine),
                "GET"@,
                self.prefix@ + sub_pattern@,
                Some(self.prefix@),
                handler,
            ),
            g == self,
    {
        self.add_route(engine, "GET", sub_pattern, handler);
        self
    }

    /// Registers `handler` for `POST` on the group-prefixed pattern.
    pub fn post(self, engine: &mut Engine, sub_pattern: &str, handler: usize) -> (g: Self)
        requires
            old(engine).wf(),
            (self.prefix@ + sub_pattern@).len() > 0 && (self.prefix@ + sub_pattern@)[0] == '/',
        ensures
            final(engine).wf(),
            old(engine).route_added(
                *final(engine),
                "POST"@,
                self.prefix@ + sub_pattern@,
                Some(self.prefix@),
                handler,
            ),
            g == self,
    {
        self.add_route(engine, "POST", sub_pattern, handler);
        self
    }

    /// Registers `handler` for `PUT` on the group-prefixed pattern.
    pub fn put(self, engine: &mut Engine, sub_pattern: &str, handler: usize) -> (g: Self)
        requires
            old(engine).wf(),
            (self.prefix@ + sub_pattern@).len() > 0 && (self.prefix@ + sub_pattern@)[0] == '/',
        ensures
            final(engine).wf(),
            old(engine).route_added(
                *final(engine),
                "PUT"@,
                self.prefix@ + sub_pattern@,
                Some(self.prefix@),
                handler,
            ),
            g == self,
    {
        self.add_route(engine, "PUT", sub_pattern, handler);
        self
    }

    /// Registers `handler` for `DELETE` on the group-prefixed pattern.
    pub fn delete(self, engine: &mut Engine, sub_pattern: &str, handler: usize) -> (g: Self)
        requires
            old(engine).wf(),
            (self.prefix@ + sub_pattern@).len() > 0 && (self.prefix@ + sub_pattern@)[0] == '/',
        ensures
            final(engine).wf(),
            old(engine).route_added(
                *final(engine),
                "DELETE"@,
                self.prefix@ + sub_pattern@,
                Some(self.prefix@),
                handler,
            ),
            g == self,
    {
        self.add_route(engine, "DELETE", sub_pattern, handler);
        self
    }

    /// Registers `handler` for `PATCH` on the group-prefixed pattern.
    pub fn patch(self, engine: &mut Engine, sub_pattern: &str, handler: usize) -> (g: Self)
        requires
            old(engine).wf(),
            (self.prefix@ + sub_pattern@).len() > 0 && (self.prefix@ + sub_pattern@)[0] == '/',
        ensures
            final(engine).wf(),
            old(engine).route_added(
                *final(engine),
                "PATCH"@,
                self.prefix@ + sub_pattern@,
                Some(self.prefix@),
                handler,
            ),
            g == self,
    {
        self.add_route(engine, "PATCH", sub_pattern, handler);
        self
    }

    /// Appends `handler` to this group's middleware list, creating the list
    /// on first use.
    pub fn hooks(self, engine: &mut Engine, handler: usize) -> (g: Self)
        requires
            old(engine).wf(),
        ensures
            final(engine).wf(),
            final(engine).groups_map() == old(engine).groups_map().insert(
                self.prefix@,
                old(engine).spec_group_mws(Some(self.prefix@)).push(handler),
            ),
            final(engine).router == old(engine).router,
            final(engine).middlewares == old(engine).middlewares,
            g == self,
    {
        engine.add_group_hook(self.prefix.as_str(), handler);
        self
    }

    /// Appends `handler` to the node-scoped middleware of the route
    /// registered as the group-prefixed pattern under `method`.
    pub fn add_hooks(self, engine: &mut Engine, sub_pattern: &str, method: &str, handler: usize)
        -> (g: Self)
        requires
            old(engine).wf(),
            old(engine).router.tree_map().contains_key(method@),
            crate::trie::spec_search(
                old(engine).router.tree_map()[method@],
                spec_parse_pattern(self.prefix@ + sub_pattern@),
                0,
            ) is Some,
        ensures
            final(engine).wf(),
            final(engine).router.tree_map() == old(engine).router.tree_map().insert(
                method@,
                crate::trie::spec_add_mw(
                    old(engine).router.tree_map()[method@],
                    spec_parse_pattern(self.prefix@ + sub_pattern@),
                    0,
                    handler,
                ),
            ),
            final(engine).router.handlers == old(engine).router.handlers,
            final(engine).groups == old(engine).groups,
            final(engine).middlewares == old(engine).middlewares,
            g == self,
    {
        let pattern = self.prefix.clone().concat(sub_pattern);
        engine.router.add_hooks(pattern.as_str(), method, handler);
        self
    }

    /// Opens a nested group: its prefix is the concatenation of this group's
    /// prefix and `prefix`, and its (initially empty) middleware list is
    /// registered under that concatenated prefix.
    pub fn group(&self, engine: &mut Engine, prefix: &str) -> (g: RouterGroup)
        requires
            old(engine).wf(),
        ensures
            final(engine).wf(),
            final(engine).groups_map() == old(engine).groups_map().insert(
                self.prefix@ + prefix@,
                Seq::<usize>::empty(),
            ),
            final(engine).router == old(engine).router,
            final(engine).middlewares == old(engine).middlewares,
            g.prefix@ == self.prefix@ + prefix@,
    {
        let new_prefix = self.prefix.clone().concat(prefix);
        engine.group(new_prefix.as_str())
    }
}

} // verus!
