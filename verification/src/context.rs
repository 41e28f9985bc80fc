//! The per-request context: bound parameters, the resolved handler chain
//! with its cursor, and the outgoing response.
//!
//! The chain is an ordered sequence of handler identifiers; the cursor
//! starts just before the first element.  A continuation step advances the
//! cursor by one position and names the handler now due to run; a handler
//! that never takes the step ends the chain, and the short-circuit operation
//! forces the cursor to the end so that no later step yields a handler.

use vstd::prelude::*;

use crate::param::{param, ExtractParamError};
use crate::params::Params;

verus! {

/// The outgoing response: status code, headers and body.
#[derive(Debug)]
pub struct Response {
    /// The HTTP status code.
    pub status: u16,
    /// The response headers, unique by name.
    pub headers: Params,
    /// The response body.
    pub body: String,
}

impl Response {
    /// An empty `200` response.
    pub fn new() -> (r: Response)
        ensures
            r.status == 200,
            r.headers@ == Map::<Seq<char>, Seq<char>>::empty(),
            r.headers.wf(),
            r.body@ == Seq::<char>::empty(),
    {
        Response { status: 200, headers: Params::new(), body: String::new() }
    }
}

/// One step of the chain cursor: from `cursor`, the next position and the
/// handler due at it, or no handler when the chain is exhausted.
pub open spec fn spec_advance(cursor: int, chain: Seq<usize>) -> (int, Option<usize>) {
    if 0 <= cursor < chain.len() {
        (cursor + 1, Some(chain[cursor]))
    } else {
        (cursor, None)
    }
}

/// Short-circuiting is final: from a cursor at the end of the chain, a
/// continuation step yields no handler and leaves the cursor where it is,
/// so nothing later in the chain can run again.
pub proof fn lemma_done_short_circuits(chain: Seq<usize>)
    ensures
        spec_advance(chain.len() as int, chain).1 is None,
        spec_advance(chain.len() as int, chain).0 == chain.len() as int,
{
}

/// Per-request state: parameters, form fields, the resolved handler chain
/// with its cursor, and the response being built.
#[derive(Debug)]
pub struct Context {
    /// Parameters bound from the matched pattern.
    pub params: Params,
    /// Decoded form fields.
    pub forms: Params,
    /// The request path.
    pub path: String,
    /// The request method token.
    pub method: String,
    /// The resolved chain: global middleware, then group middleware, then
    /// node middleware, then the terminal handler.
    pub handlers: Vec<usize>,
    /// How many chain positions have been consumed; the cursor stands just
    /// before `handlers[index]`.
    pub index: usize,
    /// The outgoing response.
    pub response: Response,
}

impl Context {
    /// The cursor as a position: the next continuation step runs
    /// `handlers[cursor()]`.
    pub open spec fn cursor(self) -> int {
        self.index as int
    }

    /// The cursor lies within the chain and the mappings are well-formed.
    pub open spec fn wf(self) -> bool {
        &&& 0 <= self.cursor() <= self.handlers@.len()
        &&& self.params.wf()
        &&& self.forms.wf()
        &&& self.response.headers.wf()
    }

    /// A fresh context for one request: no bindings, an empty chain with the
    /// cursor before its first position, and an empty `200` response.
    pub fn new(method: &str, path: &str) -> (c: Context)
        ensures
            c.wf(),
            c.method@ == method@,
            c.path@ == path@,
            c.params@ == Map::<Seq<char>, Seq<char>>::empty(),
            c.forms@ == Map::<Seq<char>, Seq<char>>::empty(),
            c.handlers@ == Seq::<usize>::empty(),
            c.cursor() == 0,
            c.response.status == 200,
            c.response.headers@ == Map::<Seq<char>, Seq<char>>::empty(),
            c.response.body@ == Seq::<char>::empty(),
    {
        let c = Context {
            params: Params::new(),
            forms: Params::new(),
            path: path.to_owned(),
            method: method.to_owned(),
            handlers: Vec::new(),
            index: 0,
            response: Response::new(),
        };
        proof {
            assert(c.handlers@ =~= Seq::<usize>::empty());
        }
        c
    }

    /// The continuation step: advances the cursor by one position and
    /// returns the handler at the new position, or nothing once the chain is
    /// exhausted.  The caller invokes the returned handler; a handler that
    /// never calls this leaves the rest of the chain unrun.
    pub fn next(&mut self) -> (r: Option<usize>)
        requires
            old(self).wf(),
        ensures
            final(self).wf(),
            (final(self).cursor(), r) == spec_advance(old(self).cursor(), old(self).handlers@),
            final(self).handlers == old(self).handlers,
            final(self).params == old(self).params,
            final(self).forms == old(self).forms,
            final(self).path == old(self).path,
            final(self).method == old(self).method,
            final(self).response == old(self).response,
    {
        if self.index < self.handlers.len() {
            let h = self.handlers[self.index];
            self.index = self.index + 1;
            Some(h)
        } else {
            None
        }
    }

    /// The short-circuit: sets the cursor to the end of the chain, so no
    /// further continuation step yields a handler even if an enclosing
    /// caller steps again.
    pub fn done(&mut self)
        requires
            old(self).wf(),
        ensures
            final(self).wf(),
            final(self).cursor() == final(self).handlers@.len(),
            final(self).handlers == old(self).handlers,
            final(self).params == old(self).params,
            final(self).forms == old(self).forms,
            final(self).path == old(self).path,
            final(self).method == old(self).method,
            final(self).response == old(self).response,
    {
        self.index = self.handlers.len();
    }

    /// Installs the resolved handler chain and resets the cursor before its
    /// first position.
    pub fn set_chain(&mut self, chain: Vec<usize>)
        requires
            old(self).wf(),
        ensures
            final(self).wf(),
            final(self).handlers == chain,
            final(self).cursor() == 0,
            final(self).params == old(self).params,
            final(self).forms == old(self).forms,
            final(self).path == old(self).path,
            final(self).method == old(self).method,
            final(self).response == old(self).response,
    {
        self.handlers = chain;
        self.index = 0;
    }

    /// The bound path parameter `name`, or the typed failure naming it.
    pub fn param(&self, name: &str) -> (r: Result<String, ExtractParamError>)
        requires
            self.wf(),
        ensures
            match r {
                Ok(v) => self.params@.contains_key(name@) && v@ == self.params@[name@],
                Err(e) => !self.params@.contains_key(name@) && (e matches
                    ExtractParamError::MissingParamName { name: n } && n@ == name@),
            },
    {
        param(&self.params, name)
    }

    /// Sets the response header `name` to `value`, replacing an earlier
    /// value.
    pub fn set_header(&mut self, name: &str, value: &str)
        requires
            old(self).wf(),
        ensures
            final(self).wf(),
            final(self).response.headers@ == old(self).response.headers@.insert(name@, value@),
            final(self).response.status == old(self).response.status,
            final(self).response.body == old(self).response.body,
            final(self).handlers == old(self).handlers,
            final(self).cursor() == old(self).cursor(),
            final(self).params == old(self).params,
            final(self).forms == old(self).forms,
            final(self).path == old(self).path,
            final(self).method == old(self).method,
    {
        self.response.headers.insert(name.to_owned(), value.to_owned());
    }

    /// Writes a plain-text response: the given status (or `200`), a
    /// plain-text content type, and `data` as the body.
    pub fn string(&mut self, code: Option<u16>, data: &str)
        requires
            old(self).wf(),
        ensures
            final(self).wf(),
            final(self).response.headers@ == old(self).response.headers@.insert(
                "content-type"@,
                "text/plain; charset=utf-8"@,
            ),
            final(self).response.status == (match code {
                Some(c) => c,
                None => 200u16,
            }),
            final(self).response.body@ == data@,
            final(self).handlers == old(self).handlers,
            final(self).cursor() == old(self).cursor(),
            final(self).params == old(self).params,
            final(self).forms == old(self).forms,
            final(self).path == old(self).path,
            final(self).method == old(self).method,
    {
        self.set_header("content-type", "text/plain; charset=utf-8");
        match code {
            Some(c) => {
                self.response.status = c;
            },
            None => {
                self.response.status = 200;
            },
        }
        self.response.body = data.to_owned();
    }

    /// Writes an HTML response body with an HTML content type; the status is
    /// left as it stands.
    pub fn html(&mut self, data: &str)
        requires
            old(self).wf(),
        ensures
            final(self).wf(),
            final(self).response.headers@ == old(self).response.headers@.insert(
                "content-type"@,
                "text/html; chartset=utf-8"@,
            ),
            final(self).response.status == old(self).response.status,
            final(self).response.body@ == data@,
            final(self).handlers == old(self).handlers,
            final(self).cursor() == old(self).cursor(),
            final(self).params == old(self).params,
            final(self).forms == old(self).forms,
            final(self).path == old(self).path,
            final(self).method == old(self).method,
    {
        self.set_header("content-type", "text/html; chartset=utf-8");
        self.response.body = data.to_owned();
    }
}

} // verus!
