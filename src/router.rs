use vstd::prelude::*;
use crate::requests::{Method, Request};
use crate::response::{new_view, not_found_view, Response, ResponseView};
use vstd::utf8::encode_utf8;
use crate::text::same_text;

verus! {

/// Something that answers a request; one value may serve many connections at once.
pub trait Handler {
    /// Whether `resp` is an answer this handler may give to `req`; a handler that
    /// promises nothing about its answers keeps this default.
    open spec fn answers(&self, req: (Method, Seq<char>, Seq<u8>), resp: ResponseView) -> bool {
        true
    }

    fn handle(&self, req: Request) -> (r: Response)
        ensures
            self.answers(req@, r@),
    ;
}

/// A handler that answers every request with the same text, as `Response::text` builds it.
pub struct TextHandler {
    text: String,
}

impl TextHandler {
    pub closed spec fn text_view(&self) -> Seq<char> {
        self.text@
    }

    pub fn new(text: &str) -> (r: TextHandler)
        ensures
            r.text_view() == text@,
    {
        TextHandler { text: text.to_owned() }
    }
}

impl Handler for TextHandler {
    open spec fn answers(&self, req: (Method, Seq<char>, Seq<u8>), resp: ResponseView) -> bool {
        resp == new_view(200, encode_utf8(self.text_view()))
    }

    fn handle(&self, req: Request) -> (r: Response) {
        Response::text(self.text.as_str())
    }
}

/// A method and an exact path bound to a handler.
pub struct Route<H> {
    pub method: Method,
    pub path: String,
    pub handler: H,
}

/// Routes in the order of registration; the first exact match answers.
pub struct Router<H> {
    routes: Vec<Route<H>>,
}

/// The index of the first route in `rs` whose method and path equal `m` and `p`.
pub open spec fn first_match(rs: Seq<(Method, Seq<char>)>, m: Method, p: Seq<char>) -> Option<int>
    decreases rs.len(),
{
    if rs.len() == 0 {
        None
    } else {
        match first_match(rs.drop_last(), m, p) {
            Some(i) => Some(i),
            None => if rs.last() == (m, p) {
                Some(rs.len() - 1)
            } else {
                None
            },
        }
    }
}

pub proof fn lemma_first_match(rs: Seq<(Method, Seq<char>)>, m: Method, p: Seq<char>)
    ensures
        match first_match(rs, m, p) {
            None => forall|j: int| 0 <= j < rs.len() ==> rs[j] != (m, p),
            Some(i) => 0 <= i < rs.len() && rs[i] == (m, p) && forall|j: int|
                0 <= j < i ==> rs[j] != (m, p),
        },
    decreases rs.len(),
{
    if rs.len() > 0 {
        lemma_first_match(rs.drop_last(), m, p);
        assert(rs[rs.len() - 1] == rs.last());
        assert forall|j: int| 0 <= j < rs.len() - 1 implies rs[j] == rs.drop_last()[j] by {}
    }
}

/// Of two routes with the same method and path, the later one is never chosen:
/// the first registered for a method and path answers it.
pub proof fn lemma_first_registered_wins(rs: Seq<(Method, Seq<char>)>, i: int, j: int)
    requires
        0 <= i < j < rs.len(),
        rs[i] == rs[j],
    ensures
        first_match(rs, rs[j].0, rs[j].1) is Some,
        first_match(rs, rs[j].0, rs[j].1) != Some(j),
        first_match(rs, rs[j].0, rs[j].1)->0 <= i,
{
    lemma_first_match(rs, rs[j].0, rs[j].1);
}

/// A match within the first `n` routes is the first match of the whole table.
proof fn lemma_first_match_prefix(rs: Seq<(Method, Seq<char>)>, n: int, m: Method, p: Seq<char>)
    requires
        0 <= n <= rs.len(),
        first_match(rs.take(n), m, p) is Some,
    ensures
        first_match(rs, m, p) == first_match(rs.take(n), m, p),
    decreases rs.len() - n,
{
    if n < rs.len() {
        let u = rs.take(n + 1);
        assert(u.drop_last() =~= rs.take(n));
        lemma_first_match_prefix(rs, n + 1, m, p);
    } else {
        assert(rs.take(n) =~= rs);
    }
}

impl<H> Router<H> {
    /// The method and path of each route, in order of registration.
    pub closed spec fn table(&self) -> Seq<(Method, Seq<char>)> {
        self.routes@.map_values(|r: Route<H>| (r.method, r.path@))
    }

    /// The handler of the route at `i`.
    pub closed spec fn handler_at(&self, i: int) -> H {
        self.routes@[i].handler
    }

    /// An empty router.
    pub fn new() -> (r: Router<H>)
        ensures
            r.table() == Seq::<(Method, Seq<char>)>::empty(),
    {
        let r = Router { routes: Vec::new() };
        assert(r.table() =~= Seq::<(Method, Seq<char>)>::empty());
        r
    }

    /// The number of registered routes.
    pub fn len(&self) -> (r: usize)
        ensures
            r == self.table().len(),
    {
        self.routes.len()
    }

    /// Appends a route; earlier routes keep their place and win ties.
    pub fn add_route(&mut self, method: Method, path: &str, handler: H) -> (r: &mut Router<H>)
        ensures
            r.table() == old(self).table().push((method, path@)),
            r.handler_at(old(self).table().len() as int) == handler,
            forall|i: int|
                0 <= i < old(self).table().len() ==> r.handler_at(i) == old(self).handler_at(i),
            *final(self) == *final(r),
    {
        self.routes.push(Route { method, path: path.to_owned(), handler });
        proof {
            assert(self.table() =~= old(self).table().push((method, path@)));
        }
        self
    }

    /// Registers a GET route.
    pub fn get(&mut self, path: &str, handler: H) -> (r: &mut Router<H>)
        ensures
            r.table() == old(self).table().push((Method::GET, path@)),
            r.handler_at(old(self).table().len() as int) == handler,
            forall|i: int|
                0 <= i < old(self).table().len() ==> r.handler_at(i) == old(self).handler_at(i),
            *final(self) == *final(r),
    {
        self.add_route(Method::GET, path, handler)
    }

    /// Registers a POST route.
    pub fn post(&mut self, path: &str, handler: H) -> (r: &mut Router<H>)
        ensures
            r.table() == old(self).table().push((Method::POST, path@)),
            r.handler_at(old(self).table().len() as int) == handler,
            forall|i: int|
                0 <= i < old(self).table().len() ==> r.handler_at(i) == old(self).handler_at(i),
            *final(self) == *final(r),
    {
        self.add_route(Method::POST, path, handler)
    }

    /// Registers a PUT route.
    pub fn put(&mut self, path: &str, handler: H) -> (r: &mut Router<H>)
        ensures
            r.table() == old(self).table().push((Method::PUT, path@)),
            r.handler_at(old(self).table().len() as int) == handler,
            forall|i: int|
                0 <= i < old(self).table().len() ==> r.handler_at(i) == old(self).handler_at(i),
            *final(self) == *final(r),
    {
        self.add_route(Method::PUT, path, handler)
    }

    /// Registers a DELETE route.
    pub fn delete(&mut self, path: &str, handler: H) -> (r: &mut Router<H>)
        ensures
            r.table() == old(self).table().push((Method::DELETE, path@)),
            r.handler_at(old(self).table().len() as int) == handler,
            forall|i: int|
                0 <= i < old(self).table().len() ==> r.handler_at(i) == old(self).handler_at(i),
            *final(self) == *final(r),
    {
        self.add_route(Method::DELETE, path, handler)
    }

    /// Registers a PATCH route.
    pub fn patch(&mut self, path: &str, handler: H) -> (r: &mut Router<H>)
        ensures
            r.table() == old(self).table().push((Method::PATCH, path@)),
            r.handler_at(old(self).table().len() as int) == handler,
            forall|i: int|
                0 <= i < old(self).table().len() ==> r.handler_at(i) == old(self).handler_at(i),
            *final(self) == *final(r),
    {
        self.add_route(Method::PATCH, path, handler)
    }

    /// Registers a OPTIONS route.
    pub fn options(&mut self, path: &str, handler: H) -> (r: &mut Router<H>)
        ensures
            r.table() == old(self).table().push((Method::OPTIONS, path@)),
            r.handler_at(old(self).table().len() as int) == handler,
            forall|i: int|
                0 <= i < old(self).table().len() ==> r.handler_at(i) == old(self).handler_at(i),
            *final(self) == *final(r),
    {
        self.add_route(Method::OPTIONS, path, handler)
    }

    /// Registers a HEAD route.
    pub fn head(&mut self, path: &str, handler: H) -> (r: &mut Router<H>)
        ensures
            r.table() == old(self).table().push((Method::HEAD, path@)),
            r.handler_at(old(self).table().len() as int) == handler,
            forall|i: int|
                0 <= i < old(self).table().len() ==> r.handler_at(i) == old(self).handler_at(i),
            *final(self) == *final(r),
    {
        self.add_route(Method::HEAD, path, handler)
    }

    /// The index of the first route registered for `method` and exactly `path`.
    pub fn route_for(&self, method: Method, path: &str) -> (r: Option<usize>)
        ensures
            match r {
                None => first_match(self.table(), method, path@) is None,
                Some(i) => first_match(self.table(), method, path@) == Some(i as int),
            },
    {
        let ghost t = self.table();
        let mut i: usize = 0;
        while i < self.routes.len()
            invariant
                t == self.table(),
                0 <= i <= t.len(),
                first_match(t.take(i as int), method, path@) is None,
            decreases t.len() - i,
        {
            let hit = self.routes[i].method == method && same_text(self.routes[i].path.as_str(), path);
            proof {
                let u = t.take(i as int + 1);
                assert(u.drop_last() =~= t.take(i as int));
                assert(u.last() == t[i as int]);
            }
            if hit {
                proof {
                    lemma_first_match_prefix(t, i as int + 1, method, path@);
                }
                return Some(i);
            }
            i = i + 1;
        }
        proof {
            assert(t.take(t.len() as int) =~= t);
        }
        None
    }
}

impl<H: Handler> Router<H> {
    /// Answers with the handler of the first route registered for the request's
    /// method and exactly its path; with the canonical 404 response where none is.
    pub fn dispatch(&self, req: Request) -> (r: Response)
        ensures
            first_match(self.table(), req.method, req.path@) is None ==> r@ == not_found_view()
                && r.wf(),
            forall|i: int|
                first_match(self.table(), req.method, req.path@) == Some(i) ==> self.handler_at(
                    i,
                ).answers(req@, r@),
    {
        proof {
            lemma_first_match(self.table(), req.method, req.path@);
        }
        match self.route_for(req.method, req.path.as_str()) {
            Some(i) => self.routes[i].handler.handle(req),
            None => Response::not_found(),
        }
    }
}

} // verus!
