//! The router: a method+path keyed table of handlers with a fixed
//! not-found fallback, and the per-connection serve logic that runs
//! parse, dispatch and serialization over one buffered request.

use crate::error::ServerError;
use crate::message::{
    spec_format, spec_new_response, spec_parse_request, BodyModel, Message, Request, RequestModel,
    ResponseBody, ResponseModel, ResponseWriter,
};
use crate::method::Method;
use crate::status_code::StatusCode;
use vstd::prelude::*;

verus! {

/// A handler: one unit of behavior bound to a route.  It is invoked at
/// most once per request and is expected to call the writer's `send`
/// before returning on the success path.
pub trait Handler {
    fn serve_http(&self, writer: &mut Message, req: &Request) -> Result<(), ServerError>
        requires
            old(writer).sent() is None,
    ;
}

/// Registration: bind a handler to a method and an exact path pattern.
pub trait ServeMux<H> {
    fn handle(&mut self, method: Method, pattern: String, handler: H);
}

/// A multiplexer that both routes requests and accepts registrations.
pub trait HandlerServeMux<H>: Handler + ServeMux<H> {
}

/// The index of the first entry with exactly this path, if any.
pub open spec fn spec_route_index<H>(table: Seq<(Seq<char>, H)>, path: Seq<char>) -> Option<int>
    decreases table.len(),
{
    if table.len() == 0 {
        None
    } else if table[0].0 == path {
        Some(0)
    } else {
        match spec_route_index(table.drop_first(), path) {
            Some(i) => Some(i + 1),
            None => None,
        }
    }
}

/// The handler bound to exactly this path, if any.
pub open spec fn spec_route_lookup<H>(table: Seq<(Seq<char>, H)>, path: Seq<char>) -> Option<H> {
    match spec_route_index(table, path) {
        Some(i) => Some(table[i].1),
        None => None,
    }
}

/// Insertion with overwrite: an entry with the same path is replaced, a
/// new path is appended.
pub open spec fn spec_route_insert<H>(table: Seq<(Seq<char>, H)>, path: Seq<char>, h: H) -> Seq<
    (Seq<char>, H),
> {
    match spec_route_index(table, path) {
        Some(i) => table.update(i, (path, h)),
        None => table.push((path, h)),
    }
}

/// No two entries share a path.
pub open spec fn spec_routes_wf<H>(table: Seq<(Seq<char>, H)>) -> bool {
    forall|i: int, j: int|
        0 <= i < j < table.len() ==> (#[trigger] table[i].0) != (#[trigger] table[j].0)
}

/// `spec_route_index` finds exactly the first entry with the path.
pub proof fn lemma_route_index<H>(table: Seq<(Seq<char>, H)>, path: Seq<char>)
    ensures
        match spec_route_index(table, path) {
            Some(i) => {
                &&& 0 <= i < table.len()
                &&& table[i].0 == path
                &&& forall|j: int| 0 <= j < i ==> (#[trigger] table[j].0) != path
            },
            None => forall|j: int| 0 <= j < table.len() ==> (#[trigger] table[j].0) != path,
        },
    decreases table.len(),
{
    if table.len() > 0 {
        lemma_route_index(table.drop_first(), path);
        if table[0].0 != path {
            assert(forall|j: int|
                1 <= j < table.len() ==> table.drop_first()[j - 1] == #[trigger] table[j]);
        }
    }
}

/// The converse of `lemma_route_index`: a first match pins the index.
proof fn lemma_route_index_is<H>(table: Seq<(Seq<char>, H)>, path: Seq<char>, i: int)
    requires
        0 <= i < table.len(),
        table[i].0 == path,
        forall|j: int| 0 <= j < i ==> (#[trigger] table[j].0) != path,
    ensures
        spec_route_index(table, path) == Some(i),
{
    lemma_route_index(table, path);
    match spec_route_index(table, path) {
        Some(k) => {
            if k < i {
                assert(table[k].0 != path);
            }
            if i < k {
                assert(table[i].0 != path);
            }
        },
        None => {
            assert(table[i].0 != path);
        },
    }
}

/// Insertion preserves path uniqueness.
pub proof fn lemma_route_insert_wf<H>(table: Seq<(Seq<char>, H)>, path: Seq<char>, h: H)
    requires
        spec_routes_wf(table),
    ensures
        spec_routes_wf(spec_route_insert(table, path, h)),
{
    lemma_route_index(table, path);
    match spec_route_index(table, path) {
        Some(i) => {
            let r = table.update(i, (path, h));
            assert forall|a: int, b: int| 0 <= a < b < r.len() implies (#[trigger] r[a].0) != (
            #[trigger] r[b].0) by {
                if a != i && b != i {
                    assert(r[a] == table[a] && r[b] == table[b]);
                } else if a == i {
                    assert(table[a].0 == path && r[b] == table[b]);
                } else {
                    assert(table[b].0 == path && r[a] == table[a]);
                }
            }
        },
        None => {
            let r = table.push((path, h));
            assert forall|a: int, b: int| 0 <= a < b < r.len() implies (#[trigger] r[a].0) != (
            #[trigger] r[b].0) by {
                if b < table.len() {
                    assert(r[a] == table[a] && r[b] == table[b]);
                } else {
                    assert(r[b] == (path, h));
                    assert(r[a] == table[a]);
                }
            }
        },
    }
}

/// Inserting at `path` binds exactly `h` there and leaves every other
/// path's binding unchanged.
pub proof fn lemma_route_insert_lookup<H>(
    table: Seq<(Seq<char>, H)>,
    path: Seq<char>,
    h: H,
    q: Seq<char>,
)
    ensures
        spec_route_lookup(spec_route_insert(table, path, h), path) == Some(h),
        q != path ==> spec_route_lookup(spec_route_insert(table, path, h), q)
            == spec_route_lookup(table, q),
{
    lemma_route_index(table, path);
    lemma_route_index(table, q);
    match spec_route_index(table, path) {
        Some(i) => {
            let r = table.update(i, (path, h));
            assert(r[i] == (path, h));
            assert(forall|j: int| 0 <= j < i ==> (#[trigger] r[j].0) == table[j].0);
            lemma_route_index_is(r, path, i);
            if q != path {
                match spec_route_index(table, q) {
                    Some(k) => {
                        assert(table[k].0 == q);
                        assert(k != i);
                        assert(r[k] == table[k]);
                        assert(forall|j: int| 0 <= j < k && j != i ==> r[j] == table[j]);
                        assert(forall|j: int| 0 <= j < k ==> (#[trigger] r[j].0) != q);
                        lemma_route_index_is(r, q, k);
                    },
                    None => {
                        lemma_route_index(r, q);
                        match spec_route_index(r, q) {
                            Some(k2) => {
                                assert(r[k2].0 == q);
                                if k2 == i {
                                    assert(r[k2].0 == path);
                                } else {
                                    assert(r[k2] == table[k2]);
                                    assert(table[k2].0 != q);
                                }
                                assert(false);
                            },
                            None => {},
                        }
                    },
                }
            }
        },
        None => {
            let r = table.push((path, h));
            assert(r[table.len() as int] == (path, h));
            assert(forall|j: int| 0 <= j < table.len() ==> r[j] == #[trigger] table[j]);
            lemma_route_index_is(r, path, table.len() as int);
            if q != path {
                match spec_route_index(table, q) {
                    Some(k) => {
                        lemma_route_index_is(r, q, k);
                    },
                    None => {
                        lemma_route_index(r, q);
                        match spec_route_index(r, q) {
                            Some(k2) => {
                                assert(r[k2].0 == q);
                                if k2 == table.len() as int {
                                    assert(r[k2].0 == path);
                                } else {
                                    assert(table[k2].0 != q);
                                }
                                assert(false);
                            },
                            None => {},
                        }
                    },
                }
            }
        },
    }
}

/// The view of one route table: each stored path as its character
/// sequence, the handler as it is.
pub open spec fn spec_routes<H>(v: Seq<(String, H)>) -> Seq<(Seq<char>, H)> {
    v.map_values(|p: (String, H)| (p.0@, p.1))
}

/// The mathematical shape of the multiplexer: one table for GET routes,
/// one for POST routes.
pub struct MuxModel<H> {
    pub get: Seq<(Seq<char>, H)>,
    pub post: Seq<(Seq<char>, H)>,
}

/// Which handler a request routes to: GET and POST consult their tables;
/// every other method bypasses them and falls to the not-found handler.
pub open spec fn spec_route<H>(m: MuxModel<H>, req: RequestModel) -> Option<H> {
    match req.method {
        Method::Get => spec_route_lookup(m.get, req.path),
        Method::Post => spec_route_lookup(m.post, req.path),
        _ => None,
    }
}

/// What a registration does to the multiplexer: GET and POST insert into
/// their tables, any other method registers nothing.
pub open spec fn spec_handle<H>(m: MuxModel<H>, method: Method, pattern: Seq<char>, h: H) -> MuxModel<
    H,
> {
    match method {
        Method::Get => MuxModel { get: spec_route_insert(m.get, pattern, h), post: m.post },
        Method::Post => MuxModel { get: m.get, post: spec_route_insert(m.post, pattern, h) },
        _ => m,
    }
}

/// Law: after a handler is bound at (GET, `pattern`), a GET request for
/// exactly that path routes to it and to nothing else; a GET request for
/// any other path routes as it did before; and a request whose method is
/// neither GET nor POST routes to no handler — the not-found fallback —
/// whatever is bound.  The same holds of POST and its table.
pub proof fn lemma_register_then_route<H>(
    m: MuxModel<H>,
    pattern: Seq<char>,
    h: H,
    req: RequestModel,
)
    ensures
        req.method is Get && req.path == pattern ==> spec_route(
            spec_handle(m, Method::Get, pattern, h),
            req,
        ) == Some(h),
        req.method is Get && req.path != pattern ==> spec_route(
            spec_handle(m, Method::Get, pattern, h),
            req,
        ) == spec_route(m, req),
        req.method is Post && req.path == pattern ==> spec_route(
            spec_handle(m, Method::Post, pattern, h),
            req,
        ) == Some(h),
        !(req.method is Get) && !(req.method is Post) ==> spec_route(m, req) is None,
{
    if req.method is Get {
        lemma_route_insert_lookup(m.get, pattern, h, req.path);
    }
    if req.method is Post {
        lemma_route_insert_lookup(m.post, pattern, h, req.path);
    }
}

/// The method+path keyed dispatch table, with the not-found handler as
/// its fixed fallback.
pub struct DefaultServeMux<H> {
    get: Vec<(String, H)>,
    post: Vec<(String, H)>,
}

impl<H> View for DefaultServeMux<H> {
    type V = MuxModel<H>;

    closed spec fn view(&self) -> MuxModel<H> {
        MuxModel { get: spec_routes(self.get@), post: spec_routes(self.post@) }
    }
}

/// Replace or append the entry for `pattern`, first match wins.
fn insert_route<H>(table: &mut Vec<(String, H)>, pattern: String, handler: H)
    ensures
        spec_routes(final(table)@) == spec_route_insert(
            spec_routes(old(table)@),
            pattern@,
            handler,
        ),
{
    let n = table.len();
    let mut i: usize = 0;
    while i < n
        invariant
            n == table@.len(),
            0 <= i <= n,
            table@ == old(table)@,
            forall|j: int| 0 <= j < i ==> (#[trigger] spec_routes(table@)[j].0) != pattern@,
        decreases n - i,
    {
        proof {
            assert(spec_routes(table@)[i as int] == (table@[i as int].0@, table@[i as int].1));
        }
        if table[i].0 == pattern {
            proof {
                let v = spec_routes(table@);
                lemma_route_index(v, pattern@);
                assert(v[i as int].0 == pattern@);
                match spec_route_index(v, pattern@) {
                    Some(k) => {
                        assert(v[k].0 == pattern@);
                        if k < i {
                            assert(v[k].0 != pattern@);
                        }
                        if i < k {
                            assert(v[i as int].0 != pattern@);
                        }
                        assert(k == i as int);
                    },
                    None => {
                        assert(v[i as int].0 != pattern@);
                    },
                }
            }
            let ghost pt = pattern@;
            let ghost hd = handler;
            table[i] = (pattern, handler);
            proof {
                assert(spec_routes(table@) =~~= spec_route_insert(
                    spec_routes(old(table)@),
                    pt,
                    hd,
                ));
            }
            return;
        }
        i += 1;
    }
    proof {
        let v = spec_routes(table@);
        lemma_route_index(v, pattern@);
        match spec_route_index(v, pattern@) {
            Some(k) => {
                assert(v[k].0 != pattern@);
            },
            None => {},
        }
    }
    let ghost dv0 = spec_routes(table@);
    let ghost pt = pattern@;
    let ghost hd = handler;
    table.push((pattern, handler));
    proof {
        assert(spec_routes(table@) =~~= spec_route_insert(dv0, pt, hd));
    }
}

/// The handler bound to exactly `path` in this table, if any.
fn lookup_route<'a, H>(table: &'a Vec<(String, H)>, path: &String) -> (h: Option<&'a H>)
    ensures
        match h {
            Some(hh) => spec_route_lookup(spec_routes(table@), path@) == Some(*hh),
            None => spec_route_lookup(spec_routes(table@), path@) is None,
        },
{
    let n = table.len();
    let mut i: usize = 0;
    while i < n
        invariant
            n == table@.len(),
            0 <= i <= n,
            forall|j: int| 0 <= j < i ==> (#[trigger] spec_routes(table@)[j].0) != path@,
        decreases n - i,
    {
        proof {
            assert(spec_routes(table@)[i as int] == (table@[i as int].0@, table@[i as int].1));
        }
        if table[i].0 == *path {
            proof {
                let v = spec_routes(table@);
                lemma_route_index(v, path@);
                assert(v[i as int].0 == path@);
                match spec_route_index(v, path@) {
                    Some(k) => {
                        assert(v[k].0 == path@);
                        if k < i {
                            assert(v[k].0 != path@);
                        }
                        if i < k {
                            assert(v[i as int].0 != path@);
                        }
                        assert(k == i as int);
                    },
                    None => {
                        assert(v[i as int].0 != path@);
                    },
                }
            }
            return Some(&table[i].1);
        }
        i += 1;
    }
    proof {
        let v = spec_routes(table@);
        lemma_route_index(v, path@);
        match spec_route_index(v, path@) {
            Some(k) => {
                assert(v[k].0 != path@);
            },
            None => {},
        }
    }
    None
}

impl<H> DefaultServeMux<H> {
    /// An empty multiplexer: no routes in either table.
    pub fn new() -> (r: Self)
        ensures
            r@.get == Seq::<(Seq<char>, H)>::empty(),
            r@.post == Seq::<(Seq<char>, H)>::empty(),
            spec_routes_wf(r@.get),
            spec_routes_wf(r@.post),
    {
        let r = DefaultServeMux { get: Vec::new(), post: Vec::new() };
        proof {
            assert(r@.get =~= Seq::<(Seq<char>, H)>::empty());
            assert(r@.post =~= Seq::<(Seq<char>, H)>::empty());
        }
        r
    }

    /// Bind `handler` at (`method`, `pattern`), replacing any prior
    /// binding at the same key; methods other than GET and POST register
    /// nothing.
    pub fn handle(&mut self, method: Method, pattern: String, handler: H)
        ensures
            final(self)@ == spec_handle(old(self)@, method, pattern@, handler),
            spec_routes_wf(old(self)@.get) ==> spec_routes_wf(final(self)@.get),
            spec_routes_wf(old(self)@.post) ==> spec_routes_wf(final(self)@.post),
    {
        proof {
            if spec_routes_wf(self@.get) {
                lemma_route_insert_wf(self@.get, pattern@, handler);
            }
            if spec_routes_wf(self@.post) {
                lemma_route_insert_wf(self@.post, pattern@, handler);
            }
        }
        match method {
            Method::Get => insert_route(&mut self.get, pattern, handler),
            Method::Post => insert_route(&mut self.post, pattern, handler),
            _ => {},
        }
    }

    /// The handler the request routes to, or nothing when the not-found
    /// fallback applies.
    pub fn handler(&self, r: &Request) -> (h: Option<&H>)
        ensures
            match h {
                Some(hh) => spec_route(self@, r@) == Some(*hh),
                None => spec_route(self@, r@) is None,
            },
    {
        match r.method {
            Method::Get => lookup_route(&self.get, &r.path),
            Method::Post => lookup_route(&self.post, &r.path),
            _ => None,
        }
    }
}

/// What the fixed not-found handler makes of the response it is handed:
/// status 404 with a minimal textual body, other fields untouched.
pub open spec fn spec_not_found_response(m: ResponseModel) -> ResponseModel {
    ResponseModel {
        status_code: StatusCode::NotFound,
        body: Some(BodyModel::Text("404 Not Found"@)),
        ..m
    }
}

/// The fixed built-in fallback: it sets a 404 status and a minimal body,
/// sends, and never fails.
pub struct NotFoundHandler;

impl NotFoundHandler {
    pub fn new() -> (r: NotFoundHandler) {
        NotFoundHandler
    }

    /// Write the fixed 404 response through the writer and send it.
    pub fn respond(&self, writer: &mut Message) -> (r: Result<(), ServerError>)
        requires
            old(writer).sent() is None,
        ensures
            r is Ok,
            final(writer).response() == spec_not_found_response(old(writer).response()),
            final(writer).sent() == Some(
                spec_format(spec_not_found_response(old(writer).response())),
            ),
    {
        writer.write(ResponseBody::StringBody("404 Not Found".to_owned()));
        writer.write_header(404);
        writer.send();
        Ok(())
    }
}

impl Handler for NotFoundHandler {
    fn serve_http(&self, writer: &mut Message, _req: &Request) -> Result<(), ServerError> {
        self.respond(writer)
    }
}

impl<H: Handler> DefaultServeMux<H> {
    /// Route the request and run its handler; an absent route or a method
    /// other than GET and POST runs the not-found handler, which cannot
    /// fail.
    pub fn dispatch(&self, writer: &mut Message, req: &Request) -> (r: Result<(), ServerError>)
        requires
            old(writer).sent() is None,
        ensures
            spec_route(self@, req@) is None ==> {
                &&& r is Ok
                &&& final(writer).response() == spec_not_found_response(old(writer).response())
                &&& final(writer).sent() == Some(
                    spec_format(spec_not_found_response(old(writer).response())),
                )
            },
    {
        match self.handler(req) {
            Some(h) => h.serve_http(writer, req),
            None => NotFoundHandler::new().respond(writer),
        }
    }
}

impl<H: Handler> Handler for DefaultServeMux<H> {
    fn serve_http(&self, writer: &mut Message, req: &Request) -> Result<(), ServerError> {
        self.dispatch(writer, req)
    }
}

impl<H> ServeMux<H> for DefaultServeMux<H> {
    fn handle(&mut self, method: Method, pattern: String, handler: H) {
        DefaultServeMux::handle(self, method, pattern, handler)
    }
}

impl<H: Handler> HandlerServeMux<H> for DefaultServeMux<H> {}

/// Serve one buffered request: parse it, dispatch it, and hand back the
/// exchange whose recorded wire bytes the connection layer writes to its
/// socket.  A parse failure aborts with its error before any handler
/// runs; a handler's own failure is passed through.
pub fn serve_request<H: Handler>(mux: &DefaultServeMux<H>, input: &[u8]) -> (r: Result<
    Message,
    ServerError,
>)
    ensures
        match spec_parse_request(input@) {
            Err(e) => r == Result::<Message, ServerError>::Err(e),
            Ok(m) => r matches Ok(msg) ==> msg.req@ == m,
        },
        (spec_parse_request(input@) matches Ok(m) && spec_route(mux@, m) is None) ==> {
            &&& r is Ok
            &&& r matches Ok(msg) ==> msg.res@ == spec_not_found_response(spec_new_response())
                && msg.sent() == Some(
                spec_format(spec_not_found_response(spec_new_response())),
            )
        },
{
    let mut req = Request::new();
    match req.parse(input) {
        Err(e) => {
            return Err(e);
        },
        Ok(_) => {},
    }
    let mut msg = Message::new();
    match mux.dispatch(&mut msg, &req) {
        Err(e) => {
            proof {
                match spec_parse_request(input@) {
                    Ok(m) => {
                        assert(req@ == m);
                    },
                    Err(_) => {
                        assert(false);
                    },
                }
            }
            Err(e)
        },
        Ok(_) => {
            proof {
                match spec_parse_request(input@) {
                    Ok(m) => {
                        assert(req@ == m);
                        if spec_route(mux@, m) is None {
                            assert(msg.res@ == spec_not_found_response(spec_new_response()));
                            assert(msg.sent() == Some(
                                spec_format(spec_not_found_response(spec_new_response())),
                            ));
                        }
                    },
                    Err(_) => {
                        assert(false);
                    },
                }
            }
            msg.req = req;
            Ok(msg)
        },
    }
}

} // verus!
