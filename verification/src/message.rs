//! The typed request and response model and the wire grammar: the
//! line-oriented request parser and the response serializer.

use crate::error::ServerError;
use crate::header::{spec_content_type_from_str, spec_is_textual, ContentType, HttpHeader};
use crate::method::{spec_method_from_str, Method};
use crate::status_code::{spec_status_from_num, spec_status_name, spec_status_num_str, StatusCode};
use crate::text::{
    eq_uncased, fold_case, parse_u64, spec_parse_u64, spec_split, spec_split_at_first,
    spec_trim, spec_trim_start, split_at_first, split_str, trim, trim_start, utf8_lossy,
    utf8_lossy_string,
};
use vstd::prelude::*;
use vstd::slice::{slice_subrange, slice_to_vec};
use vstd::utf8::encode_utf8;

verus! {

/// The first index whose name equals `name` up to ASCII case, if any.
pub open spec fn spec_header_index(
    hs: Seq<(Seq<char>, Seq<char>)>,
    name: Seq<char>,
) -> Option<int>
    decreases hs.len(),
{
    if hs.len() == 0 {
        None
    } else if fold_case(hs[0].0) == fold_case(name) {
        Some(0)
    } else {
        match spec_header_index(hs.drop_first(), name) {
            Some(i) => Some(i + 1),
            None => None,
        }
    }
}

/// The value stored under `name`, compared up to ASCII case.
pub open spec fn spec_header_lookup(
    hs: Seq<(Seq<char>, Seq<char>)>,
    name: Seq<char>,
) -> Option<Seq<char>> {
    match spec_header_index(hs, name) {
        Some(i) => Some(hs[i].1),
        None => None,
    }
}

/// Insertion with last-write-wins on names equal up to ASCII case: an
/// existing entry is replaced in place, a new name is appended.
pub open spec fn spec_header_insert(
    hs: Seq<(Seq<char>, Seq<char>)>,
    name: Seq<char>,
    value: Seq<char>,
) -> Seq<(Seq<char>, Seq<char>)> {
    match spec_header_index(hs, name) {
        Some(i) => hs.update(i, (name, value)),
        None => hs.push((name, value)),
    }
}

/// No two entries carry the same name up to ASCII case.
pub open spec fn spec_header_wf(hs: Seq<(Seq<char>, Seq<char>)>) -> bool {
    forall|i: int, j: int|
        0 <= i < j < hs.len() ==> fold_case(#[trigger] hs[i].0) != fold_case(#[trigger] hs[j].0)
}

/// `spec_header_index` finds exactly the first case-insensitive match.
pub proof fn lemma_header_index(hs: Seq<(Seq<char>, Seq<char>)>, name: Seq<char>)
    ensures
        match spec_header_index(hs, name) {
            Some(i) => {
                &&& 0 <= i < hs.len()
                &&& fold_case(hs[i].0) == fold_case(name)
                &&& forall|j: int| 0 <= j < i ==> fold_case(#[trigger] hs[j].0) != fold_case(name)
            },
            None => forall|j: int|
                0 <= j < hs.len() ==> fold_case(#[trigger] hs[j].0) != fold_case(name),
        },
    decreases hs.len(),
{
    if hs.len() > 0 {
        lemma_header_index(hs.drop_first(), name);
        if fold_case(hs[0].0) != fold_case(name) {
            assert(forall|j: int|
                1 <= j < hs.len() ==> hs.drop_first()[j - 1] == #[trigger] hs[j]);
        }
    }
}

/// Insertion preserves well-formedness of the header map.
pub proof fn lemma_header_insert_wf(
    hs: Seq<(Seq<char>, Seq<char>)>,
    name: Seq<char>,
    value: Seq<char>,
)
    requires
        spec_header_wf(hs),
    ensures
        spec_header_wf(spec_header_insert(hs, name, value)),
{
    lemma_header_index(hs, name);
    match spec_header_index(hs, name) {
        Some(i) => {
            let r = hs.update(i, (name, value));
            assert forall|a: int, b: int| 0 <= a < b < r.len() implies fold_case(
                #[trigger] r[a].0,
            ) != fold_case(#[trigger] r[b].0) by {
                if a != i && b != i {
                    assert(r[a] == hs[a] && r[b] == hs[b]);
                } else if a == i {
                    assert(fold_case(hs[a].0) == fold_case(name));
                    assert(r[b] == hs[b]);
                } else {
                    assert(fold_case(hs[b].0) == fold_case(name));
                    assert(r[a] == hs[a]);
                }
            }
        },
        None => {
            let r = hs.push((name, value));
            assert forall|a: int, b: int| 0 <= a < b < r.len() implies fold_case(
                #[trigger] r[a].0,
            ) != fold_case(#[trigger] r[b].0) by {
                if b < hs.len() {
                    assert(r[a] == hs[a] && r[b] == hs[b]);
                } else {
                    assert(r[b] == (name, value));
                    assert(r[a] == hs[a]);
                }
            }
        },
    }
}

/// The header map of a message: string names to string values, names
/// compared without regard to ASCII case, last write winning.
#[derive(Clone, Debug)]
pub struct Header {
    entries: Vec<(String, String)>,
}

impl View for Header {
    type V = Seq<(Seq<char>, Seq<char>)>;

    closed spec fn view(&self) -> Seq<(Seq<char>, Seq<char>)> {
        self.entries.deep_view()
    }
}

impl Header {
    /// An empty header map.
    pub fn new() -> (r: Header)
        ensures
            r@ == Seq::<(Seq<char>, Seq<char>)>::empty(),
            spec_header_wf(r@),
    {
        let r = Header { entries: Vec::new() };
        proof {
            assert(r@ =~= Seq::<(Seq<char>, Seq<char>)>::empty());
        }
        r
    }

    /// The number of entries.
    pub fn len(&self) -> (r: usize)
        ensures
            r == self@.len(),
    {
        self.entries.len()
    }

    /// The entry at an index, in insertion order.
    pub fn entry(&self, i: usize) -> (p: &(String, String))
        requires
            i < self@.len(),
        ensures
            self@[i as int] == (p.0@, p.1@),
    {
        &self.entries[i]
    }

    /// Store `value` under `name`, replacing any entry whose name equals
    /// `name` up to ASCII case.
    pub fn insert(&mut self, name: String, value: String)
        requires
            spec_header_wf(old(self)@),
        ensures
            final(self)@ == spec_header_insert(old(self)@, name@, value@),
            spec_header_wf(final(self)@),
    {
        let n = self.entries.len();
        let mut i: usize = 0;
        while i < n
            invariant
                n == self@.len(),
                0 <= i <= n,
                self@ == old(self)@,
                spec_header_wf(old(self)@),
                forall|j: int| 0 <= j < i ==> fold_case(#[trigger] self@[j].0) != fold_case(name@),
            decreases n - i,
        {
            let hit = eq_uncased(self.entries[i].0.as_str(), name.as_str());
            proof {
                assert(self@[i as int].0 == self.entries@[i as int].0@);
            }
            if hit {
                proof {
                    lemma_header_index(self@, name@);
                    assert(fold_case(self@[i as int].0) == fold_case(name@));
                    match spec_header_index(self@, name@) {
                        Some(k) => {
                            assert(fold_case(self@[k].0) == fold_case(name@));
                            if k < i {
                                assert(fold_case(self@[k].0) != fold_case(name@));
                            }
                            if i < k {
                                assert(fold_case(self@[i as int].0) != fold_case(name@));
                            }
                            assert(k == i as int);
                        },
                        None => {
                            assert(fold_case(self@[i as int].0) != fold_case(name@));
                        },
                    }
                    assert(spec_header_index(self@, name@) == Some(i as int));
                }
                let ghost nm = name@;
                let ghost vl = value@;
                self.entries[i] = (name, value);
                proof {
                    assert(self@ =~~= spec_header_insert(old(self)@, nm, vl));
                    lemma_header_insert_wf(old(self)@, nm, vl);
                    assert(spec_header_wf(self@));
                }
                return;
            }
            i += 1;
        }
        proof {
            assert(spec_header_index(self@, name@) is None) by {
                lemma_header_index(self@, name@);
                match spec_header_index(self@, name@) {
                    Some(k) => {
                        assert(fold_case(self@[k].0) != fold_case(name@));
                    },
                    None => {},
                }
            }
        }
        let ghost dv0 = self@;
        let ghost nm = name@;
        let ghost vl = value@;
        self.entries.push((name, value));
        proof {
            assert(self@ =~~= spec_header_insert(dv0, nm, vl));
        }
    }

    /// The value stored under `name`, compared up to ASCII case.
    pub fn get(&self, name: &str) -> (r: Option<&String>)
        ensures
            match r {
                Some(v) => spec_header_lookup(self@, name@) == Some(v@),
                None => spec_header_lookup(self@, name@) is None,
            },
    {
        let n = self.entries.len();
        let mut i: usize = 0;
        while i < n
            invariant
                n == self@.len(),
                0 <= i <= n,
                forall|j: int| 0 <= j < i ==> fold_case(#[trigger] self@[j].0) != fold_case(name@),
            decreases n - i,
    {
            let hit = eq_uncased(self.entries[i].0.as_str(), name);
            proof {
                assert(self@[i as int] == (self.entries@[i as int].0@, self.entries@[i as int].1@));
            }
            if hit {
                proof {
                    lemma_header_index(self@, name@);
                    assert(fold_case(self@[i as int].0) == fold_case(name@));
                    match spec_header_index(self@, name@) {
                        Some(k) => {
                            assert(fold_case(self@[k].0) == fold_case(name@));
                            if k < i {
                                assert(fold_case(self@[k].0) != fold_case(name@));
                            }
                            if i < k {
                                assert(fold_case(self@[i as int].0) != fold_case(name@));
                            }
                            assert(k == i as int);
                        },
                        None => {
                            assert(fold_case(self@[i as int].0) != fold_case(name@));
                        },
                    }
                    assert(spec_header_index(self@, name@) == Some(i as int));
                }
                return Some(&self.entries[i].1);
            }
            i += 1;
        }
        proof {
            lemma_header_index(self@, name@);
            match spec_header_index(self@, name@) {
                Some(k) => {
                    assert(fold_case(self@[k].0) != fold_case(name@));
                },
                None => {},
            }
        }
        None
    }
}

/// The three states of the request parser; `Body` is terminal.
#[derive(Clone, Copy, PartialEq, Eq, Structural, Hash, Debug)]
pub enum RequestState {
    FirstLine,
    Header,
    Body,
}

/// A request body: text for the textual content types, raw bytes for the
/// binary ones.
#[derive(Clone, PartialEq, Eq, Hash, Debug)]
pub enum RequestBody {
    StringBody(String),
    BytesBody(Vec<u8>),
}

/// A response body, with the same two shapes as a request body.
#[derive(Clone, PartialEq, Eq, Hash, Debug)]
pub enum ResponseBody {
    StringBody(String),
    BytesBody(Vec<u8>),
}

/// The mathematical shape of a body: a character sequence or a byte
/// sequence.
pub enum BodyModel {
    Text(Seq<char>),
    Bytes(Seq<u8>),
}

impl View for RequestBody {
    type V = BodyModel;

    open spec fn view(&self) -> BodyModel {
        match self {
            RequestBody::StringBody(s) => BodyModel::Text(s@),
            RequestBody::BytesBody(b) => BodyModel::Bytes(b@),
        }
    }
}

impl View for ResponseBody {
    type V = BodyModel;

    open spec fn view(&self) -> BodyModel {
        match self {
            ResponseBody::StringBody(s) => BodyModel::Text(s@),
            ResponseBody::BytesBody(b) => BodyModel::Bytes(b@),
        }
    }
}

/// The mathematical shape of a request.
pub struct RequestModel {
    pub method: Method,
    pub path: Seq<char>,
    pub version: Seq<char>,
    pub headers: Seq<(Seq<char>, Seq<char>)>,
    pub body: Option<BodyModel>,
    pub state: RequestState,
    pub content_length: u64,
    pub content_type: ContentType,
}

/// An inbound request, built by the parser and immutable after dispatch.
#[derive(Clone, Debug)]
pub struct Request {
    pub method: Method,
    pub path: String,
    pub version: String,
    pub headers: Header,
    pub body: Option<RequestBody>,
    pub state: RequestState,
    pub content_length: u64,
    pub content_type: ContentType,
}

impl View for Request {
    type V = RequestModel;

    open spec fn view(&self) -> RequestModel {
        RequestModel {
            method: self.method,
            path: self.path@,
            version: self.version@,
            headers: self.headers@,
            body: match self.body {
                Some(b) => Some(b@),
                None => None,
            },
            state: self.state,
            content_length: self.content_length,
            content_type: self.content_type,
        }
    }
}

/// A fresh request: method placeholder, root path, HTTP/1.1, no headers,
/// no body, parser at the first line.
pub open spec fn spec_new_request() -> RequestModel {
    RequestModel {
        method: Method::Other,
        path: "/"@,
        version: "HTTP/1.1"@,
        headers: Seq::empty(),
        body: None,
        state: RequestState::FirstLine,
        content_length: 0,
        content_type: ContentType::TextPlain,
    }
}

/// What the space-split tokens of the first line do to a request: fewer
/// than two tokens or an unknown method are hard errors; two tokens give a
/// version only, three or more give path and version.
pub open spec fn spec_read_first_line(
    m: RequestModel,
    toks: Seq<Seq<char>>,
) -> Result<RequestModel, ServerError> {
    if toks.len() < 2 {
        Err(ServerError::ReadHeaderError)
    } else {
        match spec_method_from_str(toks[0]) {
            Err(_) => Err(ServerError::ReadHeaderError),
            Ok(meth) => Ok(
                if toks.len() < 3 {
                    RequestModel { method: meth, version: toks[1], ..m }
                } else {
                    RequestModel { method: meth, path: toks[1], version: toks[2], ..m }
                },
            ),
        }
    }
}

/// What one header line does to a request.  The line splits at its first
/// colon; a line without one is a hard error.  `Content-Length` and
/// `Content-Type` are read into their fields (bad values fall back rather
/// than fail); every other pair lands in the header map with leading
/// whitespace of the value stripped.
pub open spec fn spec_read_header(
    m: RequestModel,
    line: Seq<char>,
) -> Result<RequestModel, ServerError> {
    match spec_split_at_first(line, ':') {
        None => Err(ServerError::ReadHeaderError),
        Some((name, raw)) => {
            if fold_case(name) == fold_case(
                crate::header::spec_http_header_name(HttpHeader::ContentLength),
            ) {
                Ok(RequestModel { content_length: spec_parse_u64(spec_trim(raw)), ..m })
            } else if fold_case(name) == fold_case(
                crate::header::spec_http_header_name(HttpHeader::ContentType),
            ) {
                match spec_content_type_from_str(spec_trim_start(raw)) {
                    Ok(t) => Ok(RequestModel { content_type: t, ..m }),
                    Err(_) => Ok(m),
                }
            } else {
                Ok(
                    RequestModel {
                        headers: spec_header_insert(m.headers, name, spec_trim_start(raw)),
                        ..m
                    },
                )
            }
        },
    }
}

/// What the body bytes do to a request: textual content types decode the
/// bytes as best-effort UTF-8, binary ones keep them unchanged.
pub open spec fn spec_read_body(m: RequestModel, data: Seq<u8>) -> RequestModel {
    if spec_is_textual(m.content_type) {
        RequestModel { body: Some(BodyModel::Text(utf8_lossy(data))), ..m }
    } else {
        RequestModel { body: Some(BodyModel::Bytes(data)), ..m }
    }
}

/// One step of the parser state machine on a terminator-stripped line.
pub open spec fn spec_parse_step(
    m: RequestModel,
    line: Seq<char>,
) -> Result<RequestModel, ServerError> {
    match m.state {
        RequestState::FirstLine => match spec_read_first_line(m, spec_split(line, ' ')) {
            Ok(m2) => Ok(RequestModel { state: RequestState::Header, ..m2 }),
            Err(e) => Err(e),
        },
        RequestState::Header => if line.len() == 0 {
            Ok(RequestModel { state: RequestState::Body, ..m })
        } else {
            spec_read_header(m, line)
        },
        RequestState::Body => Ok(m),
    }
}

/// Read the space-split tokens of the request line into `msg`.
pub fn read_first_line(msg: &mut Request, v: &Vec<String>) -> (r: Result<(), ServerError>)
    ensures
        match spec_read_first_line(old(msg)@, v.deep_view()) {
            Ok(m) => r is Ok && final(msg)@ == m,
            Err(e) => r == Result::<(), ServerError>::Err(e) && final(msg)@ == old(msg)@,
        },
{
    if v.len() < 2 {
        return Err(ServerError::ReadHeaderError);
    }
    proof {
        assert(v.deep_view()[0] == v@[0]@);
        assert(v.deep_view()[1] == v@[1]@);
    }
    let meth = match Method::from_str(v[0].as_str()) {
        Ok(x) => x,
        Err(_) => {
            return Err(ServerError::ReadHeaderError);
        },
    };
    msg.method = meth;
    if v.len() < 3 {
        msg.version = v[1].clone();
    } else {
        proof {
            assert(v.deep_view()[2] == v@[2]@);
        }
        msg.path = v[1].clone();
        msg.version = v[2].clone();
    }
    Ok(())
}

/// Read one header line into `msg`.
pub fn read_header(msg: &mut Request, line: &str) -> (r: Result<(), ServerError>)
    requires
        spec_header_wf(old(msg)@.headers),
    ensures
        spec_header_wf(final(msg)@.headers),
        match spec_read_header(old(msg)@, line@) {
            Ok(m) => r is Ok && final(msg)@ == m,
            Err(e) => r == Result::<(), ServerError>::Err(e) && final(msg)@ == old(msg)@,
        },
{
    let parts = split_at_first(line, ':');
    match parts {
        None => Err(ServerError::ReadHeaderError),
        Some((name, raw)) => {
            if eq_uncased(name.as_str(), HttpHeader::ContentLength.as_str()) {
                let t = trim(raw.as_str());
                msg.content_length = parse_u64(t.as_str());
                Ok(())
            } else if eq_uncased(name.as_str(), HttpHeader::ContentType.as_str()) {
                let t = trim_start(raw.as_str());
                match ContentType::from_str(t.as_str()) {
                    Ok(ct) => {
                        msg.content_type = ct;
                        Ok(())
                    },
                    Err(_) => Ok(()),
                }
            } else {
                let value = trim_start(raw.as_str());
                proof {
                    lemma_header_insert_wf(msg@.headers, name@, value@);
                }
                msg.headers.insert(name, value);
                Ok(())
            }
        },
    }
}

/// Read the body bytes into `msg` according to its content type.  The
/// caller hands at most `content_length` bytes: fewer when the stream
/// ended early, which is tolerated.
pub fn read_body(msg: &mut Request, data: &[u8]) -> (r: Result<(), ServerError>)
    requires
        data@.len() <= old(msg)@.content_length,
    ensures
        r is Ok,
        final(msg)@ == spec_read_body(old(msg)@, data@),
{
    if msg.content_type.is_textual() {
        msg.body = Some(RequestBody::StringBody(utf8_lossy_string(data)));
    } else {
        msg.body = Some(RequestBody::BytesBody(slice_to_vec(data)));
    }
    Ok(())
}

impl Request {
    /// A fresh request, ready for the parser.
    pub fn new() -> (r: Request)
        ensures
            r@ == spec_new_request(),
            spec_header_wf(r@.headers),
    {
        Request {
            method: Method::Other,
            path: "/".to_owned(),
            version: "HTTP/1.1".to_owned(),
            headers: Header::new(),
            body: None,
            state: RequestState::FirstLine,
            content_length: 0,
            content_type: ContentType::TextPlain,
        }
    }

    /// Feed the parser one terminator-stripped line and learn the state it
    /// is in afterwards; in the `Body` state lines are ignored.
    pub fn parse_line(&mut self, line: &str) -> (r: Result<RequestState, ServerError>)
        requires
            spec_header_wf(old(self)@.headers),
        ensures
            spec_header_wf(final(self)@.headers),
            match spec_parse_step(old(self)@, line@) {
                Ok(m) => r == Result::<RequestState, ServerError>::Ok(m.state) && final(self)@
                    == m,
                Err(e) => r == Result::<RequestState, ServerError>::Err(e) && final(self)@ == old(
                    self,
                )@,
            },
    {
        match self.state {
            RequestState::FirstLine => {
                let toks = split_str(line, ' ');
                match read_first_line(self, &toks) {
                    Ok(_) => {},
                    Err(e) => {
                        return Err(e);
                    },
                }
                self.state = RequestState::Header;
                Ok(RequestState::Header)
            },
            RequestState::Header => {
                if line.is_empty() {
                    self.state = RequestState::Body;
                    Ok(RequestState::Body)
                } else {
                    match read_header(self, line) {
                        Ok(_) => Ok(RequestState::Header),
                        Err(e) => Err(e),
                    }
                }
            },
            RequestState::Body => Ok(RequestState::Body),
        }
    }
}

/// How many bytes the first line of `b` holds: the index of the first
/// CR LF pair, or the whole length when none occurs.
pub open spec fn spec_line_end(b: Seq<u8>) -> int
    decreases b.len(),
{
    if b.len() == 0 {
        0
    } else if b.len() >= 2 && b[0] == 13 && b[1] == 10 {
        0
    } else {
        1 + spec_line_end(b.drop_first())
    }
}

pub proof fn lemma_line_end_bounds(b: Seq<u8>)
    ensures
        0 <= spec_line_end(b) <= b.len(),
    decreases b.len(),
{
    if b.len() > 0 && !(b.len() >= 2 && b[0] == 13 && b[1] == 10) {
        lemma_line_end_bounds(b.drop_first());
    }
}

/// Run the head of the parser over a byte buffer, one CR-LF-terminated
/// line at a time (a trailing line without terminator counts, and a head
/// that ends before its blank line simply stops), handing back the state
/// reached and the bytes that follow the head.
pub open spec fn spec_parse_head(m: RequestModel, input: Seq<u8>) -> Result<
    (RequestModel, Seq<u8>),
    ServerError,
>
    decreases input.len(),
    via spec_parse_head_dec
{
    if m.state is Body || input.len() == 0 {
        Ok((m, input))
    } else {
        let e = spec_line_end(input);
        let line = input.subrange(0, e);
        let rest = if e + 2 <= input.len() {
            input.subrange(e + 2, input.len() as int)
        } else {
            Seq::<u8>::empty()
        };
        match spec_parse_step(m, utf8_lossy(line)) {
            Err(err) => Err(err),
            Ok(m2) => spec_parse_head(m2, rest),
        }
    }
}

#[via_fn]
proof fn spec_parse_head_dec(m: RequestModel, input: Seq<u8>) {
    lemma_line_end_bounds(input);
}

/// Parse a whole buffered request: the head line by line, then exactly
/// `content_length` body bytes, or as many as remain.
pub open spec fn spec_parse_request(input: Seq<u8>) -> Result<RequestModel, ServerError> {
    match spec_parse_head(spec_new_request(), input) {
        Err(e) => Err(e),
        Ok((m, rest)) => {
            let take = if m.content_length <= rest.len() {
                m.content_length as int
            } else {
                rest.len() as int
            };
            Ok(spec_read_body(m, rest.subrange(0, take)))
        },
    }
}

impl Request {
    /// Parse one buffered request from raw connection bytes.  A hard
    /// failure of the head aborts at once with its error; a short body is
    /// tolerated.
    pub fn parse(&mut self, input: &[u8]) -> (r: Result<(), ServerError>)
        requires
            old(self)@ == spec_new_request(),
        ensures
            match spec_parse_request(input@) {
                Ok(m) => r is Ok && final(self)@ == m,
                Err(e) => r == Result::<(), ServerError>::Err(e),
            },
    {
        let n = input.len();
        let mut pos: usize = 0;
        proof {
            assert(input@.subrange(0, n as int) =~= input@);
        }
        loop
            invariant
                n == input@.len(),
                0 <= pos <= n,
                spec_header_wf(self@.headers),
                spec_parse_head(spec_new_request(), input@) == spec_parse_head(
                    self@,
                    input@.subrange(pos as int, n as int),
                ),
            ensures
                0 <= pos <= n,
                spec_header_wf(self@.headers),
                spec_parse_head(spec_new_request(), input@) == Result::<
                    (RequestModel, Seq<u8>),
                    ServerError,
                >::Ok((self@, input@.subrange(pos as int, n as int))),
            decreases n - pos,
        {
            if self.state == RequestState::Body {
                break;
            }
            if pos == n {
                proof {
                    assert(input@.subrange(pos as int, n as int).len() == 0);
                }
                break;
            }
            let ghost rem = input@.subrange(pos as int, n as int);
            let mut k: usize = pos;
            loop
                invariant
                    n == input@.len(),
                    pos <= k <= n,
                    rem == input@.subrange(pos as int, n as int),
                    spec_line_end(rem) == k - pos + spec_line_end(
                        input@.subrange(k as int, n as int),
                    ),
                ensures
                    pos <= k <= n,
                    spec_line_end(rem) == k - pos,
                    k < n ==> k + 2 <= n && input@[k as int] == 13 && input@[k + 1] == 10,
                decreases n - k,
            {
                if k == n {
                    proof {
                        assert(input@.subrange(k as int, n as int).len() == 0);
                    }
                    break;
                }
                let is_cr = input[k] == 13;
                if is_cr && k + 1 < n {
                    if input[k + 1] == 10 {
                        proof {
                            let sub = input@.subrange(k as int, n as int);
                            assert(sub.len() >= 2 && sub[0] == 13 && sub[1] == 10);
                            assert(spec_line_end(sub) == 0);
                        }
                        break;
                    }
                }
                proof {
                    let sub = input@.subrange(k as int, n as int);
                    assert(sub.len() > 0);
                    assert(!(sub.len() >= 2 && sub[0] == 13 && sub[1] == 10));
                    assert(sub.drop_first() =~= input@.subrange(k + 1, n as int));
                }
                k += 1;
            }
            let line_slice = slice_subrange(input, pos, k);
            let next_pos: usize = if k < n {
                k + 2
            } else {
                n
            };
            proof {
                let e = spec_line_end(rem);
                assert(rem.subrange(0, e) =~= input@.subrange(pos as int, k as int));
                if k < n {
                    assert(e + 2 <= rem.len());
                    assert(rem.subrange(e + 2, rem.len() as int) =~= input@.subrange(
                        next_pos as int,
                        n as int,
                    ));
                } else {
                    assert(e == rem.len());
                    assert(!(e + 2 <= rem.len()));
                    assert(input@.subrange(next_pos as int, n as int) =~= Seq::<u8>::empty());
                }
            }
            let line_str = utf8_lossy_string(line_slice);
            match self.parse_line(line_str.as_str()) {
                Err(e) => {
                    return Err(e);
                },
                Ok(_) => {},
            }
            pos = next_pos;
        }
        let rest_len = n - pos;
        let cl = self.content_length;
        let take_n: usize = if cl < rest_len as u64 {
            cl as usize
        } else {
            rest_len
        };
        let data = slice_subrange(input, pos, pos + take_n);
        let ghost rest = input@.subrange(pos as int, n as int);
        proof {
            assert(data@ =~= rest.subrange(0, take_n as int));
        }
        match read_body(self, data) {
            Ok(_) => Ok(()),
            Err(e) => Err(e),
        }
    }
}

/// The mathematical shape of a response.
pub struct ResponseModel {
    pub version: Seq<char>,
    pub status_code: StatusCode,
    pub headers: Seq<(Seq<char>, Seq<char>)>,
    pub body: Option<BodyModel>,
    pub content_length: u64,
    pub content_type: ContentType,
}

/// The outbound response being built; serialized to wire bytes once at
/// send time.
#[derive(Clone, Debug)]
pub struct Response {
    pub version: String,
    pub status_code: StatusCode,
    pub headers: Header,
    pub body: Option<ResponseBody>,
    pub content_length: u64,
    pub content_type: ContentType,
}

impl View for Response {
    type V = ResponseModel;

    open spec fn view(&self) -> ResponseModel {
        ResponseModel {
            version: self.version@,
            status_code: self.status_code,
            headers: self.headers@,
            body: match self.body {
                Some(b) => Some(b@),
                None => None,
            },
            content_length: self.content_length,
            content_type: self.content_type,
        }
    }
}

/// A fresh response: HTTP/1.1, status 200, no headers, no body.
pub open spec fn spec_new_response() -> ResponseModel {
    ResponseModel {
        version: "HTTP/1.1"@,
        status_code: StatusCode::Okay,
        headers: Seq::empty(),
        body: None,
        content_length: 0,
        content_type: ContentType::TextPlain,
    }
}

/// The wire bytes of one header line: `name: value` and CR LF.
pub open spec fn spec_header_line_bytes(p: (Seq<char>, Seq<char>)) -> Seq<u8> {
    encode_utf8(p.0) + encode_utf8(": "@) + encode_utf8(p.1) + encode_utf8("\r\n"@)
}

/// The wire bytes of a header block, in insertion order.
pub open spec fn spec_headers_bytes(hs: Seq<(Seq<char>, Seq<char>)>) -> Seq<u8>
    decreases hs.len(),
{
    if hs.len() == 0 {
        Seq::empty()
    } else {
        spec_headers_bytes(hs.drop_last()) + spec_header_line_bytes(hs.last())
    }
}

/// The wire bytes of the status line: version, numeric code, reason
/// phrase, CR LF.
pub open spec fn spec_status_line_bytes(m: ResponseModel) -> Seq<u8> {
    encode_utf8(m.version) + encode_utf8(" "@) + encode_utf8(spec_status_num_str(m.status_code))
        + encode_utf8(" "@) + encode_utf8(spec_status_name(m.status_code)) + encode_utf8("\r\n"@)
}

/// The wire bytes of a body: text encoded as UTF-8, raw bytes unchanged,
/// nothing when absent.
pub open spec fn spec_body_bytes(b: Option<BodyModel>) -> Seq<u8> {
    match b {
        None => Seq::empty(),
        Some(BodyModel::Text(t)) => encode_utf8(t),
        Some(BodyModel::Bytes(bs)) => bs,
    }
}

/// The whole wire form of a response: status line, header block, the
/// blank separator line, then the body bytes.
pub open spec fn spec_format(m: ResponseModel) -> Seq<u8> {
    spec_status_line_bytes(m) + spec_headers_bytes(m.headers) + encode_utf8("\r\n"@)
        + spec_body_bytes(m.body)
}

impl Response {
    /// A fresh response with the defaults of the wire grammar.
    pub fn new() -> (r: Response)
        ensures
            r@ == spec_new_response(),
            spec_header_wf(r@.headers),
    {
        Response {
            version: "HTTP/1.1".to_owned(),
            status_code: StatusCode::Okay,
            headers: Header::new(),
            body: None,
            content_length: 0,
            content_type: ContentType::TextPlain,
        }
    }

    /// Serialize the response to its wire bytes.
    #[verifier::rlimit(50)]
    pub fn format(&self) -> (r: Vec<u8>)
        ensures
            r@ == spec_format(self@),
    {
        let mut out: Vec<u8> = Vec::new();
        out.extend_from_slice(self.version.as_str().as_bytes());
        out.extend_from_slice(" ".as_bytes());
        out.extend_from_slice(self.status_code.as_num_str().as_bytes());
        out.extend_from_slice(" ".as_bytes());
        out.extend_from_slice(self.status_code.as_str().as_bytes());
        out.extend_from_slice("\r\n".as_bytes());
        proof {
            assert(out@ =~= spec_status_line_bytes(self@));
        }
        let hn = self.headers.len();
        let mut i: usize = 0;
        while i < hn
            invariant
                hn == self@.headers.len(),
                0 <= i <= hn,
                out@ == spec_status_line_bytes(self@) + spec_headers_bytes(
                    self@.headers.take(i as int),
                ),
            decreases hn - i,
        {
            let p = self.headers.entry(i);
            out.extend_from_slice(p.0.as_str().as_bytes());
            out.extend_from_slice(": ".as_bytes());
            out.extend_from_slice(p.1.as_str().as_bytes());
            out.extend_from_slice("\r\n".as_bytes());
            proof {
                let hs = self@.headers;
                assert(hs.take(i + 1).drop_last() =~= hs.take(i as int));
                assert(hs.take(i + 1).last() == hs[i as int]);
                assert(out@ =~= spec_status_line_bytes(self@) + spec_headers_bytes(
                    hs.take(i + 1),
                ));
            }
            i += 1;
        }
        proof {
            assert(self@.headers.take(hn as int) =~= self@.headers);
        }
        out.extend_from_slice("\r\n".as_bytes());
        match &self.body {
            None => {},
            Some(ResponseBody::StringBody(s)) => {
                out.extend_from_slice(s.as_str().as_bytes());
            },
            Some(ResponseBody::BytesBody(b)) => {
                out.extend_from_slice(b.as_slice());
            },
        }
        proof {
            assert(out@ =~= spec_format(self@));
        }
        out
    }
}

/// The mutation contract a handler sees: set the body, the header block
/// and the status of the response being built, and send it once.
pub trait ResponseWriter {
    /// The response being built.
    spec fn response(&self) -> ResponseModel;

    /// The wire bytes recorded by `send`, once it has run.
    spec fn sent(&self) -> Option<Seq<u8>>;

    /// Replace the body of the response.
    fn write(&mut self, data: ResponseBody)
        ensures
            final(self).response() == (ResponseModel {
                body: Some(data@),
                ..old(self).response()
            }),
            final(self).sent() == old(self).sent(),
    ;

    /// Replace the header block of the response.
    fn header(&mut self, headers: Header)
        ensures
            final(self).response() == (ResponseModel { headers: headers@, ..old(self).response() }),
            final(self).sent() == old(self).sent(),
    ;

    /// Set the status from a numeric code; an unrecognised code falls back
    /// to 200.
    fn write_header(&mut self, code: usize)
        ensures
            final(self).response() == (ResponseModel {
                status_code: match spec_status_from_num(code) {
                    Ok(c) => c,
                    Err(_) => StatusCode::Okay,
                },
                ..old(self).response()
            }),
            final(self).sent() == old(self).sent(),
    ;

    /// Serialize the response and record its wire bytes, exactly once.
    fn send(&mut self)
        requires
            old(self).sent() is None,
        ensures
            final(self).sent() == Some(spec_format(old(self).response())),
            final(self).response() == old(self).response(),
    ;
}

/// One request/response exchange: the parsed request, the response being
/// built, and, after `send`, the wire bytes the connection layer writes
/// back.
pub struct Message {
    pub req: Request,
    pub res: Response,
    /// The wire bytes recorded by `send`; the connection layer writes them
    /// to its socket and nothing else touches them.
    pub wire: Option<Vec<u8>>,
}

impl Message {
    /// A fresh exchange: empty request, default response, nothing sent.
    pub fn new() -> (r: Message)
        ensures
            r.req@ == spec_new_request(),
            spec_header_wf(r.req@.headers),
            r.res@ == spec_new_response(),
            spec_header_wf(r.res@.headers),
            r.sent() is None,
    {
        Message { req: Request::new(), res: Response::new(), wire: None }
    }

    /// The wire bytes recorded by `send`, for the connection layer to
    /// write to its socket.
    pub fn sent_bytes(&self) -> (r: &Option<Vec<u8>>)
        ensures
            match r {
                Some(w) => self.sent() == Some(w@),
                None => self.sent() is None,
            },
    {
        &self.wire
    }
}

impl ResponseWriter for Message {
    open spec fn response(&self) -> ResponseModel {
        self.res@
    }

    open spec fn sent(&self) -> Option<Seq<u8>> {
        match self.wire {
            Some(w) => Some(w@),
            None => None,
        }
    }

    fn write(&mut self, data: ResponseBody) {
        self.res.body = Some(data);
    }

    fn header(&mut self, headers: Header) {
        self.res.headers = headers;
    }

    fn write_header(&mut self, code: usize) {
        self.res.status_code = match StatusCode::from_num(code) {
            Ok(c) => c,
            Err(_) => StatusCode::Okay,
        };
    }

    fn send(&mut self) {
        self.wire = Some(self.res.format());
    }
}

/// Law: a request line of three space-free tokens whose first names a
/// known method parses into exactly that method, path and version, and
/// moves the parser to the header section.
pub proof fn lemma_parse_first_line(
    m: RequestModel,
    meth: Seq<char>,
    path: Seq<char>,
    version: Seq<char>,
    found: Method,
)
    requires
        m.state is FirstLine,
        !meth.contains(' '),
        !path.contains(' '),
        !version.contains(' '),
        spec_method_from_str(meth) == Result::<Method, ()>::Ok(found),
    ensures
        spec_parse_step(m, meth + seq![' '] + path + seq![' '] + version) == Result::<
            RequestModel,
            ServerError,
        >::Ok(
            RequestModel {
                method: found,
                path: path,
                version: version,
                state: RequestState::Header,
                ..m
            },
        ),
{
    let line = meth + seq![' '] + path + seq![' '] + version;
    let tail = path + seq![' '] + version;
    assert(line =~= meth + seq![' '] + tail);
    crate::text::lemma_split_at_sep(meth, tail, ' ');
    crate::text::lemma_split_at_sep(path, version, ' ');
    crate::text::lemma_split_no_sep(version, ' ');
    let toks = spec_split(line, ' ');
    assert(toks =~~= seq![meth, path, version]);
    assert(toks.len() == 3);
    assert(toks[0] == meth && toks[1] == path && toks[2] == version);
}

/// Law: a request line whose first space-split token is no known method
/// fails with the header-parse error, whatever the rest of the line holds
/// (a line with no second token fails with the same error).
pub proof fn lemma_unknown_method_fails(m: RequestModel, line: Seq<char>)
    requires
        m.state is FirstLine,
        spec_method_from_str(spec_split(line, ' ')[0]) is Err,
    ensures
        spec_parse_step(m, line) == Result::<RequestModel, ServerError>::Err(
            ServerError::ReadHeaderError,
        ),
{
    crate::text::lemma_split_len(line, ' ');
}

/// Law: the header-line grammar round-trips.  Formatting a header pair as
/// its wire line `name: value` and parsing that line back recovers exactly
/// the same pair, provided the name holds no colon and is not one of the
/// two reserved names, and the value starts with no space or tab.
pub proof fn lemma_header_line_round_trip(m: RequestModel, name: Seq<char>, value: Seq<char>)
    requires
        !name.contains(':'),
        spec_trim_start(value) == value,
        fold_case(name) != fold_case(
            crate::header::spec_http_header_name(HttpHeader::ContentLength),
        ),
        fold_case(name) != fold_case(crate::header::spec_http_header_name(HttpHeader::ContentType)),
    ensures
        spec_read_header(m, name + ": "@ + value) == Result::<RequestModel, ServerError>::Ok(
            RequestModel { headers: spec_header_insert(m.headers, name, value), ..m },
        ),
{
    reveal_strlit(": ");
    assert(": "@ =~= seq![':', ' ']);
    let line = name + ": "@ + value;
    assert(line.len() == name.len() + 2 + value.len());
    assert(line[name.len() as int] == ':');
    line.index_of_first_ensures(':');
    assert(line.contains(':')) by {
        assert(line[name.len() as int] == ':');
    }
    let k = line.index_of_first(':')->Some_0;
    if k < name.len() {
        assert(line[k] == name[k]);
        assert(name.contains(':')) by {
            assert(name[k] == ':');
        }
    }
    if k > name.len() {
        assert(line[name.len() as int] != ':');
    }
    assert(k == name.len());
    let before = line.subrange(0, k);
    let after = line.subrange(k + 1, line.len() as int);
    assert(before =~= name);
    assert(after =~= seq![' '] + value);
    assert(spec_split_at_first(line, ':') == Some((name, after)));
    assert(after.drop_first() =~= value);
    assert(spec_trim_start(after) == value);
}

/// Appending character sequences appends their UTF-8 encodings.
pub proof fn lemma_encode_utf8_concat(a: Seq<char>, b: Seq<char>)
    ensures
        encode_utf8(a + b) == encode_utf8(a) + encode_utf8(b),
    decreases a.len(),
{
    if a.len() == 0 {
        assert(a + b =~= b);
        assert(encode_utf8(a + b) =~= encode_utf8(a) + encode_utf8(b));
    } else {
        assert((a + b).drop_first() =~= a.drop_first() + b);
        lemma_encode_utf8_concat(a.drop_first(), b);
        assert((a + b)[0] == a[0]);
        assert(encode_utf8(a + b) =~= encode_utf8(a) + encode_utf8(b));
    }
}

/// The wire form of one header entry is exactly the UTF-8 encoding of the
/// grammar line `name: value` with its terminator: what
/// `lemma_header_line_round_trip` parses back.
pub proof fn lemma_header_line_bytes(p: (Seq<char>, Seq<char>))
    ensures
        spec_header_line_bytes(p) == encode_utf8(p.0 + ": "@ + p.1 + "\r\n"@),
{
    lemma_encode_utf8_concat(p.0, ": "@);
    lemma_encode_utf8_concat(p.0 + ": "@, p.1);
    lemma_encode_utf8_concat(p.0 + ": "@ + p.1, "\r\n"@);
    assert(spec_header_line_bytes(p) =~= encode_utf8(p.0 + ": "@ + p.1 + "\r\n"@));
}

} // verus!
