use std::cell::Cell;
use std::rc::Rc;

use rust_server::error::ServerError;
use rust_server::message::{Message, Request, ResponseBody, ResponseWriter};
use rust_server::method::Method;
use rust_server::server::{serve_request, DefaultServeMux, Handler, NotFoundHandler, ServeMux};
use rust_server::status_code::StatusCode;

struct Marker {
    hits: Rc<Cell<usize>>,
    tag: &'static str,
}

impl Handler for Marker {
    fn serve_http(&self, writer: &mut Message, _req: &Request) -> Result<(), ServerError> {
        self.hits.set(self.hits.get() + 1);
        writer.write(ResponseBody::StringBody(self.tag.to_string()));
        writer.write_header(200);
        writer.send();
        Ok(())
    }
}

fn request_for(method: Method, path: &str) -> Request {
    let mut r = Request::new();
    r.method = method;
    r.path = path.to_string();
    r
}

#[test]
fn registered_get_handler_runs_exactly_once() {
    let hits = Rc::new(Cell::new(0));
    let mut m: DefaultServeMux<Marker> = DefaultServeMux::new();
    m.handle(
        Method::Get,
        "/x".to_string(),
        Marker { hits: hits.clone(), tag: "x" },
    );
    let req = request_for(Method::Get, "/x");
    let mut msg = Message::new();
    m.dispatch(&mut msg, &req).unwrap();
    assert_eq!(hits.get(), 1);
    assert_eq!(msg.res.status_code, StatusCode::Okay);
    assert_eq!(msg.res.body, Some(ResponseBody::StringBody("x".to_string())));
    assert!(msg.wire.is_some());
}

#[test]
fn unregistered_path_falls_to_not_found() {
    let hits = Rc::new(Cell::new(0));
    let mut m: DefaultServeMux<Marker> = DefaultServeMux::new();
    m.handle(
        Method::Get,
        "/x".to_string(),
        Marker { hits: hits.clone(), tag: "x" },
    );
    let req = request_for(Method::Get, "/y");
    let mut msg = Message::new();
    m.dispatch(&mut msg, &req).unwrap();
    assert_eq!(hits.get(), 0);
    assert_eq!(msg.res.status_code, StatusCode::NotFound);
}

#[test]
fn delete_always_falls_to_not_found() {
    let hits = Rc::new(Cell::new(0));
    let mut m: DefaultServeMux<Marker> = DefaultServeMux::new();
    m.handle(
        Method::Delete,
        "/x".to_string(),
        Marker { hits: hits.clone(), tag: "x" },
    );
    let req = request_for(Method::Delete, "/x");
    let mut msg = Message::new();
    m.dispatch(&mut msg, &req).unwrap();
    assert_eq!(hits.get(), 0);
    assert_eq!(msg.res.status_code, StatusCode::NotFound);
}

#[test]
fn post_routes_through_its_own_table() {
    let hits = Rc::new(Cell::new(0));
    let mut m: DefaultServeMux<Marker> = DefaultServeMux::new();
    m.handle(
        Method::Post,
        "/p".to_string(),
        Marker { hits: hits.clone(), tag: "p" },
    );
    let mut msg = Message::new();
    m.dispatch(&mut msg, &request_for(Method::Post, "/p")).unwrap();
    assert_eq!(hits.get(), 1);
    let mut msg2 = Message::new();
    m.dispatch(&mut msg2, &request_for(Method::Get, "/p")).unwrap();
    assert_eq!(hits.get(), 1);
    assert_eq!(msg2.res.status_code, StatusCode::NotFound);
}

#[test]
fn reregistration_overwrites_the_binding() {
    let first = Rc::new(Cell::new(0));
    let second = Rc::new(Cell::new(0));
    let mut m: DefaultServeMux<Marker> = DefaultServeMux::new();
    m.handle(
        Method::Get,
        "/x".to_string(),
        Marker { hits: first.clone(), tag: "a" },
    );
    m.handle(
        Method::Get,
        "/x".to_string(),
        Marker { hits: second.clone(), tag: "b" },
    );
    let mut msg = Message::new();
    m.dispatch(&mut msg, &request_for(Method::Get, "/x")).unwrap();
    assert_eq!(first.get(), 0);
    assert_eq!(second.get(), 1);
    assert_eq!(msg.res.body, Some(ResponseBody::StringBody("b".to_string())));
}

#[test]
fn registration_through_the_serve_mux_trait() {
    let hits = Rc::new(Cell::new(0));
    let mut m: DefaultServeMux<Marker> = DefaultServeMux::new();
    ServeMux::handle(
        &mut m,
        Method::Get,
        "/t".to_string(),
        Marker { hits: hits.clone(), tag: "t" },
    );
    let mut msg = Message::new();
    m.dispatch(&mut msg, &request_for(Method::Get, "/t")).unwrap();
    assert_eq!(hits.get(), 1);
}

#[test]
fn not_found_handler_sends_minimal_404() {
    let mut msg = Message::new();
    NotFoundHandler::new().respond(&mut msg).unwrap();
    assert_eq!(msg.res.status_code, StatusCode::NotFound);
    assert_eq!(
        msg.res.body,
        Some(ResponseBody::StringBody("404 Not Found".to_string()))
    );
    let wire = msg.wire.clone().unwrap();
    assert_eq!(wire, b"HTTP/1.1 404 Not Found\r\n\r\n404 Not Found".to_vec());
}

#[test]
fn serve_request_runs_parse_then_dispatch() {
    let hits = Rc::new(Cell::new(0));
    let mut m: DefaultServeMux<Marker> = DefaultServeMux::new();
    m.handle(
        Method::Get,
        "/hello".to_string(),
        Marker { hits: hits.clone(), tag: "hello" },
    );
    let msg = serve_request(&m, b"GET /hello HTTP/1.1\r\n\r\n").unwrap();
    assert_eq!(hits.get(), 1);
    assert_eq!(msg.req.method, Method::Get);
    assert_eq!(msg.req.path, "/hello");
    assert_eq!(
        msg.wire,
        Some(b"HTTP/1.1 200 Ok\r\n\r\nhello".to_vec())
    );
}

#[test]
fn serve_request_propagates_parse_errors_without_dispatch() {
    let hits = Rc::new(Cell::new(0));
    let mut m: DefaultServeMux<Marker> = DefaultServeMux::new();
    m.handle(
        Method::Get,
        "/hello".to_string(),
        Marker { hits: hits.clone(), tag: "hello" },
    );
    let r = serve_request(&m, b"BOGUS /hello HTTP/1.1\r\n\r\n");
    assert!(matches!(r, Err(ServerError::ReadHeaderError)));
    assert_eq!(hits.get(), 0);
}

#[test]
fn serve_request_unrouted_sends_404() {
    let m: DefaultServeMux<Marker> = DefaultServeMux::new();
    let msg = serve_request(&m, b"GET /nowhere HTTP/1.1\r\n\r\n").unwrap();
    assert_eq!(msg.res.status_code, StatusCode::NotFound);
    assert_eq!(
        msg.wire,
        Some(b"HTTP/1.1 404 Not Found\r\n\r\n404 Not Found".to_vec())
    );
}

#[test]
fn writer_status_fallback_is_200() {
    let mut msg = Message::new();
    msg.write_header(999);
    assert_eq!(msg.res.status_code, StatusCode::Okay);
    msg.write_header(302);
    assert_eq!(msg.res.status_code, StatusCode::Found);
}
