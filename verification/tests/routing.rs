use mini_http::handlers::{echo_handler, echo_text, index_handler, user_agent_handler};
use mini_http::http::{MimeType, Request, Response};
use mini_http::router::Router;
use mini_http::server::Server;

type Handler = fn(Request) -> Response;

fn first(_req: Request) -> Response {
    Response::ok().body("first", MimeType::TextPlain)
}

fn second(_req: Request) -> Response {
    Response::ok().body("second", MimeType::TextPlain)
}

fn request(path: &str) -> Request {
    Request { path: path.to_owned(), headers: Vec::new() }
}

fn table() -> Router<Handler> {
    let mut router: Router<Handler> = Router::new();
    router.add_get("/", index_handler);
    router.add_get("/echo/{str}", echo_handler);
    router.add_get("/user-agent", user_agent_handler);
    router
}

fn server() -> Server<Handler> {
    let mut server: Server<Handler> = Server::new(4221);
    server.get("/", index_handler);
    server.get("/echo/{str}", echo_handler);
    server.get("/user-agent", user_agent_handler);
    server
}

#[test]
fn matches_compares_the_first_segment() {
    assert!(Router::<Handler>::matches("/echo/{str}", "/echo/abc"));
    assert!(Router::<Handler>::matches("/user-agent", "/user-agent"));
    assert!(!Router::<Handler>::matches("/user-agent", "/unknown"));
    assert!(!Router::<Handler>::matches("/echo/{str}", "/Echo/abc"));
}

#[test]
fn matches_ignores_what_follows_the_first_segment() {
    assert!(Router::<Handler>::matches("/echo/{str}", "/echo/anything/else"));
    assert!(Router::<Handler>::matches("/echo/{str}", "/echo"));
    assert!(Router::<Handler>::matches("/echo", "/echo/abc"));
    assert!(Router::<Handler>::matches("/a/b/c", "/a/x/y/z"));
}

#[test]
fn matches_the_root_only_with_an_empty_first_segment() {
    assert!(Router::<Handler>::matches("/", "/"));
    assert!(Router::<Handler>::matches("/", "//x"));
    assert!(!Router::<Handler>::matches("/", "/index"));
    assert!(!Router::<Handler>::matches("/index", "/"));
}

#[test]
fn matches_nothing_without_a_first_segment() {
    assert!(!Router::<Handler>::matches("", ""));
    assert!(!Router::<Handler>::matches("", "/"));
    assert!(!Router::<Handler>::matches("/", ""));
    assert!(!Router::<Handler>::matches("echo", "echo"));
    assert!(!Router::<Handler>::matches("/echo", "echo"));
    assert!(!Router::<Handler>::matches("echo", "/echo"));
}

#[test]
fn matches_does_not_split_the_query_off() {
    assert!(!Router::<Handler>::matches("/echo", "/echo?x=1"));
}

#[test]
fn get_matching_route_finds_the_route_of_the_first_segment() {
    let router = table();
    assert_eq!(router.get_matching_route("/").map(|r| r.pattern.as_str()), Some("/"));
    assert_eq!(router.get_matching_route("/echo/abc").map(|r| r.pattern.as_str()), Some("/echo/{str}"));
    assert_eq!(router.get_matching_route("/user-agent").map(|r| r.pattern.as_str()), Some("/user-agent"));
}

#[test]
fn get_matching_route_finds_nothing_for_an_unknown_segment() {
    let router = table();
    assert!(router.get_matching_route("/unknown").is_none());
    assert!(router.get_matching_route("").is_none());
    assert!(router.get_matching_route("echo/abc").is_none());
}

#[test]
fn get_matching_route_on_an_empty_table() {
    let router: Router<Handler> = Router::new();
    assert!(router.get_matching_route("/").is_none());
}

#[test]
fn get_matching_route_gives_the_earlier_of_two_matching_routes() {
    let mut router: Router<Handler> = Router::new();
    router.add_get("/other", index_handler);
    router.add_get("/files/{name}", first);
    router.add_get("/files/{name}/raw", second);
    let route = router.get_matching_route("/files/report/raw").expect("a route");
    assert_eq!(route.pattern, "/files/{name}");
    assert_eq!((route.handler)(request("/files/report/raw")).to_string(), first(request("/")).to_string());
}

#[test]
fn a_later_route_is_reached_where_no_earlier_one_matches() {
    let mut router: Router<Handler> = Router::new();
    router.add_get("/a", first);
    router.add_get("/b", second);
    router.add_get("/a", second);
    assert_eq!(router.get_matching_route("/b").map(|r| r.pattern.as_str()), Some("/b"));
    assert_eq!(
        router.dispatch(request("/a")).to_string(),
        "HTTP/1.1 200 OK\r\nContent-Type: text/plain\r\nContent-Length: 5\r\n\r\nfirst"
    );
}

#[test]
fn dispatch_answers_not_found_where_no_route_matches() {
    assert_eq!(table().dispatch(request("/unknown")).to_string(), "HTTP/1.1 404 Not Found\r\n\r\n");
    let empty: Router<Handler> = Router::new();
    assert_eq!(empty.dispatch(request("/")).to_string(), "HTTP/1.1 404 Not Found\r\n\r\n");
}

#[test]
fn dispatch_hands_the_request_to_the_handler() {
    assert_eq!(
        table().dispatch(request("/echo/hello")).to_string(),
        "HTTP/1.1 200 OK\r\nContent-Type: text/plain\r\nContent-Length: 5\r\n\r\nhello"
    );
}

#[test]
fn echo_text_is_the_segment_after_the_first() {
    assert_eq!(echo_text("/echo/abc"), Some("abc".to_owned()));
    assert_eq!(echo_text("/echo/abc/def"), Some("abc".to_owned()));
    assert_eq!(echo_text("/echo/"), Some("".to_owned()));
    assert_eq!(echo_text("/echo"), None);
    assert_eq!(echo_text("/"), None);
    assert_eq!(echo_text(""), None);
}

#[test]
fn index_handler_answers_ok_whatever_the_request() {
    assert_eq!(index_handler(request("/")).to_string(), "HTTP/1.1 200 OK\r\n\r\n");
    assert_eq!(index_handler(request("/anything")).to_string(), "HTTP/1.1 200 OK\r\n\r\n");
}

#[test]
fn user_agent_handler_echoes_the_first_user_agent() {
    let req = Request::parse("GET /user-agent HTTP/1.1\r\nUser-Agent: one\r\nUser-Agent: two\r\n\r\n");
    assert_eq!(
        user_agent_handler(req).to_string(),
        "HTTP/1.1 200 OK\r\nContent-Type: text/plain\r\nContent-Length: 3\r\n\r\none"
    );
}

#[test]
fn server_keeps_its_port() {
    assert_eq!(server().port(), 4221);
    let other: Server<Handler> = Server::new(8080);
    assert_eq!(other.port(), 8080);
}

#[test]
fn index_request_gets_ok_without_headers_or_body() {
    let raw = "GET / HTTP/1.1\r\nUser-Agent: test-client/1.0\r\n\r\n";
    assert_eq!(server().respond(raw), Some("HTTP/1.1 200 OK\r\n\r\n".to_owned()));
}

#[test]
fn echo_request_gets_the_segment_back_as_plain_text() {
    let raw = "GET /echo/abc HTTP/1.1\r\n\r\n";
    assert_eq!(
        server().respond(raw),
        Some("HTTP/1.1 200 OK\r\nContent-Type: text/plain\r\nContent-Length: 3\r\n\r\nabc".to_owned())
    );
}

#[test]
fn user_agent_request_gets_the_header_value_back() {
    let raw = "GET /user-agent HTTP/1.1\r\nHost: localhost:4221\r\nUser-Agent: test-client/1.0\r\n\r\n";
    assert_eq!(
        server().respond(raw),
        Some(
            "HTTP/1.1 200 OK\r\nContent-Type: text/plain\r\nContent-Length: 15\r\n\r\ntest-client/1.0"
                .to_owned()
        )
    );
}

#[test]
fn unknown_path_gets_not_found_without_headers_or_body() {
    let raw = "GET /unknown HTTP/1.1\r\nHost: localhost:4221\r\n\r\n";
    assert_eq!(server().respond(raw), Some("HTTP/1.1 404 Not Found\r\n\r\n".to_owned()));
}

#[test]
fn earlier_registered_route_wins_over_a_later_match() {
    let mut server: Server<Handler> = Server::new(4221);
    server.get("/shared/one", first);
    server.get("/shared/two", second);
    let expected =
        Some("HTTP/1.1 200 OK\r\nContent-Type: text/plain\r\nContent-Length: 5\r\n\r\nfirst".to_owned());
    assert_eq!(server.respond("GET /shared/two HTTP/1.1\r\n\r\n"), expected);
    assert_eq!(server.respond("GET /shared HTTP/1.1\r\n\r\n"), expected);
}

#[test]
fn respond_writes_nothing_for_a_malformed_request() {
    assert_eq!(server().respond("GET"), None);
    assert_eq!(server().respond(""), None);
    assert_eq!(server().respond("GET / HTTP/1.1\r\nno separator\r\n\r\n"), None);
}

#[test]
fn respond_serves_a_truncated_request_that_is_still_well_formed() {
    assert_eq!(
        server().respond("GET /echo/cut HTTP/1.1\r\nHost: localhost:4221"),
        Some("HTTP/1.1 200 OK\r\nContent-Type: text/plain\r\nContent-Length: 3\r\n\r\ncut".to_owned())
    );
}

#[test]
fn respond_on_a_server_without_routes() {
    let server: Server<Handler> = Server::new(1);
    assert_eq!(server.respond("GET / HTTP/1.1\r\n\r\n"), Some("HTTP/1.1 404 Not Found\r\n\r\n".to_owned()));
}

#[test]
fn respond_routes_a_request_line_with_more_than_one_space() {
    assert_eq!(
        server().respond("GET  /echo/abc HTTP/1.1\r\n\r\n"),
        Some("HTTP/1.1 200 OK\r\nContent-Type: text/plain\r\nContent-Length: 3\r\n\r\nabc".to_owned())
    );
    assert_eq!(
        server().respond("GET\t/ HTTP/1.1\r\n\r\n"),
        Some("HTTP/1.1 200 OK\r\n\r\n".to_owned())
    );
}
