use fusion_core::request::{parse_query, Request};
use fusion_core::response::Response;
use fusion_core::router::{match_segments, param_name, parse_pattern, split_path, Router, Segment, SyncHandler};
use fusion_core::server::{incoming_request, outgoing_response, status_color, ListenOptions, StatusColor};

#[test]
fn parses_simple_query() {
    let q = parse_query("id=12&name=hello");
    assert_eq!(q.get("id").map(String::as_str), Some("12"));
    assert_eq!(q.get("name").map(String::as_str), Some("hello"));
}

#[test]
fn keeps_first_duplicate_key() {
    let q = parse_query("id=1&id=2");
    assert_eq!(q.get("id").map(String::as_str), Some("1"));
}

#[test]
fn percent_decodes_values() {
    let q = parse_query("q=hello%20world&plus=a+b");
    assert_eq!(q.get("q").map(String::as_str), Some("hello world"));
    assert_eq!(q.get("plus").map(String::as_str), Some("a b"));
}

#[test]
fn empty_and_flag_keys() {
    let q = parse_query("flag&empty=");
    assert_eq!(q.get("flag").map(String::as_str), Some(""));
    assert_eq!(q.get("empty").map(String::as_str), Some(""));
}

#[test]
fn query_edge_cases() {
    assert_eq!(parse_query("").len(), 0);
    let q = parse_query("&&=x&a=%zz&b=%41%42&c=%4");
    assert_eq!(q.get("").map(String::as_str), None);
    assert_eq!(q.get("a").map(String::as_str), Some("%zz"));
    assert_eq!(q.get("b").map(String::as_str), Some("AB"));
    assert_eq!(q.get("c").map(String::as_str), Some("%4"));
    assert_eq!(q.len(), 3);
}

#[test]
fn matches_mixed_param_styles() {
    let mut router = Router::new();
    router.route(
        "GET",
        "/api/[name]/{id}",
        SyncHandler(|req: Request| {
            let name = req.params.get("name").cloned().unwrap_or_default();
            let id = req.params.get("id").cloned().unwrap_or_default();
            Response::text(200, &format!("{name}:{id}"))
        }),
    );

    let req = Request::new("GET", "/api/alice/42", vec![], vec![]);
    let res = router.dispatch(req);
    assert_eq!(res.status, 200);
    assert_eq!(res.body.as_slice(), b"alice:42");
}

fn echo_path(req: Request) -> Response {
    Response::text(201, &req.path)
}

fn echo_param(req: Request) -> Response {
    Response::text(200, req.params.get("id").map(String::as_str).unwrap_or("-"))
}

#[test]
fn dispatch_runs_first_match_or_answers_not_found() {
    let mut router: Router<SyncHandler<fn(Request) -> Response>> = Router::new();
    router.route("GET", "/items/{id}", SyncHandler(echo_param as fn(Request) -> Response));
    router.route("GET", "/items/new", SyncHandler(echo_path as fn(Request) -> Response));
    router.route("POST", "/items/new", SyncHandler(echo_path as fn(Request) -> Response));

    let res = router.dispatch(Request::new("get", "/items/new", vec![], vec![]));
    assert_eq!(res.status, 200);
    assert_eq!(res.body.as_slice(), b"new");

    let res = router.dispatch(Request::new("POST", "/items/new/", vec![], vec![]));
    assert_eq!(res.status, 201);
    assert_eq!(res.body.as_slice(), b"/items/new/");

    let res = router.dispatch(Request::new("PUT", "/items/new", vec![], vec![]));
    assert_eq!(res.status, 404);
    assert_eq!(res.body.as_slice(), b"Not Found");
}

#[test]
fn lookup_takes_the_first_matching_route() {
    let mut router: Router<u32> = Router::new();
    router.route("get", "/users/{id}", 1);
    router.route("GET", "/users/me", 2);
    router.route("POST", "/users/{id}", 3);
    let (i, params) = router.lookup("GET", "/users/me").unwrap();
    assert_eq!(*router.handler(i), 1);
    assert_eq!(params.get("id").map(String::as_str), Some("me"));
    let (j, _) = router.lookup("post", "users/7/").unwrap();
    assert_eq!(*router.handler(j), 3);
    assert!(router.lookup("GET", "/users").is_none());
    assert!(router.lookup("DELETE", "/users/1").is_none());
    assert_eq!(router.len(), 3);
}

#[test]
fn pattern_parsing() {
    assert_eq!(split_path("//a//b/"), vec!["a".to_string(), "b".to_string()]);
    assert!(split_path("/").is_empty());
    assert_eq!(param_name("{id}"), Some("id".to_string()));
    assert_eq!(param_name("[name]"), Some("name".to_string()));
    assert_eq!(param_name("{}"), None);
    assert_eq!(param_name("{x]"), None);
    let pat = parse_pattern("/a/{b}");
    assert!(matches!(&pat[0], Segment::Static(s) if s == "a"));
    assert!(matches!(&pat[1], Segment::Param(n) if n == "b"));
    let parts = vec!["a".to_string(), "z".to_string()];
    assert_eq!(match_segments(&pat, &parts).unwrap().get("b").map(String::as_str), Some("z"));
    let other = vec!["x".to_string(), "z".to_string()];
    assert!(match_segments(&pat, &other).is_none());
    assert!(match_segments(&pat, &vec!["a".to_string()]).is_none());
}

#[test]
fn incoming_and_outgoing() {
    let r = incoming_request("GET", "/p", Some("a=1"), vec![], vec![]);
    assert_eq!(r.query.get("a").map(String::as_str), Some("1"));
    assert_eq!(incoming_request("GET", "/p", None, vec![], vec![]).query.len(), 0);
    let plain = outgoing_response(Response::ok(vec![]), &ListenOptions::default());
    assert!(plain.headers.is_empty());
    let tagged = outgoing_response(Response::ok(vec![]), &ListenOptions { fingerprint: true });
    assert_eq!(tagged.headers.len(), 3);
    assert_eq!(status_color(204), StatusColor::Green);
    assert_eq!(status_color(302), StatusColor::Yellow);
    assert_eq!(status_color(404), StatusColor::Red);
    assert_eq!(status_color(503), StatusColor::Red);
    assert_eq!(status_color(101), StatusColor::Magenta);
}
