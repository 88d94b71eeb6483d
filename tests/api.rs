use writium::api::{preroute_by_name, Api, ApiName, RouteHint};
use writium::namespace::Namespace;
use writium::request::{Method, Request};
use writium::writium::Writium;
use writium::response::{ApiResult, Response, STATUS_LOOP_DETECTED, STATUS_METHOD_NOT_ALLOWED, STATUS_NOT_FOUND, STATUS_OK};

struct TestApi;

impl TestApi {
    fn new() -> TestApi {
        TestApi {}
    }
}

fn res(answer: &str) -> ApiResult {
    Ok(Response::new(STATUS_OK).with_body(answer.to_string()))
}

fn path(segs: &[&str]) -> Vec<String> {
    segs.iter().map(|s| s.to_string()).collect()
}

fn req(method: Method) -> Request {
    Request::construct(method, path(&["foo", "bar"]))
}

fn bad_req() -> Request {
    Request::construct(Method::Get, path(&["foo", "not_so_bar"]))
}

impl Api for TestApi {
    fn name(&self) -> ApiName {
        &["foo", "bar"]
    }
    fn delete(&self, _req: Request) -> ApiResult {
        res("delete")
    }
    fn get(&self, _req: Request) -> ApiResult {
        res("get")
    }
    fn post(&self, _req: Request) -> ApiResult {
        res("post")
    }
    fn patch(&self, _req: Request) -> ApiResult {
        res("patch")
    }
    fn put(&self, _req: Request) -> ApiResult {
        res("put")
    }
}

#[test]
fn test_preroute() {
    let api = TestApi::new();
    assert_eq!(
        format!("{:?}", api.preroute(req(Method::Get))),
        format!("{:?}", RouteHint::CallMe(Request::construct(Method::Get, Vec::new())))
    );
    assert_eq!(format!("{:?}", api.preroute(bad_req())), format!("{:?}", RouteHint::NotMe(bad_req())));
}

#[test]
fn test_route() {
    fn ast(api: &TestApi, req: Request, txt: &str) {
        let left = api.route(req);
        let right = res(txt);
        assert_eq!(format!("{:?}", left), format!("{:?}", right));
    }
    let api = TestApi::new();
    ast(&api, req(Method::Delete), "delete");
    ast(&api, req(Method::Get), "get");
    ast(&api, req(Method::Post), "post");
    ast(&api, req(Method::Patch), "patch");
    ast(&api, req(Method::Put), "put");
}

#[test]
fn test_postroute() {
    let api = TestApi::new();
    assert_eq!(format!("{:?}", api.postroute(res(""))), format!("{:?}", res("")));
}

/// A handler that answers GET with its own label.
struct Named {
    name: ApiName,
    label: &'static str,
}

impl Api for Named {
    fn name(&self) -> ApiName {
        self.name
    }
    fn get(&self, req: Request) -> ApiResult {
        let rest = req.path_segs().join("/");
        res(&format!("{}:{}", self.label, rest))
    }
}

fn status_of(r: &ApiResult) -> u16 {
    match r {
        Ok(res) => res.status(),
        Err(e) => e.status(),
    }
}

#[test]
fn single_segment_claims_first_segment() {
    let api = Named { name: &["n"], label: "n" };
    match api.preroute(Request::construct(Method::Get, path(&["n", "x", "y"]))) {
        RouteHint::CallMe(r) => assert_eq!(r.path_segs().to_vec(), path(&["x", "y"])),
        RouteHint::NotMe(_) => panic!("expected the request to be claimed"),
    }
    match api.preroute(Request::construct(Method::Get, path(&["m", "n"]))) {
        RouteHint::NotMe(r) => assert_eq!(r.path_segs().to_vec(), path(&["m", "n"])),
        RouteHint::CallMe(_) => panic!("expected the request to be refused"),
    }
    match api.preroute(Request::construct(Method::Get, Vec::new())) {
        RouteHint::NotMe(r) => assert!(r.path_segs().is_empty()),
        RouteHint::CallMe(_) => panic!("expected the request to be refused"),
    }
}

#[test]
fn partial_match_restores_whole_path() {
    let api = Named { name: &["n1", "n2"], label: "n" };
    match api.preroute(Request::construct(Method::Post, path(&["n1", "x"]))) {
        RouteHint::NotMe(r) => {
            assert_eq!(r.path_segs().to_vec(), path(&["n1", "x"]));
            assert_eq!(*r.method(), Method::Post);
        }
        RouteHint::CallMe(_) => panic!("expected the request to be refused"),
    }
    match preroute_by_name(&["n1", "n2"], Request::construct(Method::Get, path(&["n1"]))) {
        RouteHint::NotMe(r) => assert_eq!(r.path_segs().to_vec(), path(&["n1"])),
        RouteHint::CallMe(_) => panic!("expected the request to be refused"),
    }
}

#[test]
fn bind_order_decides_dispatch() {
    let h1 = || Named { name: &["a"], label: "h1" };
    let h2 = || Named { name: &["a", "b"], label: "h2" };
    let first = Namespace::new(&[]).bind(Box::new(h1())).bind(Box::new(h2()));
    let r = first.route(Request::construct(Method::Get, path(&["a", "b"])));
    assert_eq!(r, res("h1:b"));
    let second = Namespace::new(&[]).bind(Box::new(h2())).bind(Box::new(h1()));
    let r = second.route(Request::construct(Method::Get, path(&["a", "b"])));
    assert_eq!(r, res("h2:"));
}

#[test]
fn unclaimed_request_is_not_found() {
    let ns = Namespace::new(&["root"]).bind(Box::new(Named { name: &["a"], label: "a" }));
    let r = ns.route(Request::construct(Method::Get, path(&["b"])));
    assert_eq!(status_of(&r), STATUS_NOT_FOUND);
    assert_eq!(r.unwrap_err().description(), "api not found");
    let empty: Namespace<Named> = Namespace::new(&[]);
    let r = empty.route(Request::construct(Method::Get, path(&["a"])));
    assert_eq!(status_of(&r), STATUS_NOT_FOUND);
}

#[test]
fn nested_namespace_routes_off_its_name() {
    let inner = Namespace::new(&["api"]).bind(Box::new(Named { name: &["v1"], label: "v1" }));
    let outer = Namespace::new(&[]).bind(Box::new(inner));
    let r = outer.route(Request::construct(Method::Get, path(&["api", "v1", "x"])));
    assert_eq!(r, res("v1:x"));
    let r = outer.route(Request::construct(Method::Get, path(&["v1"])));
    assert_eq!(status_of(&r), STATUS_NOT_FOUND);
}

#[test]
fn only_get_is_served() {
    let api = Named { name: &["n"], label: "n" };
    assert_eq!(api.route(Request::construct(Method::Get, Vec::new())), res("n:"));
    for m in [Method::Post, Method::Put, Method::Patch, Method::Delete, Method::Head, Method::Options] {
        let r = api.route(Request::construct(m, Vec::new()));
        assert_eq!(status_of(&r), STATUS_METHOD_NOT_ALLOWED);
        assert_eq!(r.unwrap_err().description(), "not supported");
    }
    let r = api.route(Request::construct(Method::Extension("PURGE".to_string()), Vec::new()));
    assert_eq!(status_of(&r), STATUS_METHOD_NOT_ALLOWED);
}

#[test]
fn route_seg_consumes_one_segment() {
    let mut r = Request::construct(Method::Get, path(&["a", "b"]));
    assert_eq!(r.route_seg(Some("b")), None);
    assert_eq!(r.path_segs().to_vec(), path(&["a", "b"]));
    assert_eq!(r.route_seg(Some("a")), Some("a".to_string()));
    assert_eq!(r.route_seg(None), Some("b".to_string()));
    assert_eq!(r.route_seg(None), None);
    assert!(r.path_segs().is_empty());
}

#[test]
fn paths_split_and_normalize() {
    let segs = |p: &str| writium::request::collect_path_segs(p);
    assert_eq!(segs("/foo/bar"), Some(path(&["foo", "bar"])));
    assert_eq!(segs("/"), Some(path(&[""])));
    assert_eq!(segs("/a/./b/../c"), Some(path(&["a", "c"])));
    assert_eq!(segs("/a//b/"), Some(path(&["a", "", "b", ""])));
    assert_eq!(segs("/.."), None);
    assert_eq!(segs("/a/../.."), None);
    assert_eq!(segs("/a/../../b"), None);
    assert_eq!(segs("relative/path"), Some(Vec::new()));
    assert_eq!(segs(""), Some(Vec::new()));
    assert_eq!(segs("/ä/ö"), Some(path(&["ä", "ö"])));
}

#[test]
fn request_from_target_path() {
    let r = Request::new(Method::Put, "/api/v1/../v2/item").unwrap();
    assert_eq!(r.path_segs().to_vec(), path(&["api", "v2", "item"]));
    assert_eq!(*r.method(), Method::Put);
    assert!(r.headers().is_empty());
    assert!(r.body().is_empty());
    assert!(Request::new(Method::Get, "/../etc/passwd").is_none());
    let r = Request::construct(Method::Post, path(&["x"]))
        .with_headers(vec![("k".to_string(), "v".to_string())])
        .with_body(vec![1, 2, 3]);
    assert_eq!(r.headers().to_vec(), vec![("k".to_string(), "v".to_string())]);
    assert_eq!(r.body().to_vec(), vec![1, 2, 3]);
}

#[test]
fn root_router_serves_bound_handlers() {
    let mut root = Writium::new();
    let r = root.route(Request::construct(Method::Get, path(&["a"])));
    assert_eq!(status_of(&r), STATUS_NOT_FOUND);
    root.bind(Box::new(Named { name: &["a"], label: "a" }));
    root.bind(Box::new(Named { name: &["b"], label: "b" }));
    assert_eq!(root.route(Request::new(Method::Get, "/b/c").unwrap()), res("b:c"));
    assert_eq!(root.route(Request::new(Method::Get, "/a").unwrap()), res("a:"));
    let r = root.route(Request::new(Method::Post, "/a").unwrap());
    assert_eq!(status_of(&r), STATUS_METHOD_NOT_ALLOWED);
}

/// A handler that answers GET by asking for a follow-up call of `target`.
struct Redirect {
    name: ApiName,
    target: &'static str,
}

impl Api for Redirect {
    fn name(&self) -> ApiName {
        self.name
    }
    fn get(&self, _req: Request) -> ApiResult {
        let call = Request::new(Method::Get, self.target).unwrap();
        Ok(Response::new(STATUS_OK).with_body("moved".to_string()).with_call(call))
    }
}

#[test]
fn handlers_of_different_types_share_a_router() {
    let mut root: Writium<dyn Api> = Writium::new();
    root.bind(Box::new(TestApi::new()));
    root.bind(Box::new(Named { name: &["n"], label: "n" }));
    root.bind(Box::new(Namespace::new(&["ns"]).bind(Box::new(Named { name: &["x"], label: "x" }))));
    assert_eq!(root.route(Request::new(Method::Put, "/foo/bar").unwrap()), res("put"));
    assert_eq!(root.route(Request::new(Method::Get, "/n/1").unwrap()), res("n:1"));
    assert_eq!(root.route(Request::new(Method::Get, "/ns/x/2").unwrap()), res("x:2"));
}

#[test]
fn follow_up_call_replaces_the_response() {
    let mut root: Writium<dyn Api> = Writium::new();
    root.bind(Box::new(Redirect { name: &["old"], target: "/new/page" }));
    root.bind(Box::new(Named { name: &["new"], label: "new" }));
    assert_eq!(root.route(Request::new(Method::Get, "/old").unwrap()), res("new:page"));
    let mut first = Redirect { name: &["old"], target: "/new/page" }.get(Request::construct(Method::Get, Vec::new())).unwrap();
    assert_eq!(first.take_follow_up(), Request::new(Method::Get, "/new/page"));
    assert_eq!(first.take_follow_up(), None);
    assert_eq!(first.body(), "moved");
}

#[test]
fn endless_follow_ups_end_in_an_error() {
    let mut root = Writium::new();
    root.bind(Box::new(Redirect { name: &["loop"], target: "/loop" }));
    let r = root.route(Request::new(Method::Get, "/loop").unwrap());
    assert_eq!(status_of(&r), STATUS_LOOP_DETECTED);
    assert_eq!(r.unwrap_err().description(), "too many follow-up calls");
}

#[test]
fn default_verb_handlers_refuse() {
    let api = Named { name: &["n"], label: "n" };
    for r in [
        api.put(Request::construct(Method::Put, Vec::new())),
        api.post(Request::construct(Method::Post, Vec::new())),
        api.patch(Request::construct(Method::Patch, Vec::new())),
        api.delete(Request::construct(Method::Delete, Vec::new())),
    ] {
        assert_eq!(status_of(&r), STATUS_METHOD_NOT_ALLOWED);
        assert_eq!(r.unwrap_err().description(), "not supported");
    }
    assert_eq!(api.postroute(res("kept")), res("kept"));
}
