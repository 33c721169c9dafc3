use http_server::config::{Service, ServiceKind};
use http_server::handlers::{
    api_action, asset_answer, explorer_handler_answer, explorer_route, Answer, AnswerBody,
    HandlerAnswer, request_handler, resolution, service_handler,
    static_resource_route, ApiAction, ExplorerResolution, ExplorerRoute, FileServer,
    FileServerConfig, FileServerHandler, FileServerRoute, Method, Proxy, ProxyHandler,
    RequestHandler, ResolveOutcome, ServiceHandler, StaticRoute,
};

fn server_config(root: &str) -> FileServerConfig {
    FileServerConfig { root_dir: String::from(root), index: true, spa: false }
}

#[test]
fn file_server_serves_get_requests_only() {
    assert_eq!(FileServer::route("/index.html", Method::Get), FileServerRoute::Resolve);
    assert_eq!(FileServer::route("/index.html", Method::Post), FileServerRoute::MethodNotAllowed);
    assert_eq!(FileServer::route("/api/v1/x", Method::Get), FileServerRoute::MethodNotAllowed);
    assert_eq!(FileServerHandler::route(Method::Get), FileServerRoute::Resolve);
    assert_eq!(FileServerHandler::route(Method::Other), FileServerRoute::MethodNotAllowed);
}

#[test]
fn file_server_is_rooted_at_its_directory() {
    let server = FileServer::new(server_config("./public"));
    assert_eq!(server.file_service.root, "./public");
    let handler = FileServerHandler::new(server);
    assert_eq!(handler.file_server.config.root_dir, "./public");
    assert!(handler.file_server.config.index);
}

#[test]
fn proxy_handler_keeps_its_upstream() {
    let handler = ProxyHandler::new(Proxy::new(String::from("http://localhost:3000")));
    assert_eq!(handler.proxy.uri, "http://localhost:3000");
}

#[test]
fn explorer_routes_api_and_assets() {
    assert!(matches!(explorer_route("/api/v1/docs"), ExplorerRoute::Api));
    match explorer_route("/assets/app.js") {
        ExplorerRoute::Asset(a) => assert_eq!(a, "assets/app.js"),
        _ => panic!("expected an asset"),
    }
    match explorer_route("/") {
        ExplorerRoute::Asset(a) => assert_eq!(a, ""),
        _ => panic!("expected an asset"),
    }
}

#[test]
fn api_actions_follow_the_method() {
    match api_action(Method::Get, "/api/v1/my%20docs") {
        ApiAction::Peek(p) => assert_eq!(p, "my docs"),
        _ => panic!("expected a peek"),
    }
    assert!(matches!(api_action(Method::Post, "/api/v1"), ApiAction::Upload));
    assert!(matches!(api_action(Method::Other, "/api/v1"), ApiAction::Unsupported));
}

#[test]
fn resolutions_answer_each_outcome() {
    let status = |o: ResolveOutcome, p: &str| match resolution(o, "./", p) {
        ExplorerResolution::Status(s) => Some(s),
        _ => None,
    };
    assert_eq!(status(ResolveOutcome::MethodNotMatched, "/a"), Some(400));
    assert_eq!(status(ResolveOutcome::UriNotMatched, "/a"), Some(400));
    assert_eq!(status(ResolveOutcome::NotFound, "/a"), Some(404));
    assert_eq!(status(ResolveOutcome::PermissionDenied, "/a"), Some(403));
    match resolution(ResolveOutcome::NotFound, "./", "/") {
        ExplorerResolution::RenderIndex(p) => assert_eq!(p, "./"),
        _ => panic!("the root is listed"),
    }
    match resolution(ResolveOutcome::IsDirectory, "./", "/docs") {
        ExplorerResolution::RenderIndex(p) => assert_eq!(p, "./docs"),
        _ => panic!("a directory is listed"),
    }
    assert!(matches!(resolution(ResolveOutcome::Found, "./", "/a"), ExplorerResolution::ServeFile));
}

#[test]
fn static_root_redirects() {
    match static_resource_route("/") {
        StaticRoute::Redirect(l) => assert_eq!(l, "/hyper_staticfile/"),
        _ => panic!("expected a redirect"),
    }
    assert!(matches!(static_resource_route("/index.html"), StaticRoute::Serve));
}

#[test]
fn picks_the_service_handler() {
    match service_handler(&Service::from_kind(ServiceKind::FileExplorer)) {
        ServiceHandler::FileExplorer(root) => assert_eq!(root, "./"),
        _ => panic!("expected the explorer"),
    }
    match service_handler(&Service::from_kind(ServiceKind::FileServer)) {
        ServiceHandler::FileServer(c) => {
            assert_eq!(c.root_dir, "./");
            assert!(!c.index && !c.spa);
        }
        _ => panic!("expected a file server"),
    }
}

#[test]
fn picks_the_request_handler() {
    match request_handler(Some(String::from("http://upstream")), server_config("./")) {
        RequestHandler::Proxy(h) => assert_eq!(h.proxy.uri, "http://upstream"),
        _ => panic!("expected the proxy"),
    }
    match request_handler(None, server_config("./www")) {
        RequestHandler::FileServer(h) => assert_eq!(h.file_server.file_service.root, "./www"),
        _ => panic!("expected the file server"),
    }
}

fn text_of(a: &Answer) -> Option<&str> {
    match &a.body {
        AnswerBody::Text(t) => Some(t.as_str()),
        _ => None,
    }
}

#[test]
fn file_server_refuses_with_405() {
    let a = FileServer::method_not_allowed();
    assert_eq!(a.status, 405);
    assert!(a.content_type.is_none());
    assert_eq!(text_of(&a), Some("Method Not Allowed"));
    let r = FileServerHandler::refusal();
    assert_eq!(r.status, 405);
    assert!(matches!(r.body, AnswerBody::Empty));
}

#[test]
fn failed_resolves_get_500() {
    assert!(matches!(FileServerHandler::answer(Ok(())), HandlerAnswer::Forward));
    match FileServerHandler::answer(Err(String::from("disk on fire"))) {
        HandlerAnswer::Respond(a) => {
            assert_eq!(a.status, 500);
            assert_eq!(a.content_type.as_deref(), Some("text/html"));
            match a.body {
                AnswerBody::ErrorPage(m, code) => {
                    assert_eq!(m, "disk on fire");
                    assert_eq!(code, 500);
                }
                _ => panic!("expected the error page"),
            }
        }
        _ => panic!("expected an answer"),
    }
    assert!(matches!(explorer_handler_answer(Ok(())), HandlerAnswer::Forward));
    match explorer_handler_answer(Err(String::from("gone"))) {
        HandlerAnswer::Respond(a) => {
            assert_eq!(a.status, 500);
            assert_eq!(text_of(&a), Some("gone"));
        }
        _ => panic!("expected an answer"),
    }
}

#[test]
fn assets_fall_back_to_the_index_page() {
    let a = asset_answer("app.js", Some(vec![1, 2, 3]), vec![9]);
    assert_eq!(a.status, 200);
    assert_eq!(a.content_type.as_deref(), Some("text/javascript"));
    assert!(matches!(a.body, AnswerBody::Bytes(ref b) if b == &vec![1, 2, 3]));
    let f = asset_answer("missing/route", None, vec![9]);
    assert_eq!(f.status, 200);
    assert_eq!(f.content_type.as_deref(), Some("text/html"));
    assert!(matches!(f.body, AnswerBody::Bytes(ref b) if b == &vec![9]));
}
