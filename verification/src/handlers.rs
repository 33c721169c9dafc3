//! Request handling decisions: which requests a handler serves, and what
//! the answer is for each outcome of resolving a path.
use std::sync::Arc;
use vstd::prelude::*;

use crate::config::Service;
use crate::explorer::absolute_path_of;
use crate::file_system::ScopedFileSystem;
use crate::headers::{guessed_mime_type, mime};
use crate::path::split_on;
use crate::text::{chars_of, has_prefix, str_starts_with, string_of, sub_chars};

verus! {

/// The method of a request, as far as the handlers tell methods apart.
#[derive(Clone, Copy, Debug, PartialEq, Eq, Structural)]
pub enum Method {
    Get,
    Post,
    Other,
}

/// How a file server is set up.
pub struct FileServerConfig {
    pub root_dir: String,
    pub index: bool,
    pub spa: bool,
}

/// Serves the files under a root directory.
pub struct FileServer {
    pub file_service: ScopedFileSystem,
    pub config: FileServerConfig,
}

/// What a file server does with a request.
#[derive(Clone, Copy, Debug, PartialEq, Eq, Structural)]
pub enum FileServerRoute {
    /// Answer 405 Method Not Allowed.
    MethodNotAllowed,
    /// Resolve the request's URI to a file.
    Resolve,
}

/// The body of an answer.
pub enum AnswerBody {
    /// No body.
    Empty,
    /// This text.
    Text(String),
    /// These bytes.
    Bytes(Vec<u8>),
    /// The error page, rendered with this message and status code.
    ErrorPage(String, u16),
}

/// An answer to a request: its status code, the content type it sets (if
/// any) and its body.
pub struct Answer {
    pub status: u16,
    pub content_type: Option<String>,
    pub body: AnswerBody,
}

/// What a handler sends once the served resource was resolved: the
/// response that resolving built, or an answer of its own.
pub enum HandlerAnswer {
    Forward,
    Respond(Answer),
}

/// Whether `a` is the answer with `status`, no content type and the text
/// `text`.
pub open spec fn is_text_answer(a: Answer, status: u16, text: Seq<char>) -> bool {
    &&& a.status == status
    &&& a.content_type is None
    &&& a.body matches AnswerBody::Text(t) && t@ == text
}

/// Whether `a` is the answer with `status`, no content type and no body.
pub open spec fn is_empty_answer(a: Answer, status: u16) -> bool {
    a.status == status && a.content_type is None && a.body is Empty
}

/// The prefix of API request paths.
pub open spec fn api_prefix() -> Seq<char> {
    "/api/v1"@
}

impl FileServer {
    /// A file server with `config`, serving the files under its root
    /// directory.
    pub fn new(config: FileServerConfig) -> (res: FileServer)
        ensures
            res.file_service.root@ == config.root_dir@,
            res.config == config,
    {
        let root = config.root_dir.clone();
        let file_service = ScopedFileSystem { root };
        FileServer { file_service, config }
    }

    /// Decides on a request: API paths (under `/api/v1`) are not served,
    /// `GET` requests are resolved, other methods are not allowed.
    pub fn route(path: &str, method: Method) -> (res: FileServerRoute)
        ensures
            res == (if has_prefix(path@, api_prefix()) {
                FileServerRoute::MethodNotAllowed
            } else if method == Method::Get {
                FileServerRoute::Resolve
            } else {
                FileServerRoute::MethodNotAllowed
            }),
    {
        if str_starts_with(path, "/api/v1") {
            return FileServerRoute::MethodNotAllowed;
        }
        if method == Method::Get {
            return FileServerRoute::Resolve;
        }
        FileServerRoute::MethodNotAllowed
    }

    /// The answer to a request the file server does not serve: 405 with the
    /// text "Method Not Allowed".
    pub fn method_not_allowed() -> (res: Answer)
        ensures
            is_text_answer(res, 405, "Method Not Allowed"@),
    {
        Answer {
            status: 405,
            content_type: None,
            body: AnswerBody::Text(String::from_str("Method Not Allowed")),
        }
    }
}

/// Hands requests to a shared file server.
pub struct FileServerHandler {
    pub file_server: Arc<FileServer>,
}

impl FileServerHandler {
    /// A handler that shares `file_server`.
    pub fn new(file_server: FileServer) -> (res: FileServerHandler)
        ensures
            *res.file_server == file_server,
    {
        FileServerHandler { file_server: Arc::new(file_server) }
    }

    /// Decides on a request: `GET` requests are resolved, other methods are
    /// not allowed.
    pub fn route(method: Method) -> (res: FileServerRoute)
        ensures
            res == (if method == Method::Get {
                FileServerRoute::Resolve
            } else {
                FileServerRoute::MethodNotAllowed
            }),
    {
        if method == Method::Get {
            FileServerRoute::Resolve
        } else {
            FileServerRoute::MethodNotAllowed
        }
    }

    /// The answer to a method other than `GET`: 405 with no body.
    pub fn refusal() -> (res: Answer)
        ensures
            is_empty_answer(res, 405),
    {
        Answer { status: 405, content_type: None, body: AnswerBody::Empty }
    }

    /// The answer once the file server resolved a `GET` request: its
    /// response when it resolved, else 500 with the HTML error page for
    /// the error's message and the code 500.
    pub fn answer(resolved: Result<(), String>) -> (res: HandlerAnswer)
        ensures
            resolved is Ok ==> res is Forward,
            resolved matches Err(m) ==> (res matches HandlerAnswer::Respond(a) && a.status == 500
                && (a.content_type matches Some(t) && t@ == "text/html"@) && (a.body matches AnswerBody::ErrorPage(
                msg,
                code,
            ) && msg@ == m@ && code == 500)),
    {
        match resolved {
            Ok(()) => HandlerAnswer::Forward,
            Err(m) => HandlerAnswer::Respond(
                Answer {
                    status: 500,
                    content_type: Some(String::from_str("text/html")),
                    body: AnswerBody::ErrorPage(m, 500),
                },
            ),
        }
    }
}

/// A reverse proxy to an upstream URI.
pub struct Proxy {
    pub uri: String,
}

impl Proxy {
    /// A proxy to `uri`.
    pub fn new(uri: String) -> (res: Proxy)
        ensures
            res.uri == uri,
    {
        Proxy { uri }
    }
}

/// Hands requests to a shared proxy.
pub struct ProxyHandler {
    pub proxy: Arc<Proxy>,
}

impl ProxyHandler {
    /// A handler that shares `proxy`.
    pub fn new(proxy: Proxy) -> (res: ProxyHandler)
        ensures
            *res.proxy == proxy,
    {
        ProxyHandler { proxy: Arc::new(proxy) }
    }
}

/// What the file explorer does with a request path.
pub enum ExplorerRoute {
    /// An API call.
    Api,
    /// A user interface asset, by its path without the leading `/`.
    Asset(String),
}

/// The asset path of a request path: without its leading `/`, if any.
pub open spec fn asset_path_of(path: Seq<char>) -> Seq<char> {
    if path.len() > 0 && path[0] == '/' {
        path.drop_first()
    } else {
        path
    }
}

/// Decides where the file explorer sends a request path: paths under
/// `/api/v1` to the API, everything else to the user interface assets.
pub fn explorer_route(path: &str) -> (res: ExplorerRoute)
    ensures
        has_prefix(path@, api_prefix()) ==> res is Api,
        !has_prefix(path@, api_prefix()) ==> (res matches ExplorerRoute::Asset(a) && a@
            == asset_path_of(path@)),
{
    if str_starts_with(path, "/api/v1") {
        return ExplorerRoute::Api;
    }
    let chars = chars_of(path);
    if chars.len() > 0 && chars[0] == '/' {
        let rest = sub_chars(&chars, 1, chars.len());
        assert(rest@ =~= path@.drop_first());
        ExplorerRoute::Asset(string_of(&rest))
    } else {
        ExplorerRoute::Asset(string_of(&chars))
    }
}

/// What the file explorer's API does with a request.
pub enum ApiAction {
    /// Show the entry at the decoded path.
    Peek(String),
    /// Store the uploaded body.
    Upload,
    /// Answer "Unsupported method".
    Unsupported,
}

/// Decides on an API request by its method: `GET` shows the entry at the
/// path after `/api/v1` (see [`crate::explorer::parse_req_uri`]), `POST`
/// uploads a file, anything else is unsupported.
pub fn api_action(method: Method, uri_path: &str) -> (res: ApiAction)
    requires
        split_on(uri_path@, '/').len() >= 3,
    ensures
        method == Method::Get ==> (res matches ApiAction::Peek(p) && p@ == crate::path::pushed_all(
            seq![],
            crate::url_encode::decoded_pieces(
                split_on(crate::explorer::api_subpath(uri_path@), '/'),
            ),
        )),
        method == Method::Post ==> res is Upload,
        method == Method::Other ==> res is Unsupported,
{
    let path = crate::explorer::parse_req_uri(uri_path);
    match method {
        Method::Get => ApiAction::Peek(path),
        Method::Post => ApiAction::Upload,
        Method::Other => ApiAction::Unsupported,
    }
}

/// The outcome of resolving a request path against the served directory.
#[derive(Clone, Copy, Debug, PartialEq, Eq, Structural)]
pub enum ResolveOutcome {
    MethodNotMatched,
    UriNotMatched,
    NotFound,
    PermissionDenied,
    IsDirectory,
    Found,
}

/// The file explorer's answer to a resolved path.
pub enum ExplorerResolution {
    /// An empty answer with this status code.
    Status(u16),
    /// The listing of the directory at this path.
    RenderIndex(String),
    /// The file that was found.
    ServeFile,
}

/// Decides the file explorer's answer: a method or URI that does not match
/// gives 400, a missing path 404 (but the root `/` is listed), a forbidden
/// one 403, a directory is listed and a file is served.
pub fn resolution(outcome: ResolveOutcome, root_dir: &str, req_path: &str) -> (res: ExplorerResolution)
    ensures
        (outcome == ResolveOutcome::MethodNotMatched || outcome == ResolveOutcome::UriNotMatched)
            ==> res == ExplorerResolution::Status(400),
        outcome == ResolveOutcome::NotFound && req_path@ != "/"@ ==> res
            == ExplorerResolution::Status(404),
        outcome == ResolveOutcome::PermissionDenied ==> res == ExplorerResolution::Status(403),
        (outcome == ResolveOutcome::IsDirectory || (outcome == ResolveOutcome::NotFound && req_path@
            == "/"@)) ==> (res matches ExplorerResolution::RenderIndex(p) && p@ == absolute_path_of(
            root_dir@,
            req_path@,
        )),
        outcome == ResolveOutcome::Found ==> res is ServeFile,
{
    match outcome {
        ResolveOutcome::MethodNotMatched => ExplorerResolution::Status(400),
        ResolveOutcome::UriNotMatched => ExplorerResolution::Status(400),
        ResolveOutcome::NotFound => {
            let chars = chars_of(req_path);
            if chars.len() == 1 && chars[0] == '/' {
                proof {
                    reveal_strlit("/");
                    assert(req_path@ =~= "/"@);
                }
                ExplorerResolution::RenderIndex(
                    crate::explorer::make_absolute_path_from_req_path(root_dir, req_path),
                )
            } else {
                proof {
                    reveal_strlit("/");
                    if req_path@ == "/"@ {
                        assert(chars@.len() == 1 && chars@[0] == '/');
                    }
                }
                ExplorerResolution::Status(404)
            }
        },
        ResolveOutcome::PermissionDenied => ExplorerResolution::Status(403),
        ResolveOutcome::IsDirectory => ExplorerResolution::RenderIndex(
            crate::explorer::make_absolute_path_from_req_path(root_dir, req_path),
        ),
        ResolveOutcome::Found => ExplorerResolution::ServeFile,
    }
}

/// What the static file service does with a request path.
pub enum StaticRoute {
    /// Answer 301 Moved Permanently to this location.
    Redirect(String),
    /// Serve the static file.
    Serve,
}

/// The root `/` is redirected to `/hyper_staticfile/`; every other path is
/// served.
pub fn static_resource_route(path: &str) -> (res: StaticRoute)
    ensures
        path@ == "/"@ ==> (res matches StaticRoute::Redirect(l) && l@ == "/hyper_staticfile/"@),
        path@ != "/"@ ==> res is Serve,
{
    let chars = chars_of(path);
    proof {
        reveal_strlit("/");
    }
    if chars.len() == 1 && chars[0] == '/' {
        assert(path@ =~= "/"@);
        StaticRoute::Redirect(String::from_str("/hyper_staticfile/"))
    } else {
        proof {
            if path@ == "/"@ {
                assert(chars@.len() == 1 && chars@[0] == '/');
            }
        }
        StaticRoute::Serve
    }
}

/// The handler a server runs for its service.
pub enum ServiceHandler {
    /// The file explorer, rooted at this directory.
    FileExplorer(String),
    /// A file server with this configuration.
    FileServer(FileServerConfig),
}

/// Picks the handler for `service`: the file explorer, or a file server
/// without index pages or single-page fallback; either one serves `./`.
pub fn service_handler(service: &Service) -> (res: ServiceHandler)
    ensures
        service is FileExplorer ==> (res matches ServiceHandler::FileExplorer(r) && r@ == "./"@),
        service is FileServer ==> (res matches ServiceHandler::FileServer(c) && c.root_dir@
            == "./"@ && !c.index && !c.spa),
{
    match service {
        Service::FileExplorer { .. } => ServiceHandler::FileExplorer(String::from_str("./")),
        Service::FileServer { .. } => ServiceHandler::FileServer(
            FileServerConfig { root_dir: String::from_str("./"), index: false, spa: false },
        ),
    }
}

/// The handler that answers requests: a proxy when one is configured, else
/// a file server.
pub enum RequestHandler {
    Proxy(ProxyHandler),
    FileServer(FileServerHandler),
}

/// Picks the request handler: a proxy to `proxy_uri` when it is given,
/// else a file server set up with `file_server`.
pub fn request_handler(proxy_uri: Option<String>, file_server: FileServerConfig) -> (res:
    RequestHandler)
    ensures
        proxy_uri matches Some(u) ==> (res matches RequestHandler::Proxy(h) && h.proxy.uri == u),
        proxy_uri is None ==> (res matches RequestHandler::FileServer(h)
            && h.file_server.config == file_server && h.file_server.file_service.root@
            == file_server.root_dir@),
{
    match proxy_uri {
        Some(uri) => RequestHandler::Proxy(ProxyHandler::new(Proxy::new(uri))),
        None => RequestHandler::FileServer(FileServerHandler::new(FileServer::new(file_server))),
    }
}

/// The file explorer handler's answer once it resolved a `GET` request (the
/// method is decided as in [`FileServerHandler::route`], other methods get
/// [`FileServerHandler::refusal`]): the resolved response, or 500 with the
/// error's message as text.
pub fn explorer_handler_answer(resolved: Result<(), String>) -> (res: HandlerAnswer)
    ensures
        resolved is Ok ==> res is Forward,
        resolved matches Err(m) ==> (res matches HandlerAnswer::Respond(a) && is_text_answer(
            a,
            500,
            m@,
        )),
{
    match resolved {
        Ok(()) => HandlerAnswer::Forward,
        Err(m) => HandlerAnswer::Respond(
            Answer { status: 500, content_type: None, body: AnswerBody::Text(m) },
        ),
    }
}

/// The file explorer's answer for a user interface asset, given what the
/// lookup of `asset` found and the `index.html` page: the asset with its
/// guessed MIME type when found, else `index.html` as `text/html`; 200
/// either way.
pub fn asset_answer(asset: &str, found: Option<Vec<u8>>, index: Vec<u8>) -> (res: Answer)
    ensures
        res.status == 200,
        found matches Some(b) ==> (res.content_type matches Some(t) && t@ == guessed_mime_type(
            asset@,
        )) && (res.body matches AnswerBody::Bytes(r) && r@ == b@),
        found is None ==> (res.content_type matches Some(t) && t@ == "text/html"@) && (
        res.body matches AnswerBody::Bytes(r) && r@ == index@),
{
    match found {
        Some(b) => Answer { status: 200, content_type: Some(mime(asset)), body: AnswerBody::Bytes(b) },
        None => Answer {
            status: 200,
            content_type: Some(String::from_str("text/html")),
            body: AnswerBody::Bytes(index),
        },
    }
}

} // verus!
