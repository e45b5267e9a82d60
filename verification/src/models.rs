use vstd::prelude::*;

verus! {

/// Errors surfaced by the repository: a missing record, or a stored-data
/// constraint violation (an exhausted identifier counter, a colliding
/// identifier, or a folder chain longer than the folder table, which can
/// only arise from a cycle).
#[derive(Debug, Clone, Copy, PartialEq, Eq, Structural)]
pub enum Error {
    NotFound,
    RepositoryFailure,
}

/// Tags the origin of a mutation for downstream change tracking; opaque to
/// this core, which only passes it along.
#[derive(Debug, Clone, Copy, PartialEq, Eq, Structural)]
pub enum UpdateSource {
    Sync,
    Window,
    Plugin,
    Background,
}

/// Declares `serde_json::Value` so it can stand in fields and signatures.
/// Values of it are carried through this core opaquely: nothing here reads
/// inside one.
#[verifier::external_type_specification]
#[verifier::external_body]
pub struct ExValue(serde_json::Value);

/// Relies on `serde_json::Value`'s derived `Clone`, which deep-copies the
/// tree and so returns an equal value.
pub assume_specification[ <serde_json::Value as Clone>::clone ](v: &serde_json::Value) -> (r: serde_json::Value)
    ensures
        r == *v,
;

/// One entry of an authentication mapping: a string key and an arbitrary
/// JSON-like value. Keys are kept in insertion order.
pub struct AuthEntry {
    pub name: String,
    pub value: serde_json::Value,
}

pub ghost struct EntryV {
    pub name: Seq<char>,
    pub value: serde_json::Value,
}

impl View for AuthEntry {
    type V = EntryV;

    open spec fn view(&self) -> EntryV {
        EntryV { name: self.name@, value: self.value }
    }
}

/// A header-like entry (HTTP header or RPC metadata line).
pub struct HttpRequestHeader {
    pub enabled: bool,
    pub name: String,
    pub value: String,
}

pub ghost struct HeaderV {
    pub enabled: bool,
    pub name: Seq<char>,
    pub value: Seq<char>,
}

impl View for HttpRequestHeader {
    type V = HeaderV;

    open spec fn view(&self) -> HeaderV {
        HeaderV { enabled: self.enabled, name: self.name@, value: self.value@ }
    }
}

pub open spec fn opt_view(o: Option<String>) -> Option<Seq<char>> {
    match o {
        Some(s) => Some(s@),
        None => None,
    }
}

/// The mathematical value of a request, shared by the HTTP-style and the
/// RPC-style kind, which are structurally identical for this core. The
/// RPC kind's `metadata` plays the role of `headers`.
pub ghost struct ReqV {
    pub id: Seq<char>,
    pub workspace_id: Seq<char>,
    pub folder_id: Option<Seq<char>>,
    pub name: Seq<char>,
    pub url: Seq<char>,
    pub sort_priority: int,
    pub authentication_type: Option<Seq<char>>,
    pub authentication: Seq<EntryV>,
    pub headers: Seq<HeaderV>,
}

/// An HTTP-style request. The empty `id` is the "not yet persisted"
/// sentinel; `sort_priority` is the integer ordering key among siblings.
pub struct HttpRequest {
    pub id: String,
    pub workspace_id: String,
    pub folder_id: Option<String>,
    pub name: String,
    pub url: String,
    pub sort_priority: i64,
    pub authentication_type: Option<String>,
    pub authentication: Vec<AuthEntry>,
    pub headers: Vec<HttpRequestHeader>,
}

impl View for HttpRequest {
    type V = ReqV;

    open spec fn view(&self) -> ReqV {
        ReqV {
            id: self.id@,
            workspace_id: self.workspace_id@,
            folder_id: opt_view(self.folder_id),
            name: self.name@,
            url: self.url@,
            sort_priority: self.sort_priority as int,
            authentication_type: opt_view(self.authentication_type),
            authentication: self.authentication@.map_values(|e: AuthEntry| e@),
            headers: self.headers@.map_values(|h: HttpRequestHeader| h@),
        }
    }
}

/// An RPC-style request; structurally identical to `HttpRequest` for this
/// core, with `metadata` in place of `headers`.
pub struct GrpcRequest {
    pub id: String,
    pub workspace_id: String,
    pub folder_id: Option<String>,
    pub name: String,
    pub url: String,
    pub sort_priority: i64,
    pub authentication_type: Option<String>,
    pub authentication: Vec<AuthEntry>,
    pub metadata: Vec<HttpRequestHeader>,
}

impl View for GrpcRequest {
    type V = ReqV;

    open spec fn view(&self) -> ReqV {
        ReqV {
            id: self.id@,
            workspace_id: self.workspace_id@,
            folder_id: opt_view(self.folder_id),
            name: self.name@,
            url: self.url@,
            sort_priority: self.sort_priority as int,
            authentication_type: opt_view(self.authentication_type),
            authentication: self.authentication@.map_values(|e: AuthEntry| e@),
            headers: self.metadata@.map_values(|h: HttpRequestHeader| h@),
        }
    }
}

pub ghost struct FolderV {
    pub id: Seq<char>,
    pub workspace_id: Seq<char>,
    pub folder_id: Option<Seq<char>>,
    pub name: Seq<char>,
    pub authentication_type: Option<Seq<char>>,
    pub authentication: Seq<EntryV>,
    pub headers: Seq<HeaderV>,
}

/// A folder: an inner node of the containment tree. `folder_id` is its
/// optional parent folder; the chain ends at the workspace.
pub struct Folder {
    pub id: String,
    pub workspace_id: String,
    pub folder_id: Option<String>,
    pub name: String,
    pub authentication_type: Option<String>,
    pub authentication: Vec<AuthEntry>,
    pub headers: Vec<HttpRequestHeader>,
}

impl View for Folder {
    type V = FolderV;

    open spec fn view(&self) -> FolderV {
        FolderV {
            id: self.id@,
            workspace_id: self.workspace_id@,
            folder_id: opt_view(self.folder_id),
            name: self.name@,
            authentication_type: opt_view(self.authentication_type),
            authentication: self.authentication@.map_values(|e: AuthEntry| e@),
            headers: self.headers@.map_values(|h: HttpRequestHeader| h@),
        }
    }
}

pub ghost struct WorkspaceV {
    pub id: Seq<char>,
    pub name: Seq<char>,
    pub authentication_type: Option<Seq<char>>,
    pub authentication: Seq<EntryV>,
    pub headers: Seq<HeaderV>,
}

/// The root of the containment tree; carries the base authentication and
/// base headers, and is always resolvable.
pub struct Workspace {
    pub id: String,
    pub name: String,
    pub authentication_type: Option<String>,
    pub authentication: Vec<AuthEntry>,
    pub headers: Vec<HttpRequestHeader>,
}

impl View for Workspace {
    type V = WorkspaceV;

    open spec fn view(&self) -> WorkspaceV {
        WorkspaceV {
            id: self.id@,
            name: self.name@,
            authentication_type: opt_view(self.authentication_type),
            authentication: self.authentication@.map_values(|e: AuthEntry| e@),
            headers: self.headers@.map_values(|h: HttpRequestHeader| h@),
        }
    }
}

pub ghost struct RespV {
    pub id: Seq<char>,
    pub request_id: Seq<char>,
}

/// A dependent child record of an HTTP-style request, removed by the
/// cascading delete before the request itself.
pub struct HttpResponse {
    pub id: String,
    pub request_id: String,
}

impl View for HttpResponse {
    type V = RespV;

    open spec fn view(&self) -> RespV {
        RespV { id: self.id@, request_id: self.request_id@ }
    }
}

pub ghost struct ConnV {
    pub id: Seq<char>,
    pub request_id: Seq<char>,
}

/// A dependent child record of an RPC-style request.
pub struct GrpcConnection {
    pub id: String,
    pub request_id: String,
}

impl View for GrpcConnection {
    type V = ConnV;

    open spec fn view(&self) -> ConnV {
        ConnV { id: self.id@, request_id: self.request_id@ }
    }
}

pub fn clone_opt_string(o: &Option<String>) -> (r: Option<String>)
    ensures
        r == *o,
{
    match o {
        Some(s) => Some(s.clone()),
        None => None,
    }
}

pub fn clone_auth_entries(v: &Vec<AuthEntry>) -> (r: Vec<AuthEntry>)
    ensures
        r@ == v@,
{
    let mut r: Vec<AuthEntry> = Vec::new();
    let mut i: usize = 0;
    while i < v.len()
        invariant
            i <= v.len(),
            r@.len() == i,
            forall|j: int| 0 <= j < i ==> r@[j] == v@[j],
        decreases v.len() - i,
    {
        r.push(AuthEntry { name: v[i].name.clone(), value: v[i].value.clone() });
        i += 1;
    }
    assert(r@ =~= v@);
    r
}

pub fn clone_headers(v: &Vec<HttpRequestHeader>) -> (r: Vec<HttpRequestHeader>)
    ensures
        r@ == v@,
{
    let mut r: Vec<HttpRequestHeader> = Vec::new();
    let mut i: usize = 0;
    while i < v.len()
        invariant
            i <= v.len(),
            r@.len() == i,
            forall|j: int| 0 <= j < i ==> r@[j] == v@[j],
        decreases v.len() - i,
    {
        r.push(HttpRequestHeader {
            enabled: v[i].enabled,
            name: v[i].name.clone(),
            value: v[i].value.clone(),
        });
        i += 1;
    }
    assert(r@ =~= v@);
    r
}

pub fn clone_http_request(r: &HttpRequest) -> (c: HttpRequest)
    ensures
        c@ == r@,
{
    HttpRequest {
        id: r.id.clone(),
        workspace_id: r.workspace_id.clone(),
        folder_id: clone_opt_string(&r.folder_id),
        name: r.name.clone(),
        url: r.url.clone(),
        sort_priority: r.sort_priority,
        authentication_type: clone_opt_string(&r.authentication_type),
        authentication: clone_auth_entries(&r.authentication),
        headers: clone_headers(&r.headers),
    }
}

pub fn clone_grpc_request(r: &GrpcRequest) -> (c: GrpcRequest)
    ensures
        c@ == r@,
{
    GrpcRequest {
        id: r.id.clone(),
        workspace_id: r.workspace_id.clone(),
        folder_id: clone_opt_string(&r.folder_id),
        name: r.name.clone(),
        url: r.url.clone(),
        sort_priority: r.sort_priority,
        authentication_type: clone_opt_string(&r.authentication_type),
        authentication: clone_auth_entries(&r.authentication),
        metadata: clone_headers(&r.metadata),
    }
}

pub fn clone_folder(f: &Folder) -> (c: Folder)
    ensures
        c@ == f@,
{
    Folder {
        id: f.id.clone(),
        workspace_id: f.workspace_id.clone(),
        folder_id: clone_opt_string(&f.folder_id),
        name: f.name.clone(),
        authentication_type: clone_opt_string(&f.authentication_type),
        authentication: clone_auth_entries(&f.authentication),
        headers: clone_headers(&f.headers),
    }
}

pub fn clone_workspace(w: &Workspace) -> (c: Workspace)
    ensures
        c@ == w@,
{
    Workspace {
        id: w.id.clone(),
        name: w.name.clone(),
        authentication_type: clone_opt_string(&w.authentication_type),
        authentication: clone_auth_entries(&w.authentication),
        headers: clone_headers(&w.headers),
    }
}

pub fn clone_http_response(r: &HttpResponse) -> (c: HttpResponse)
    ensures
        c@ == r@,
{
    HttpResponse { id: r.id.clone(), request_id: r.request_id.clone() }
}

pub fn clone_grpc_connection(r: &GrpcConnection) -> (c: GrpcConnection)
    ensures
        c@ == r@,
{
    GrpcConnection { id: r.id.clone(), request_id: r.request_id.clone() }
}

} // verus!
