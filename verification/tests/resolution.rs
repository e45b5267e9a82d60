use yaak_models::db::DbContext;
use yaak_models::models::{
    AuthEntry, Error, Folder, GrpcRequest, HttpRequest, HttpRequestHeader, UpdateSource, Workspace,
};

fn src() -> UpdateSource {
    UpdateSource::Window
}

fn entry(name: &str, value: &str) -> AuthEntry {
    AuthEntry {
        name: name.to_string(),
        value: serde_json::Value::String(value.to_string()),
    }
}

fn header(name: &str, value: &str) -> HttpRequestHeader {
    HttpRequestHeader {
        enabled: true,
        name: name.to_string(),
        value: value.to_string(),
    }
}

fn workspace(id: &str, auth: Option<&str>, headers: Vec<HttpRequestHeader>) -> Workspace {
    Workspace {
        id: id.to_string(),
        name: "workspace".to_string(),
        authentication_type: auth.map(|a| a.to_string()),
        authentication: Vec::new(),
        headers,
    }
}

fn folder(
    id: &str,
    wsid: &str,
    parent: Option<&str>,
    auth: Option<&str>,
    headers: Vec<HttpRequestHeader>,
) -> Folder {
    Folder {
        id: id.to_string(),
        workspace_id: wsid.to_string(),
        folder_id: parent.map(|p| p.to_string()),
        name: format!("folder {id}"),
        authentication_type: auth.map(|a| a.to_string()),
        authentication: Vec::new(),
        headers,
    }
}

fn http(id: &str, wsid: &str, fid: Option<&str>) -> HttpRequest {
    HttpRequest {
        id: id.to_string(),
        workspace_id: wsid.to_string(),
        folder_id: fid.map(|f| f.to_string()),
        name: format!("req {id}"),
        url: "https://example.test".to_string(),
        sort_priority: 0,
        authentication_type: None,
        authentication: Vec::new(),
        headers: Vec::new(),
    }
}

fn grpc(id: &str, wsid: &str, fid: Option<&str>) -> GrpcRequest {
    GrpcRequest {
        id: id.to_string(),
        workspace_id: wsid.to_string(),
        folder_id: fid.map(|f| f.to_string()),
        name: format!("req {id}"),
        url: "https://example.test".to_string(),
        sort_priority: 0,
        authentication_type: None,
        authentication: Vec::new(),
        metadata: Vec::new(),
    }
}

#[test]
fn request_with_own_auth_wins_regardless_of_ancestors() {
    let mut db = DbContext::new();
    db.upsert_workspace(&workspace("w1", Some("basic"), Vec::new()), &src()).unwrap();
    db.upsert_folder(&folder("f1", "w1", None, Some("basic"), Vec::new()), &src()).unwrap();
    let mut r = http("r1", "w1", Some("f1"));
    r.authentication_type = Some("bearer".to_string());
    r.authentication = vec![entry("token", "abc")];
    db.upsert_http_request(&r, &src()).unwrap();
    let stored = db.get_http_request("r1").unwrap();
    let (auth_type, auth, owner) = db.resolve_auth_for_http_request(&stored).unwrap();
    assert_eq!(auth_type.as_deref(), Some("bearer"));
    assert_eq!(auth.len(), 1);
    assert_eq!(auth[0].name, "token");
    assert_eq!(auth[0].value, serde_json::Value::String("abc".to_string()));
    assert_eq!(owner, "r1");
}

#[test]
fn inheriting_request_takes_folder_auth() {
    let mut db = DbContext::new();
    db.upsert_workspace(&workspace("w1", Some("none"), Vec::new()), &src()).unwrap();
    let mut f = folder("f1", "w1", None, Some("basic"), Vec::new());
    f.authentication = vec![entry("username", "u")];
    db.upsert_folder(&f, &src()).unwrap();
    db.upsert_http_request(&http("r1", "w1", Some("f1")), &src()).unwrap();
    let stored = db.get_http_request("r1").unwrap();
    let (auth_type, auth, owner) = db.resolve_auth_for_http_request(&stored).unwrap();
    assert_eq!(auth_type.as_deref(), Some("basic"));
    assert_eq!(auth.len(), 1);
    assert_eq!(auth[0].name, "username");
    assert_eq!(owner, "f1");
}

#[test]
fn inheriting_chain_falls_back_to_workspace() {
    let mut db = DbContext::new();
    db.upsert_workspace(&workspace("w1", Some("none"), Vec::new()), &src()).unwrap();
    db.upsert_folder(&folder("f1", "w1", None, None, Vec::new()), &src()).unwrap();
    db.upsert_http_request(&http("r1", "w1", Some("f1")), &src()).unwrap();
    let stored = db.get_http_request("r1").unwrap();
    let (auth_type, _auth, owner) = db.resolve_auth_for_http_request(&stored).unwrap();
    assert_eq!(auth_type.as_deref(), Some("none"));
    assert_eq!(owner, "w1");
}

#[test]
fn auth_walks_through_nested_folders() {
    let mut db = DbContext::new();
    db.upsert_workspace(&workspace("w1", Some("none"), Vec::new()), &src()).unwrap();
    db.upsert_folder(&folder("top", "w1", None, Some("basic"), Vec::new()), &src()).unwrap();
    db.upsert_folder(&folder("mid", "w1", Some("top"), None, Vec::new()), &src()).unwrap();
    db.upsert_grpc_request(&grpc("r1", "w1", Some("mid")), &src()).unwrap();
    let stored = db.get_grpc_request("r1").unwrap();
    let (auth_type, _auth, owner) = db.resolve_auth_for_grpc_request(&stored).unwrap();
    assert_eq!(auth_type.as_deref(), Some("basic"));
    assert_eq!(owner, "top");
}

#[test]
fn auth_resolution_detects_folder_cycle() {
    let mut db = DbContext::new();
    db.upsert_workspace(&workspace("w1", Some("none"), Vec::new()), &src()).unwrap();
    db.upsert_folder(&folder("f1", "w1", Some("f2"), None, Vec::new()), &src()).unwrap();
    db.upsert_folder(&folder("f2", "w1", Some("f1"), None, Vec::new()), &src()).unwrap();
    db.upsert_http_request(&http("r1", "w1", Some("f1")), &src()).unwrap();
    let stored = db.get_http_request("r1").unwrap();
    let res = db.resolve_auth_for_http_request(&stored);
    assert!(matches!(res, Err(Error::RepositoryFailure)));
}

#[test]
fn auth_resolution_reports_missing_folder() {
    let mut db = DbContext::new();
    db.upsert_workspace(&workspace("w1", Some("none"), Vec::new()), &src()).unwrap();
    db.upsert_http_request(&http("r1", "w1", Some("gone")), &src()).unwrap();
    let stored = db.get_http_request("r1").unwrap();
    let res = db.resolve_auth_for_http_request(&stored);
    assert!(matches!(res, Err(Error::NotFound)));
}

#[test]
fn headers_resolve_base_first_most_specific_last() {
    let mut db = DbContext::new();
    db.upsert_workspace(&workspace("w1", None, vec![header("a", "1")]), &src()).unwrap();
    db.upsert_folder(&folder("f1", "w1", None, None, vec![header("b", "2")]), &src()).unwrap();
    let mut r = http("r1", "w1", Some("f1"));
    r.headers = vec![header("c", "3")];
    db.upsert_http_request(&r, &src()).unwrap();
    let stored = db.get_http_request("r1").unwrap();
    let resolved = db.resolve_headers_for_http_request(&stored).unwrap();
    let names: Vec<&str> = resolved.iter().map(|h| h.name.as_str()).collect();
    assert_eq!(names, vec!["a", "b", "c"]);
}

#[test]
fn headers_merge_keeps_duplicate_keys() {
    let mut db = DbContext::new();
    db.upsert_workspace(&workspace("w1", None, vec![header("x", "base")]), &src()).unwrap();
    let mut r = http("r1", "w1", None);
    r.headers = vec![header("x", "override")];
    db.upsert_http_request(&r, &src()).unwrap();
    let stored = db.get_http_request("r1").unwrap();
    let resolved = db.resolve_headers_for_http_request(&stored).unwrap();
    assert_eq!(resolved.len(), 2);
    assert_eq!(resolved[0].value, "base");
    assert_eq!(resolved[1].value, "override");
}

#[test]
fn metadata_resolves_through_folder_for_grpc() {
    let mut db = DbContext::new();
    db.upsert_workspace(&workspace("w1", None, vec![header("a", "1")]), &src()).unwrap();
    db.upsert_folder(&folder("f1", "w1", None, None, vec![header("b", "2")]), &src()).unwrap();
    let mut r = grpc("r1", "w1", Some("f1"));
    r.metadata = vec![header("c", "3")];
    db.upsert_grpc_request(&r, &src()).unwrap();
    let stored = db.get_grpc_request("r1").unwrap();
    let resolved = db.resolve_metadata_for_grpc_request(&stored).unwrap();
    let names: Vec<&str> = resolved.iter().map(|h| h.name.as_str()).collect();
    assert_eq!(names, vec!["a", "b", "c"]);
}

#[test]
fn recursive_listing_descends_into_subfolders() {
    let mut db = DbContext::new();
    db.upsert_workspace(&workspace("w1", None, Vec::new()), &src()).unwrap();
    db.upsert_folder(&folder("f", "w1", None, None, Vec::new()), &src()).unwrap();
    db.upsert_folder(&folder("g", "w1", Some("f"), None, Vec::new()), &src()).unwrap();
    db.upsert_http_request(&http("r1", "w1", Some("f")), &src()).unwrap();
    db.upsert_http_request(&http("r2", "w1", Some("g")), &src()).unwrap();
    db.upsert_http_request(&http("outside", "w1", None), &src()).unwrap();
    let listed = db.list_http_requests_for_folder_recursive("f").unwrap();
    let ids: Vec<&str> = listed.iter().map(|r| r.id.as_str()).collect();
    // depth first: the subfolder's request comes before the folder's own
    assert_eq!(ids, vec!["r2", "r1"]);
}

#[test]
fn recursive_listing_of_leaf_folder_lists_direct_requests() {
    let mut db = DbContext::new();
    db.upsert_workspace(&workspace("w1", None, Vec::new()), &src()).unwrap();
    db.upsert_folder(&folder("f", "w1", None, None, Vec::new()), &src()).unwrap();
    db.upsert_http_request(&http("r1", "w1", Some("f")), &src()).unwrap();
    let listed = db.list_http_requests_for_folder_recursive("f").unwrap();
    assert_eq!(listed.len(), 1);
    assert_eq!(listed[0].id, "r1");
}
