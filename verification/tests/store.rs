use yaak_models::db::DbContext;
use yaak_models::models::{
    Error, GrpcConnection, GrpcRequest, HttpRequest, HttpResponse, UpdateSource, Workspace,
};

fn src() -> UpdateSource {
    UpdateSource::Plugin
}

fn workspace(id: &str) -> Workspace {
    Workspace {
        id: id.to_string(),
        name: "workspace".to_string(),
        authentication_type: None,
        authentication: Vec::new(),
        headers: Vec::new(),
    }
}

fn http(id: &str, wsid: &str, prio: i64) -> HttpRequest {
    HttpRequest {
        id: id.to_string(),
        workspace_id: wsid.to_string(),
        folder_id: None,
        name: format!("req {id}"),
        url: "https://example.test".to_string(),
        sort_priority: prio,
        authentication_type: None,
        authentication: Vec::new(),
        headers: Vec::new(),
    }
}

fn grpc(id: &str, wsid: &str) -> GrpcRequest {
    GrpcRequest {
        id: id.to_string(),
        workspace_id: wsid.to_string(),
        folder_id: None,
        name: format!("req {id}"),
        url: "https://example.test".to_string(),
        sort_priority: 0,
        authentication_type: None,
        authentication: Vec::new(),
        metadata: Vec::new(),
    }
}

#[test]
fn get_missing_request_is_not_found() {
    let db = DbContext::new();
    assert!(matches!(db.get_http_request("nope"), Err(Error::NotFound)));
    assert!(matches!(db.get_grpc_request("nope"), Err(Error::NotFound)));
}

#[test]
fn upsert_with_empty_id_assigns_fresh_decimal_ids() {
    let mut db = DbContext::new();
    db.upsert_workspace(&workspace("w1"), &src()).unwrap();
    let first = db.upsert_http_request(&http("", "w1", 1), &src()).unwrap();
    let second = db.upsert_http_request(&http("", "w1", 2), &src()).unwrap();
    assert_eq!(first.id, "1");
    assert_eq!(second.id, "2");
    assert_eq!(db.get_http_request("1").unwrap().sort_priority, 1);
    assert_eq!(db.get_http_request("2").unwrap().sort_priority, 2);
}

#[test]
fn upsert_with_existing_id_replaces_the_record() {
    let mut db = DbContext::new();
    db.upsert_workspace(&workspace("w1"), &src()).unwrap();
    db.upsert_http_request(&http("a", "w1", 1), &src()).unwrap();
    let mut changed = http("a", "w1", 42);
    changed.url = "https://changed.test".to_string();
    db.upsert_http_request(&changed, &src()).unwrap();
    let got = db.get_http_request("a").unwrap();
    assert_eq!(got.sort_priority, 42);
    assert_eq!(got.url, "https://changed.test");
    assert_eq!(db.list_http_requests("w1").unwrap().len(), 1);
}

#[test]
fn list_requests_filters_by_workspace() {
    let mut db = DbContext::new();
    db.upsert_workspace(&workspace("w1"), &src()).unwrap();
    db.upsert_workspace(&workspace("w2"), &src()).unwrap();
    db.upsert_http_request(&http("a", "w1", 1), &src()).unwrap();
    db.upsert_http_request(&http("b", "w2", 2), &src()).unwrap();
    db.upsert_http_request(&http("c", "w1", 3), &src()).unwrap();
    let listed = db.list_http_requests("w1").unwrap();
    let ids: Vec<&str> = listed.iter().map(|r| r.id.as_str()).collect();
    assert_eq!(ids, vec!["a", "c"]);
    let listed2 = db.list_grpc_requests("w1").unwrap();
    assert!(listed2.is_empty());
}

#[test]
fn delete_http_request_cascades_to_responses() {
    let mut db = DbContext::new();
    db.upsert_workspace(&workspace("w1"), &src()).unwrap();
    db.upsert_http_request(&http("a", "w1", 1), &src()).unwrap();
    db.upsert_http_request(&http("b", "w1", 2), &src()).unwrap();
    let resp = |id: &str, rid: &str| HttpResponse {
        id: id.to_string(),
        request_id: rid.to_string(),
    };
    db.upsert_http_response(&resp("p1", "a"), &src()).unwrap();
    db.upsert_http_response(&resp("p2", "a"), &src()).unwrap();
    db.upsert_http_response(&resp("p3", "b"), &src()).unwrap();
    let target = db.get_http_request("a").unwrap();
    let deleted = db.delete_http_request(&target, &src()).unwrap();
    assert_eq!(deleted.id, "a");
    // dependent child records went first, then the request itself
    assert!(db.list_http_responses_for_request("a").is_empty());
    assert!(matches!(db.get_http_request("a"), Err(Error::NotFound)));
    // unrelated records are untouched
    assert_eq!(db.list_http_responses_for_request("b").len(), 1);
    assert!(db.get_http_request("b").is_ok());
}

#[test]
fn delete_grpc_request_cascades_to_connections() {
    let mut db = DbContext::new();
    db.upsert_workspace(&workspace("w1"), &src()).unwrap();
    db.upsert_grpc_request(&grpc("a", "w1"), &src()).unwrap();
    let conn = |id: &str, rid: &str| GrpcConnection {
        id: id.to_string(),
        request_id: rid.to_string(),
    };
    db.upsert_grpc_connection(&conn("c1", "a"), &src()).unwrap();
    db.upsert_grpc_connection(&conn("c2", "a"), &src()).unwrap();
    let target = db.get_grpc_request("a").unwrap();
    db.delete_grpc_request(&target, &src()).unwrap();
    assert!(db.list_grpc_connections_for_request("a").is_empty());
    assert!(matches!(db.get_grpc_request("a"), Err(Error::NotFound)));
}

#[test]
fn delete_by_id_fails_before_cascade_when_missing() {
    let mut db = DbContext::new();
    db.upsert_workspace(&workspace("w1"), &src()).unwrap();
    db.upsert_http_request(&http("a", "w1", 1), &src()).unwrap();
    db.upsert_http_response(
        &HttpResponse { id: "p1".to_string(), request_id: "gone".to_string() },
        &src(),
    )
    .unwrap();
    let res = db.delete_http_request_by_id("gone", &src());
    assert!(matches!(res, Err(Error::NotFound)));
    // the lookup failed first, so no child record was removed
    assert_eq!(db.list_http_responses_for_request("gone").len(), 1);
}

#[test]
fn delete_by_id_removes_request_and_children() {
    let mut db = DbContext::new();
    db.upsert_workspace(&workspace("w1"), &src()).unwrap();
    db.upsert_http_request(&http("a", "w1", 1), &src()).unwrap();
    db.upsert_http_response(
        &HttpResponse { id: "p1".to_string(), request_id: "a".to_string() },
        &src(),
    )
    .unwrap();
    let deleted = db.delete_http_request_by_id("a", &src()).unwrap();
    assert_eq!(deleted.id, "a");
    assert!(db.list_http_responses_for_request("a").is_empty());
    assert!(matches!(db.get_http_request("a"), Err(Error::NotFound)));
    let grpc_deleted = db.delete_grpc_request_by_id("a", &src());
    assert!(matches!(grpc_deleted, Err(Error::NotFound)));
}

#[test]
fn upsert_workspace_and_folder_reject_empty_id() {
    let mut db = DbContext::new();
    let res = db.upsert_workspace(
        &Workspace {
            id: String::new(),
            name: "w".to_string(),
            authentication_type: None,
            authentication: Vec::new(),
            headers: Vec::new(),
        },
        &src(),
    );
    assert!(matches!(res, Err(Error::RepositoryFailure)));
}

#[test]
fn upsert_folder_replaces_under_same_id() {
    let mut db = DbContext::new();
    db.upsert_workspace(&workspace("w1"), &src()).unwrap();
    let folder = |name: &str| yaak_models::models::Folder {
        id: "f1".to_string(),
        workspace_id: "w1".to_string(),
        folder_id: None,
        name: name.to_string(),
        authentication_type: None,
        authentication: Vec::new(),
        headers: Vec::new(),
    };
    db.upsert_folder(&folder("first"), &src()).unwrap();
    db.upsert_folder(&folder("second"), &src()).unwrap();
    let got = db.get_folder("f1").unwrap();
    assert_eq!(got.name, "second");
}
