use yaak_models::db::DbContext;
use yaak_models::models::{
    AuthEntry, Error, HttpRequest, GrpcRequest, HttpRequestHeader, UpdateSource, Workspace,
};

fn ws(id: &str) -> Workspace {
    Workspace {
        id: id.to_string(),
        name: "workspace".to_string(),
        authentication_type: None,
        authentication: Vec::new(),
        headers: Vec::new(),
    }
}

fn http(id: &str, wsid: &str, folder: Option<&str>, prio: i64) -> HttpRequest {
    HttpRequest {
        id: id.to_string(),
        workspace_id: wsid.to_string(),
        folder_id: folder.map(|f| f.to_string()),
        name: format!("req {id}"),
        url: "https://example.test".to_string(),
        sort_priority: prio,
        authentication_type: None,
        authentication: Vec::new(),
        headers: Vec::new(),
    }
}

fn grpc(id: &str, wsid: &str, folder: Option<&str>, prio: i64) -> GrpcRequest {
    GrpcRequest {
        id: id.to_string(),
        workspace_id: wsid.to_string(),
        folder_id: folder.map(|f| f.to_string()),
        name: format!("req {id}"),
        url: "https://example.test".to_string(),
        sort_priority: prio,
        authentication_type: None,
        authentication: Vec::new(),
        metadata: Vec::new(),
    }
}

fn db_with(reqs: Vec<HttpRequest>) -> DbContext {
    let mut db = DbContext::new();
    let src = UpdateSource::Sync;
    db.upsert_workspace(&ws("w1"), &src).unwrap();
    for r in reqs {
        db.upsert_http_request(&r, &src).unwrap();
    }
    db
}

#[test]
fn duplicate_without_next_sibling_adds_large_gap() {
    let mut db = db_with(vec![http("a", "w1", None, 100)]);
    let src = UpdateSource::Sync;
    let original = db.get_http_request("a").unwrap();
    let copy = db.duplicate_http_request(&original, &src).unwrap();
    assert_eq!(copy.sort_priority, 1100);
    assert_eq!(copy.id, "1");
    assert_eq!(copy.workspace_id, "w1");
    assert_eq!(copy.name, original.name);
}

#[test]
fn duplicate_with_next_sibling_takes_midpoint() {
    let mut db = db_with(vec![http("a", "w1", None, 100), http("b", "w1", None, 200)]);
    let src = UpdateSource::Sync;
    let original = db.get_http_request("a").unwrap();
    let copy = db.duplicate_http_request(&original, &src).unwrap();
    assert_eq!(copy.sort_priority, 150);
    assert!(copy.sort_priority > 100 && copy.sort_priority < 200);
}

#[test]
fn duplicate_midpoint_rounds_down_on_odd_gap() {
    let mut db = db_with(vec![http("a", "w1", None, 0), http("b", "w1", None, 5)]);
    let src = UpdateSource::Sync;
    let original = db.get_http_request("a").unwrap();
    let copy = db.duplicate_http_request(&original, &src).unwrap();
    assert_eq!(copy.sort_priority, 2);
}

#[test]
fn duplicate_midpoint_handles_negative_keys() {
    let mut db = db_with(vec![http("a", "w1", None, -10), http("b", "w1", None, -4)]);
    let src = UpdateSource::Sync;
    let original = db.get_http_request("a").unwrap();
    let copy = db.duplicate_http_request(&original, &src).unwrap();
    assert_eq!(copy.sort_priority, -7);
}

#[test]
fn duplicate_never_mutates_other_siblings() {
    let mut db = db_with(vec![
        http("a", "w1", None, 100),
        http("b", "w1", None, 200),
        http("c", "w1", None, 300),
    ]);
    let src = UpdateSource::Sync;
    let original = db.get_http_request("b").unwrap();
    db.duplicate_http_request(&original, &src).unwrap();
    assert_eq!(db.get_http_request("a").unwrap().sort_priority, 100);
    assert_eq!(db.get_http_request("b").unwrap().sort_priority, 200);
    assert_eq!(db.get_http_request("c").unwrap().sort_priority, 300);
}

#[test]
fn repeated_duplication_compresses_toward_source() {
    let mut db = db_with(vec![http("a", "w1", None, 0), http("b", "w1", None, 1000)]);
    let src = UpdateSource::Sync;
    let original = db.get_http_request("a").unwrap();
    let mut priorities = Vec::new();
    for _ in 0..5 {
        let copy = db.duplicate_http_request(&original, &src).unwrap();
        priorities.push(copy.sort_priority);
    }
    assert_eq!(priorities, vec![500, 250, 125, 62, 31]);
    for p in &priorities {
        assert!(*p > 0 && *p < 1000);
    }
    for pair in priorities.windows(2) {
        assert!(pair[1] < pair[0]);
    }
}

#[test]
fn duplicate_only_considers_same_folder_siblings() {
    let mut db = db_with(vec![
        http("a", "w1", None, 100),
        http("other", "w1", Some("f1"), 150),
    ]);
    let src = UpdateSource::Sync;
    let original = db.get_http_request("a").unwrap();
    let copy = db.duplicate_http_request(&original, &src).unwrap();
    // the folder-owned request is no sibling, so the copy goes after last
    assert_eq!(copy.sort_priority, 1100);
}

#[test]
fn duplicate_of_absent_source_uses_tiny_step() {
    let mut db = db_with(vec![http("a", "w1", None, 100)]);
    let src = UpdateSource::Sync;
    // a record that was never stored: not found among its own siblings
    let stray = http("stray", "w1", None, 40);
    let copy = db.duplicate_http_request(&stray, &src).unwrap();
    assert_eq!(copy.sort_priority, 41);
}

#[test]
fn duplicate_saturates_at_largest_key() {
    let mut db = db_with(vec![http("a", "w1", None, i64::MAX - 10)]);
    let src = UpdateSource::Sync;
    let original = db.get_http_request("a").unwrap();
    let copy = db.duplicate_http_request(&original, &src).unwrap();
    assert_eq!(copy.sort_priority, i64::MAX);
}

#[test]
fn duplicate_fails_when_minted_id_collides() {
    // a caller-supplied id equal to the next minted decimal blocks creation
    let mut db = db_with(vec![http("1", "w1", None, 100)]);
    let src = UpdateSource::Sync;
    let original = db.get_http_request("1").unwrap();
    let res = db.duplicate_http_request(&original, &src);
    assert!(matches!(res, Err(Error::RepositoryFailure)));
    // nothing was inserted
    assert_eq!(db.list_http_requests("w1").unwrap().len(), 1);
}

#[test]
fn duplicate_grpc_request_takes_midpoint() {
    let mut db = DbContext::new();
    let src = UpdateSource::Sync;
    db.upsert_workspace(&ws("w1"), &src).unwrap();
    db.upsert_grpc_request(&grpc("a", "w1", None, 10), &src).unwrap();
    db.upsert_grpc_request(&grpc("b", "w1", None, 30), &src).unwrap();
    let original = db.get_grpc_request("a").unwrap();
    let copy = db.duplicate_grpc_request(&original, &src).unwrap();
    assert_eq!(copy.sort_priority, 20);
    assert_eq!(copy.id, "1");
    assert_eq!(db.get_grpc_request("b").unwrap().sort_priority, 30);
}

#[test]
fn duplicate_copies_payload_fields() {
    let mut db = DbContext::new();
    let src = UpdateSource::Sync;
    db.upsert_workspace(&ws("w1"), &src).unwrap();
    let mut r = http("a", "w1", None, 7);
    r.authentication_type = Some("bearer".to_string());
    r.authentication = vec![AuthEntry {
        name: "token".to_string(),
        value: serde_json::Value::String("abc".to_string()),
    }];
    r.headers = vec![HttpRequestHeader {
        enabled: true,
        name: "x-trace".to_string(),
        value: "on".to_string(),
    }];
    db.upsert_http_request(&r, &src).unwrap();
    let original = db.get_http_request("a").unwrap();
    let copy = db.duplicate_http_request(&original, &src).unwrap();
    assert_eq!(copy.authentication_type.as_deref(), Some("bearer"));
    assert_eq!(copy.authentication.len(), 1);
    assert_eq!(copy.authentication[0].name, "token");
    assert_eq!(
        copy.authentication[0].value,
        serde_json::Value::String("abc".to_string())
    );
    assert_eq!(copy.headers.len(), 1);
    assert_eq!(copy.headers[0].name, "x-trace");
}

#[test]
fn duplicate_with_equal_priority_sibling_keeps_key() {
    // stable ordering: the earlier-stored record comes first on ties, so
    // the midpoint of two equal keys is that same key
    let mut db = db_with(vec![http("a", "w1", None, 100), http("b", "w1", None, 100)]);
    let src = UpdateSource::Sync;
    let original = db.get_http_request("a").unwrap();
    let copy = db.duplicate_http_request(&original, &src).unwrap();
    assert_eq!(copy.sort_priority, 100);
}
