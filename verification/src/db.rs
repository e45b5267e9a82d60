use vstd::prelude::*;
use crate::models::{
    HttpRequest, GrpcRequest, Folder, Workspace, HttpResponse, GrpcConnection, ReqV, FolderV,
    WorkspaceV, RespV, ConnV, opt_view,
};
use crate::lookup::{first_idx, id_taken, ids_distinct, lemma_first_idx_found, lemma_first_idx_none};
use crate::ident::{decimal_of, decimal_string};

verus! {

pub open spec fn rviews_http(s: Seq<HttpRequest>) -> Seq<ReqV> {
    s.map_values(|r: HttpRequest| r@)
}

pub open spec fn rviews_grpc(s: Seq<GrpcRequest>) -> Seq<ReqV> {
    s.map_values(|r: GrpcRequest| r@)
}

pub open spec fn fviews(s: Seq<Folder>) -> Seq<FolderV> {
    s.map_values(|f: Folder| f@)
}

pub open spec fn wviews(s: Seq<Workspace>) -> Seq<WorkspaceV> {
    s.map_values(|w: Workspace| w@)
}

pub open spec fn respviews(s: Seq<HttpResponse>) -> Seq<RespV> {
    s.map_values(|r: HttpResponse| r@)
}

pub open spec fn connviews(s: Seq<GrpcConnection>) -> Seq<ConnV> {
    s.map_values(|c: GrpcConnection| c@)
}

pub open spec fn req_ids(s: Seq<ReqV>) -> Seq<Seq<char>> {
    s.map_values(|r: ReqV| r.id)
}

pub open spec fn folder_ids(s: Seq<FolderV>) -> Seq<Seq<char>> {
    s.map_values(|f: FolderV| f.id)
}

pub open spec fn ws_ids(s: Seq<WorkspaceV>) -> Seq<Seq<char>> {
    s.map_values(|w: WorkspaceV| w.id)
}

pub open spec fn resp_ids(s: Seq<RespV>) -> Seq<Seq<char>> {
    s.map_values(|r: RespV| r.id)
}

pub open spec fn conn_ids(s: Seq<ConnV>) -> Seq<Seq<char>> {
    s.map_values(|c: ConnV| c.id)
}

/// The mathematical state of the store: one row sequence per entity kind,
/// plus the counter from which fresh identifiers are minted.
pub ghost struct DbV {
    pub http_requests: Seq<ReqV>,
    pub grpc_requests: Seq<ReqV>,
    pub folders: Seq<FolderV>,
    pub workspaces: Seq<WorkspaceV>,
    pub http_responses: Seq<RespV>,
    pub grpc_connections: Seq<ConnV>,
    pub next_id: nat,
}

/// Store invariant: within each table, identifiers are pairwise distinct
/// and never the empty "not yet persisted" sentinel.
pub open spec fn db_inv(db: DbV) -> bool {
    &&& ids_distinct(req_ids(db.http_requests))
    &&& ids_distinct(req_ids(db.grpc_requests))
    &&& ids_distinct(folder_ids(db.folders))
    &&& ids_distinct(ws_ids(db.workspaces))
    &&& ids_distinct(resp_ids(db.http_responses))
    &&& ids_distinct(conn_ids(db.grpc_connections))
}

pub open spec fn find_req(rows: Seq<ReqV>, id: Seq<char>) -> Option<ReqV> {
    match first_idx(req_ids(rows), id) {
        None => None,
        Some(i) => Some(rows[i]),
    }
}

pub open spec fn find_folder(db: DbV, id: Seq<char>) -> Option<FolderV> {
    match first_idx(folder_ids(db.folders), id) {
        None => None,
        Some(i) => Some(db.folders[i]),
    }
}

pub open spec fn find_workspace(db: DbV, id: Seq<char>) -> Option<WorkspaceV> {
    match first_idx(ws_ids(db.workspaces), id) {
        None => None,
        Some(i) => Some(db.workspaces[i]),
    }
}

/// How one request table changes under an upsert. An empty given id
/// means creation: the row is appended under the freshly minted decimal
/// identifier and the counter advances; `res` is `None` exactly when the
/// counter is exhausted or the minted identifier collides with a stored
/// one. A nonempty id replaces the row holding that id, or appends.
pub open spec fn upsert_reqs_post(
    old_rows: Seq<ReqV>,
    old_next: nat,
    new_rows: Seq<ReqV>,
    new_next: nat,
    given: ReqV,
    res: Option<ReqV>,
) -> bool {
    if given.id.len() == 0 {
        if old_next < u64::MAX && !id_taken(req_ids(old_rows), decimal_of(old_next)) {
            &&& res == Some(ReqV { id: decimal_of(old_next), ..given })
            &&& new_rows == old_rows.push(ReqV { id: decimal_of(old_next), ..given })
            &&& new_next == old_next + 1
        } else {
            &&& res is None
            &&& new_rows == old_rows
            &&& new_next == old_next
        }
    } else {
        &&& new_next == old_next
        &&& res == Some(given)
        &&& match first_idx(req_ids(old_rows), given.id) {
            Some(i) => new_rows == old_rows.update(i, given),
            None => new_rows == old_rows.push(given),
        }
    }
}

/// An in-memory keyed repository for the request-collection entities.
/// Each table behaves like a store keyed by `id`; `next_id` supplies
/// fresh identities on insertion of records with the empty sentinel id.
pub struct DbContext {
    http_requests: Vec<HttpRequest>,
    grpc_requests: Vec<GrpcRequest>,
    folders: Vec<Folder>,
    workspaces: Vec<Workspace>,
    http_responses: Vec<HttpResponse>,
    grpc_connections: Vec<GrpcConnection>,
    next_id: u64,
}

impl View for DbContext {
    type V = DbV;

    closed spec fn view(&self) -> DbV {
        DbV {
            http_requests: rviews_http(self.http_requests@),
            grpc_requests: rviews_grpc(self.grpc_requests@),
            folders: fviews(self.folders@),
            workspaces: wviews(self.workspaces@),
            http_responses: respviews(self.http_responses@),
            grpc_connections: connviews(self.grpc_connections@),
            next_id: self.next_id as nat,
        }
    }
}

pub fn opt_str_eq(a: &Option<String>, b: &Option<String>) -> (r: bool)
    ensures
        r == (opt_view(*a) == opt_view(*b)),
{
    match a {
        None => matches!(b, None),
        Some(x) => match b {
            None => false,
            Some(y) => *x == *y,
        },
    }
}

impl DbContext {
    pub fn new() -> (db: DbContext)
        ensures
            db@.http_requests == Seq::<ReqV>::empty(),
            db@.grpc_requests == Seq::<ReqV>::empty(),
            db@.folders == Seq::<FolderV>::empty(),
            db@.workspaces == Seq::<WorkspaceV>::empty(),
            db@.http_responses == Seq::<RespV>::empty(),
            db@.grpc_connections == Seq::<ConnV>::empty(),
            db@.next_id == 1,
            db_inv(db@),
    {
        let db = DbContext {
            http_requests: Vec::new(),
            grpc_requests: Vec::new(),
            folders: Vec::new(),
            workspaces: Vec::new(),
            http_responses: Vec::new(),
            grpc_connections: Vec::new(),
            next_id: 1,
        };
        proof {
            assert(db@.http_requests =~= Seq::<ReqV>::empty());
            assert(db@.grpc_requests =~= Seq::<ReqV>::empty());
            assert(db@.folders =~= Seq::<FolderV>::empty());
            assert(db@.workspaces =~= Seq::<WorkspaceV>::empty());
            assert(db@.http_responses =~= Seq::<RespV>::empty());
            assert(db@.grpc_connections =~= Seq::<ConnV>::empty());
            assert(req_ids(db@.http_requests) =~= Seq::<Seq<char>>::empty());
            assert(req_ids(db@.grpc_requests) =~= Seq::<Seq<char>>::empty());
            assert(folder_ids(db@.folders) =~= Seq::<Seq<char>>::empty());
            assert(ws_ids(db@.workspaces) =~= Seq::<Seq<char>>::empty());
            assert(resp_ids(db@.http_responses) =~= Seq::<Seq<char>>::empty());
            assert(conn_ids(db@.grpc_connections) =~= Seq::<Seq<char>>::empty());
        }
        db
    }

    pub fn http_rows(&self) -> (r: &Vec<HttpRequest>)
        ensures
            rviews_http(r@) == self@.http_requests,
    {
        &self.http_requests
    }

    pub fn grpc_rows(&self) -> (r: &Vec<GrpcRequest>)
        ensures
            rviews_grpc(r@) == self@.grpc_requests,
    {
        &self.grpc_requests
    }

    pub fn folder_rows(&self) -> (r: &Vec<Folder>)
        ensures
            fviews(r@) == self@.folders,
    {
        &self.folders
    }

    pub fn workspace_rows(&self) -> (r: &Vec<Workspace>)
        ensures
            wviews(r@) == self@.workspaces,
    {
        &self.workspaces
    }

    pub fn http_response_rows(&self) -> (r: &Vec<HttpResponse>)
        ensures
            respviews(r@) == self@.http_responses,
    {
        &self.http_responses
    }

    pub fn grpc_connection_rows(&self) -> (r: &Vec<GrpcConnection>)
        ensures
            connviews(r@) == self@.grpc_connections,
    {
        &self.grpc_connections
    }

    pub fn push_http_row(&mut self, r: HttpRequest)
        ensures
            final(self)@ == (DbV {
                http_requests: old(self)@.http_requests.push(r@),
                ..old(self)@
            }),
    {
        self.http_requests.push(r);
        proof {
            assert(final(self)@.http_requests =~= old(self)@.http_requests.push(r@));
        }
    }

    pub fn set_http_row(&mut self, i: usize, r: HttpRequest)
        requires
            i < old(self)@.http_requests.len(),
        ensures
            final(self)@ == (DbV {
                http_requests: old(self)@.http_requests.update(i as int, r@),
                ..old(self)@
            }),
    {
        self.http_requests.remove(i);
        self.http_requests.insert(i, r);
        proof {
            assert(final(self)@.http_requests =~= old(self)@.http_requests.update(i as int, r@));
        }
    }

    pub fn remove_http_row(&mut self, i: usize) -> (r: HttpRequest)
        requires
            i < old(self)@.http_requests.len(),
        ensures
            r@ == old(self)@.http_requests[i as int],
            final(self)@ == (DbV {
                http_requests: old(self)@.http_requests.remove(i as int),
                ..old(self)@
            }),
    {
        let r = self.http_requests.remove(i);
        proof {
            assert(final(self)@.http_requests =~= old(self)@.http_requests.remove(i as int));
        }
        r
    }

    pub fn push_grpc_row(&mut self, r: GrpcRequest)
        ensures
            final(self)@ == (DbV {
                grpc_requests: old(self)@.grpc_requests.push(r@),
                ..old(self)@
            }),
    {
        self.grpc_requests.push(r);
        proof {
            assert(final(self)@.grpc_requests =~= old(self)@.grpc_requests.push(r@));
        }
    }

    pub fn set_grpc_row(&mut self, i: usize, r: GrpcRequest)
        requires
            i < old(self)@.grpc_requests.len(),
        ensures
            final(self)@ == (DbV {
                grpc_requests: old(self)@.grpc_requests.update(i as int, r@),
                ..old(self)@
            }),
    {
        self.grpc_requests.remove(i);
        self.grpc_requests.insert(i, r);
        proof {
            assert(final(self)@.grpc_requests =~= old(self)@.grpc_requests.update(i as int, r@));
        }
    }

    pub fn remove_grpc_row(&mut self, i: usize) -> (r: GrpcRequest)
        requires
            i < old(self)@.grpc_requests.len(),
        ensures
            r@ == old(self)@.grpc_requests[i as int],
            final(self)@ == (DbV {
                grpc_requests: old(self)@.grpc_requests.remove(i as int),
                ..old(self)@
            }),
    {
        let r = self.grpc_requests.remove(i);
        proof {
            assert(final(self)@.grpc_requests =~= old(self)@.grpc_requests.remove(i as int));
        }
        r
    }

    pub fn push_folder_row(&mut self, f: Folder)
        ensures
            final(self)@ == (DbV { folders: old(self)@.folders.push(f@), ..old(self)@ }),
    {
        self.folders.push(f);
        proof {
            assert(final(self)@.folders =~= old(self)@.folders.push(f@));
        }
    }

    pub fn set_folder_row(&mut self, i: usize, f: Folder)
        requires
            i < old(self)@.folders.len(),
        ensures
            final(self)@ == (DbV {
                folders: old(self)@.folders.update(i as int, f@),
                ..old(self)@
            }),
    {
        self.folders.remove(i);
        self.folders.insert(i, f);
        proof {
            assert(final(self)@.folders =~= old(self)@.folders.update(i as int, f@));
        }
    }

    pub fn push_workspace_row(&mut self, w: Workspace)
        ensures
            final(self)@ == (DbV { workspaces: old(self)@.workspaces.push(w@), ..old(self)@ }),
    {
        self.workspaces.push(w);
        proof {
            assert(final(self)@.workspaces =~= old(self)@.workspaces.push(w@));
        }
    }

    pub fn set_workspace_row(&mut self, i: usize, w: Workspace)
        requires
            i < old(self)@.workspaces.len(),
        ensures
            final(self)@ == (DbV {
                workspaces: old(self)@.workspaces.update(i as int, w@),
                ..old(self)@
            }),
    {
        self.workspaces.remove(i);
        self.workspaces.insert(i, w);
        proof {
            assert(final(self)@.workspaces =~= old(self)@.workspaces.update(i as int, w@));
        }
    }

    pub fn push_http_response_row(&mut self, r: HttpResponse)
        ensures
            final(self)@ == (DbV {
                http_responses: old(self)@.http_responses.push(r@),
                ..old(self)@
            }),
    {
        self.http_responses.push(r);
        proof {
            assert(final(self)@.http_responses =~= old(self)@.http_responses.push(r@));
        }
    }

    pub fn set_http_response_row(&mut self, i: usize, r: HttpResponse)
        requires
            i < old(self)@.http_responses.len(),
        ensures
            final(self)@ == (DbV {
                http_responses: old(self)@.http_responses.update(i as int, r@),
                ..old(self)@
            }),
    {
        self.http_responses.remove(i);
        self.http_responses.insert(i, r);
        proof {
            assert(final(self)@.http_responses =~= old(self)@.http_responses.update(
                i as int,
                r@,
            ));
        }
    }

    pub fn replace_http_responses(&mut self, rows: Vec<HttpResponse>)
        ensures
            final(self)@ == (DbV { http_responses: respviews(rows@), ..old(self)@ }),
    {
        self.http_responses = rows;
    }

    pub fn push_grpc_connection_row(&mut self, c: GrpcConnection)
        ensures
            final(self)@ == (DbV {
                grpc_connections: old(self)@.grpc_connections.push(c@),
                ..old(self)@
            }),
    {
        self.grpc_connections.push(c);
        proof {
            assert(final(self)@.grpc_connections =~= old(self)@.grpc_connections.push(c@));
        }
    }

    pub fn set_grpc_connection_row(&mut self, i: usize, c: GrpcConnection)
        requires
            i < old(self)@.grpc_connections.len(),
        ensures
            final(self)@ == (DbV {
                grpc_connections: old(self)@.grpc_connections.update(i as int, c@),
                ..old(self)@
            }),
    {
        self.grpc_connections.remove(i);
        self.grpc_connections.insert(i, c);
        proof {
            assert(final(self)@.grpc_connections =~= old(self)@.grpc_connections.update(
                i as int,
                c@,
            ));
        }
    }

    pub fn replace_grpc_connections(&mut self, rows: Vec<GrpcConnection>)
        ensures
            final(self)@ == (DbV { grpc_connections: connviews(rows@), ..old(self)@ }),
    {
        self.grpc_connections = rows;
    }

    /// The identifier the next created record would receive, or `None`
    /// when the counter is exhausted.
    pub fn candidate_id(&self) -> (r: Option<String>)
        ensures
            match r {
                Some(s) => self@.next_id < u64::MAX && s@ == decimal_of(self@.next_id),
                None => self@.next_id == u64::MAX,
            },
    {
        if self.next_id < u64::MAX {
            Some(decimal_string(self.next_id))
        } else {
            None
        }
    }

    pub fn bump_next_id(&mut self)
        requires
            old(self)@.next_id < u64::MAX,
        ensures
            final(self)@ == (DbV { next_id: old(self)@.next_id + 1, ..old(self)@ }),
    {
        self.next_id = self.next_id + 1;
    }
}

pub fn idx_of_http(rows: &Vec<HttpRequest>, id: &str) -> (r: Option<usize>)
    ensures
        match r {
            Some(i) => i < rows@.len() && first_idx(req_ids(rviews_http(rows@)), id@)
                == Some(i as int) && rviews_http(rows@)[i as int].id == id@,
            None => first_idx(req_ids(rviews_http(rows@)), id@) is None && !id_taken(
                req_ids(rviews_http(rows@)),
                id@,
            ),
        },
{
    let needle: String = id.to_owned();
    let n = rows.len();
    let mut i: usize = 0;
    while i < n
        invariant
            i <= n,
            n == rows@.len(),
            needle@ == id@,
            forall|j: int| 0 <= j < i ==> req_ids(rviews_http(rows@))[j] != id@,
        decreases n - i,
    {
        proof {
            assert(req_ids(rviews_http(rows@))[i as int] == rows@[i as int].id@);
        }
        if rows[i].id == needle {
            proof {
                lemma_first_idx_found(req_ids(rviews_http(rows@)), id@, i as int);
            }
            return Some(i);
        }
        i += 1;
    }
    proof {
        lemma_first_idx_none(req_ids(rviews_http(rows@)), id@);
    }
    None
}

pub fn idx_of_grpc(rows: &Vec<GrpcRequest>, id: &str) -> (r: Option<usize>)
    ensures
        match r {
            Some(i) => i < rows@.len() && first_idx(req_ids(rviews_grpc(rows@)), id@)
                == Some(i as int) && rviews_grpc(rows@)[i as int].id == id@,
            None => first_idx(req_ids(rviews_grpc(rows@)), id@) is None && !id_taken(
                req_ids(rviews_grpc(rows@)),
                id@,
            ),
        },
{
    let needle: String = id.to_owned();
    let n = rows.len();
    let mut i: usize = 0;
    while i < n
        invariant
            i <= n,
            n == rows@.len(),
            needle@ == id@,
            forall|j: int| 0 <= j < i ==> req_ids(rviews_grpc(rows@))[j] != id@,
        decreases n - i,
    {
        proof {
            assert(req_ids(rviews_grpc(rows@))[i as int] == rows@[i as int].id@);
        }
        if rows[i].id == needle {
            proof {
                lemma_first_idx_found(req_ids(rviews_grpc(rows@)), id@, i as int);
            }
            return Some(i);
        }
        i += 1;
    }
    proof {
        lemma_first_idx_none(req_ids(rviews_grpc(rows@)), id@);
    }
    None
}

pub fn idx_of_folder(rows: &Vec<Folder>, id: &str) -> (r: Option<usize>)
    ensures
        match r {
            Some(i) => i < rows@.len() && first_idx(folder_ids(fviews(rows@)), id@)
                == Some(i as int) && fviews(rows@)[i as int].id == id@,
            None => first_idx(folder_ids(fviews(rows@)), id@) is None && !id_taken(
                folder_ids(fviews(rows@)),
                id@,
            ),
        },
{
    let needle: String = id.to_owned();
    let n = rows.len();
    let mut i: usize = 0;
    while i < n
        invariant
            i <= n,
            n == rows@.len(),
            needle@ == id@,
            forall|j: int| 0 <= j < i ==> folder_ids(fviews(rows@))[j] != id@,
        decreases n - i,
    {
        proof {
            assert(folder_ids(fviews(rows@))[i as int] == rows@[i as int].id@);
        }
        if rows[i].id == needle {
            proof {
                lemma_first_idx_found(folder_ids(fviews(rows@)), id@, i as int);
            }
            return Some(i);
        }
        i += 1;
    }
    proof {
        lemma_first_idx_none(folder_ids(fviews(rows@)), id@);
    }
    None
}

pub fn idx_of_workspace(rows: &Vec<Workspace>, id: &str) -> (r: Option<usize>)
    ensures
        match r {
            Some(i) => i < rows@.len() && first_idx(ws_ids(wviews(rows@)), id@)
                == Some(i as int) && wviews(rows@)[i as int].id == id@,
            None => first_idx(ws_ids(wviews(rows@)), id@) is None && !id_taken(
                ws_ids(wviews(rows@)),
                id@,
            ),
        },
{
    let needle: String = id.to_owned();
    let n = rows.len();
    let mut i: usize = 0;
    while i < n
        invariant
            i <= n,
            n == rows@.len(),
            needle@ == id@,
            forall|j: int| 0 <= j < i ==> ws_ids(wviews(rows@))[j] != id@,
        decreases n - i,
    {
        proof {
            assert(ws_ids(wviews(rows@))[i as int] == rows@[i as int].id@);
        }
        if rows[i].id == needle {
            proof {
                lemma_first_idx_found(ws_ids(wviews(rows@)), id@, i as int);
            }
            return Some(i);
        }
        i += 1;
    }
    proof {
        lemma_first_idx_none(ws_ids(wviews(rows@)), id@);
    }
    None
}

pub fn idx_of_http_response(rows: &Vec<HttpResponse>, id: &str) -> (r: Option<usize>)
    ensures
        match r {
            Some(i) => i < rows@.len() && first_idx(resp_ids(respviews(rows@)), id@)
                == Some(i as int) && respviews(rows@)[i as int].id == id@,
            None => first_idx(resp_ids(respviews(rows@)), id@) is None && !id_taken(
                resp_ids(respviews(rows@)),
                id@,
            ),
        },
{
    let needle: String = id.to_owned();
    let n = rows.len();
    let mut i: usize = 0;
    while i < n
        invariant
            i <= n,
            n == rows@.len(),
            needle@ == id@,
            forall|j: int| 0 <= j < i ==> resp_ids(respviews(rows@))[j] != id@,
        decreases n - i,
    {
        proof {
            assert(resp_ids(respviews(rows@))[i as int] == rows@[i as int].id@);
        }
        if rows[i].id == needle {
            proof {
                lemma_first_idx_found(resp_ids(respviews(rows@)), id@, i as int);
            }
            return Some(i);
        }
        i += 1;
    }
    proof {
        lemma_first_idx_none(resp_ids(respviews(rows@)), id@);
    }
    None
}

pub fn idx_of_grpc_connection(rows: &Vec<GrpcConnection>, id: &str) -> (r: Option<usize>)
    ensures
        match r {
            Some(i) => i < rows@.len() && first_idx(conn_ids(connviews(rows@)), id@)
                == Some(i as int) && connviews(rows@)[i as int].id == id@,
            None => first_idx(conn_ids(connviews(rows@)), id@) is None && !id_taken(
                conn_ids(connviews(rows@)),
                id@,
            ),
        },
{
    let needle: String = id.to_owned();
    let n = rows.len();
    let mut i: usize = 0;
    while i < n
        invariant
            i <= n,
            n == rows@.len(),
            needle@ == id@,
            forall|j: int| 0 <= j < i ==> conn_ids(connviews(rows@))[j] != id@,
        decreases n - i,
    {
        proof {
            assert(conn_ids(connviews(rows@))[i as int] == rows@[i as int].id@);
        }
        if rows[i].id == needle {
            proof {
                lemma_first_idx_found(conn_ids(connviews(rows@)), id@, i as int);
            }
            return Some(i);
        }
        i += 1;
    }
    proof {
        lemma_first_idx_none(conn_ids(connviews(rows@)), id@);
    }
    None
}

} // verus!
