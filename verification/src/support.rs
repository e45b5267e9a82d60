use vstd::prelude::*;
use crate::models::{
    Error, UpdateSource, Folder, Workspace, HttpResponse, GrpcConnection, RespV, ConnV, clone_folder, clone_workspace, clone_http_response, clone_grpc_connection,
};
use crate::lookup::{first_idx, ids_distinct};
use crate::db::{
    DbContext, DbV, db_inv, folder_ids, ws_ids, resp_ids, conn_ids, respviews,
    connviews, idx_of_folder, idx_of_workspace, idx_of_http_response, idx_of_grpc_connection,
};

verus! {
pub proof fn lemma_filter_resp_distinct(s: Seq<RespV>, pred: spec_fn(RespV) -> bool)
    requires
        ids_distinct(resp_ids(s)),
    ensures
        ids_distinct(resp_ids(s.filter(pred))),
        forall|k: int| 0 <= k < s.filter(pred).len() ==> s.contains(#[trigger] s.filter(pred)[k]),
    decreases s.len(),
{
    reveal(Seq::filter);
    if s.len() > 0 {
        let d = s.drop_last();
        assert(ids_distinct(resp_ids(d))) by {
            assert(forall|i: int| 0 <= i < d.len() ==> resp_ids(d)[i] == resp_ids(s)[i]);
        }
        lemma_filter_resp_distinct(d, pred);
        let f0 = d.filter(pred);
        assert(forall|k: int| 0 <= k < f0.len() ==> s.contains(#[trigger] f0[k])) by {
            assert(forall|j: int| 0 <= j < d.len() ==> d[j] == s[j]);
        }
        if pred(s.last()) {
            let f = f0.push(s.last());
            assert(s.filter(pred) == f);
            assert(ids_distinct(resp_ids(f))) by {
                assert forall|a: int, b: int| 0 <= a < b < f.len() implies resp_ids(f)[a]
                    != resp_ids(f)[b] by {
                    if b == f.len() - 1 {
                        let ja = choose|ja: int| 0 <= ja < d.len() && d[ja] == f0[a];
                        assert(resp_ids(s)[ja] != resp_ids(s)[s.len() - 1]);
                    } else {
                        assert(resp_ids(f0)[a] != resp_ids(f0)[b]);
                    }
                }
                assert forall|a: int| 0 <= a < f.len() implies resp_ids(f)[a].len() > 0 by {
                    if a < f.len() - 1 {
                        assert(resp_ids(f0)[a].len() > 0);
                    } else {
                        assert(resp_ids(s)[s.len() - 1].len() > 0);
                    }
                }
            }
        }
    }
}

pub proof fn lemma_filter_conn_distinct(s: Seq<ConnV>, pred: spec_fn(ConnV) -> bool)
    requires
        ids_distinct(conn_ids(s)),
    ensures
        ids_distinct(conn_ids(s.filter(pred))),
        forall|k: int| 0 <= k < s.filter(pred).len() ==> s.contains(#[trigger] s.filter(pred)[k]),
    decreases s.len(),
{
    reveal(Seq::filter);
    if s.len() > 0 {
        let d = s.drop_last();
        assert(ids_distinct(conn_ids(d))) by {
            assert(forall|i: int| 0 <= i < d.len() ==> conn_ids(d)[i] == conn_ids(s)[i]);
        }
        lemma_filter_conn_distinct(d, pred);
        let f0 = d.filter(pred);
        assert(forall|k: int| 0 <= k < f0.len() ==> s.contains(#[trigger] f0[k])) by {
            assert(forall|j: int| 0 <= j < d.len() ==> d[j] == s[j]);
        }
        if pred(s.last()) {
            let f = f0.push(s.last());
            assert(s.filter(pred) == f);
            assert(ids_distinct(conn_ids(f))) by {
                assert forall|a: int, b: int| 0 <= a < b < f.len() implies conn_ids(f)[a]
                    != conn_ids(f)[b] by {
                    if b == f.len() - 1 {
                        let ja = choose|ja: int| 0 <= ja < d.len() && d[ja] == f0[a];
                        assert(conn_ids(s)[ja] != conn_ids(s)[s.len() - 1]);
                    } else {
                        assert(conn_ids(f0)[a] != conn_ids(f0)[b]);
                    }
                }
                assert forall|a: int| 0 <= a < f.len() implies conn_ids(f)[a].len() > 0 by {
                    if a < f.len() - 1 {
                        assert(conn_ids(f0)[a].len() > 0);
                    } else {
                        assert(conn_ids(s)[s.len() - 1].len() > 0);
                    }
                }
            }
        }
    }
}

impl DbContext {
    /// Inserts or replaces a workspace under its caller-supplied id; the
    /// empty sentinel id is a constraint violation here.
    pub fn upsert_workspace(&mut self, w: &Workspace, source: &UpdateSource) -> (res: Result<
        Workspace,
        Error,
    >)
        requires
            db_inv(old(self)@),
        ensures
            db_inv(final(self)@),
            final(self)@ == (DbV { workspaces: final(self)@.workspaces, ..old(self)@ }),
            match res {
                Ok(x) => x@ == w@ && w@.id.len() > 0 && match first_idx(
                    ws_ids(old(self)@.workspaces),
                    w@.id,
                ) {
                    Some(i) => final(self)@.workspaces == old(self)@.workspaces.update(i, w@),
                    None => final(self)@.workspaces == old(self)@.workspaces.push(w@),
                },
                Err(e) => e == Error::RepositoryFailure && w@.id.len() == 0 && final(self)@
                    == old(self)@,
            },
    {
        if w.id.as_str().is_empty() {
            return Err(Error::RepositoryFailure);
        }
        let c = clone_workspace(w);
        let idx = idx_of_workspace(self.workspace_rows(), w.id.as_str());
        match idx {
            Some(i) => {
                self.set_workspace_row(i, c);
                proof {
                    assert(ws_ids(self@.workspaces) =~= ws_ids(old(self)@.workspaces));
                }
                Ok(clone_workspace(w))
            },
            None => {
                self.push_workspace_row(c);
                proof {
                    let ids = ws_ids(self@.workspaces);
                    let olds = ws_ids(old(self)@.workspaces);
                    assert(ids =~= olds.push(w@.id));
                    assert forall|a: int, b: int| 0 <= a < b < ids.len() implies ids[a]
                        != ids[b] by {
                        if b == ids.len() - 1 {
                            assert(olds[a] != w@.id);
                        }
                    }
                }
                Ok(clone_workspace(w))
            },
        }
    }

    /// Inserts or replaces a folder under its caller-supplied id. The
    /// store's acyclicity of folder parentage is an external invariant;
    /// this core tolerates and detects violations during resolution.
    pub fn upsert_folder(&mut self, f: &Folder, source: &UpdateSource) -> (res: Result<
        Folder,
        Error,
    >)
        requires
            db_inv(old(self)@),
        ensures
            db_inv(final(self)@),
            final(self)@ == (DbV { folders: final(self)@.folders, ..old(self)@ }),
            match res {
                Ok(x) => x@ == f@ && f@.id.len() > 0 && match first_idx(
                    folder_ids(old(self)@.folders),
                    f@.id,
                ) {
                    Some(i) => final(self)@.folders == old(self)@.folders.update(i, f@),
                    None => final(self)@.folders == old(self)@.folders.push(f@),
                },
                Err(e) => e == Error::RepositoryFailure && f@.id.len() == 0 && final(self)@
                    == old(self)@,
            },
    {
        if f.id.as_str().is_empty() {
            return Err(Error::RepositoryFailure);
        }
        let c = clone_folder(f);
        let idx = idx_of_folder(self.folder_rows(), f.id.as_str());
        match idx {
            Some(i) => {
                self.set_folder_row(i, c);
                proof {
                    assert(folder_ids(self@.folders) =~= folder_ids(old(self)@.folders));
                }
                Ok(clone_folder(f))
            },
            None => {
                self.push_folder_row(c);
                proof {
                    let ids = folder_ids(self@.folders);
                    let olds = folder_ids(old(self)@.folders);
                    assert(ids =~= olds.push(f@.id));
                    assert forall|a: int, b: int| 0 <= a < b < ids.len() implies ids[a]
                        != ids[b] by {
                        if b == ids.len() - 1 {
                            assert(olds[a] != f@.id);
                        }
                    }
                }
                Ok(clone_folder(f))
            },
        }
    }

    /// Inserts or replaces a dependent child record of an HTTP-style
    /// request.
    pub fn upsert_http_response(&mut self, r: &HttpResponse, source: &UpdateSource) -> (res:
        Result<HttpResponse, Error>)
        requires
            db_inv(old(self)@),
        ensures
            db_inv(final(self)@),
            final(self)@ == (DbV { http_responses: final(self)@.http_responses, ..old(self)@ }),
            match res {
                Ok(x) => x@ == r@ && r@.id.len() > 0 && match first_idx(
                    resp_ids(old(self)@.http_responses),
                    r@.id,
                ) {
                    Some(i) => final(self)@.http_responses == old(self)@.http_responses.update(
                        i,
                        r@,
                    ),
                    None => final(self)@.http_responses == old(self)@.http_responses.push(r@),
                },
                Err(e) => e == Error::RepositoryFailure && r@.id.len() == 0 && final(self)@
                    == old(self)@,
            },
    {
        if r.id.as_str().is_empty() {
            return Err(Error::RepositoryFailure);
        }
        let c = clone_http_response(r);
        let idx = idx_of_http_response(self.http_response_rows(), r.id.as_str());
        match idx {
            Some(i) => {
                self.set_http_response_row(i, c);
                proof {
                    assert(resp_ids(self@.http_responses) =~= resp_ids(old(self)@.http_responses));
                }
                Ok(clone_http_response(r))
            },
            None => {
                self.push_http_response_row(c);
                proof {
                    let ids = resp_ids(self@.http_responses);
                    let olds = resp_ids(old(self)@.http_responses);
                    assert(ids =~= olds.push(r@.id));
                    assert forall|a: int, b: int| 0 <= a < b < ids.len() implies ids[a]
                        != ids[b] by {
                        if b == ids.len() - 1 {
                            assert(olds[a] != r@.id);
                        }
                    }
                }
                Ok(clone_http_response(r))
            },
        }
    }

    /// Inserts or replaces a dependent child record of an RPC-style
    /// request.
    pub fn upsert_grpc_connection(&mut self, r: &GrpcConnection, source: &UpdateSource) -> (res:
        Result<GrpcConnection, Error>)
        requires
            db_inv(old(self)@),
        ensures
            db_inv(final(self)@),
            final(self)@ == (DbV {
                grpc_connections: final(self)@.grpc_connections,
                ..old(self)@
            }),
            match res {
                Ok(x) => x@ == r@ && r@.id.len() > 0 && match first_idx(
                    conn_ids(old(self)@.grpc_connections),
                    r@.id,
                ) {
                    Some(i) => final(self)@.grpc_connections
                        == old(self)@.grpc_connections.update(i, r@),
                    None => final(self)@.grpc_connections == old(self)@.grpc_connections.push(r@),
                },
                Err(e) => e == Error::RepositoryFailure && r@.id.len() == 0 && final(self)@
                    == old(self)@,
            },
    {
        if r.id.as_str().is_empty() {
            return Err(Error::RepositoryFailure);
        }
        let c = clone_grpc_connection(r);
        let idx = idx_of_grpc_connection(self.grpc_connection_rows(), r.id.as_str());
        match idx {
            Some(i) => {
                self.set_grpc_connection_row(i, c);
                proof {
                    assert(conn_ids(self@.grpc_connections) =~= conn_ids(
                        old(self)@.grpc_connections,
                    ));
                }
                Ok(clone_grpc_connection(r))
            },
            None => {
                self.push_grpc_connection_row(c);
                proof {
                    let ids = conn_ids(self@.grpc_connections);
                    let olds = conn_ids(old(self)@.grpc_connections);
                    assert(ids =~= olds.push(r@.id));
                    assert forall|a: int, b: int| 0 <= a < b < ids.len() implies ids[a]
                        != ids[b] by {
                        if b == ids.len() - 1 {
                            assert(olds[a] != r@.id);
                        }
                    }
                }
                Ok(clone_grpc_connection(r))
            },
        }
    }

    /// All dependent child records of the HTTP-style request `request_id`.
    pub fn list_http_responses_for_request(&self, request_id: &str) -> (r: Vec<HttpResponse>)
        ensures
            respviews(r@) == self@.http_responses.filter(
                |x: RespV| x.request_id == request_id@,
            ),
    {
        let rows = self.http_response_rows();
        let needle: String = request_id.to_owned();
        let mut out: Vec<HttpResponse> = Vec::new();
        let n = rows.len();
        let mut i: usize = 0;
        proof {
            reveal(Seq::filter);
            assert(respviews(rows@).subrange(0, 0).filter(|x: RespV| x.request_id == request_id@)
                =~= respviews(out@));
        }
        while i < n
            invariant
                i <= n,
                n == rows@.len(),
                needle@ == request_id@,
                respviews(rows@) == self@.http_responses,
                respviews(out@) == respviews(rows@).subrange(0, i as int).filter(
                    |x: RespV| x.request_id == request_id@,
                ),
            decreases n - i,
        {
            let ghost s = respviews(rows@);
            let ghost pred = |x: RespV| x.request_id == request_id@;
            proof {
                reveal(Seq::filter);
                assert(s.subrange(0, i + 1).drop_last() =~= s.subrange(0, i as int));
                assert(s.subrange(0, i + 1).last() == s[i as int]);
                assert(s[i as int] == rows@[i as int]@);
            }
            if rows[i].request_id == needle {
                let ghost before = respviews(out@);
                out.push(clone_http_response(&rows[i]));
                proof {
                    assert(respviews(out@) =~= before.push(rows@[i as int]@));
                    assert(pred(s[i as int]));
                    assert(s.subrange(0, i + 1).filter(pred) == before.push(s[i as int]));
                }
            } else {
                proof {
                    assert(!pred(s[i as int]));
                    assert(s.subrange(0, i + 1).filter(pred) == s.subrange(0, i as int).filter(
                        pred,
                    ));
                }
            }
            i += 1;
        }
        proof {
            assert(respviews(rows@).subrange(0, n as int) =~= respviews(rows@));
        }
        out
    }

    /// All dependent child records of the RPC-style request `request_id`.
    pub fn list_grpc_connections_for_request(&self, request_id: &str) -> (r: Vec<GrpcConnection>)
        ensures
            connviews(r@) == self@.grpc_connections.filter(
                |x: ConnV| x.request_id == request_id@,
            ),
    {
        let rows = self.grpc_connection_rows();
        let needle: String = request_id.to_owned();
        let mut out: Vec<GrpcConnection> = Vec::new();
        let n = rows.len();
        let mut i: usize = 0;
        proof {
            reveal(Seq::filter);
            assert(connviews(rows@).subrange(0, 0).filter(|x: ConnV| x.request_id == request_id@)
                =~= connviews(out@));
        }
        while i < n
            invariant
                i <= n,
                n == rows@.len(),
                needle@ == request_id@,
                connviews(rows@) == self@.grpc_connections,
                connviews(out@) == connviews(rows@).subrange(0, i as int).filter(
                    |x: ConnV| x.request_id == request_id@,
                ),
            decreases n - i,
        {
            let ghost s = connviews(rows@);
            let ghost pred = |x: ConnV| x.request_id == request_id@;
            proof {
                reveal(Seq::filter);
                assert(s.subrange(0, i + 1).drop_last() =~= s.subrange(0, i as int));
                assert(s.subrange(0, i + 1).last() == s[i as int]);
                assert(s[i as int] == rows@[i as int]@);
            }
            if rows[i].request_id == needle {
                let ghost before = connviews(out@);
                out.push(clone_grpc_connection(&rows[i]));
                proof {
                    assert(connviews(out@) =~= before.push(rows@[i as int]@));
                    assert(pred(s[i as int]));
                    assert(s.subrange(0, i + 1).filter(pred) == before.push(s[i as int]));
                }
            } else {
                proof {
                    assert(!pred(s[i as int]));
                    assert(s.subrange(0, i + 1).filter(pred) == s.subrange(0, i as int).filter(
                        pred,
                    ));
                }
            }
            i += 1;
        }
        proof {
            assert(connviews(rows@).subrange(0, n as int) =~= connviews(rows@));
        }
        out
    }

    /// Cascading-delete helper: removes every dependent child record of
    /// the HTTP-style request `request_id`.
    pub fn delete_all_http_responses_for_request(
        &mut self,
        request_id: &str,
        source: &UpdateSource,
    )
        requires
            db_inv(old(self)@),
        ensures
            db_inv(final(self)@),
            final(self)@ == (DbV {
                http_responses: old(self)@.http_responses.filter(
                    |x: RespV| x.request_id != request_id@,
                ),
                ..old(self)@
            }),
    {
        let rows = self.http_response_rows();
        let needle: String = request_id.to_owned();
        let mut kept: Vec<HttpResponse> = Vec::new();
        let n = rows.len();
        let mut i: usize = 0;
        proof {
            reveal(Seq::filter);
            assert(respviews(rows@).subrange(0, 0).filter(|x: RespV| x.request_id != request_id@)
                =~= respviews(kept@));
        }
        while i < n
            invariant
                i <= n,
                n == rows@.len(),
                needle@ == request_id@,
                respviews(rows@) == old(self)@.http_responses,
                self@ == old(self)@,
                respviews(kept@) == respviews(rows@).subrange(0, i as int).filter(
                    |x: RespV| x.request_id != request_id@,
                ),
            decreases n - i,
        {
            let ghost s = respviews(rows@);
            let ghost pred = |x: RespV| x.request_id != request_id@;
            proof {
                reveal(Seq::filter);
                assert(s.subrange(0, i + 1).drop_last() =~= s.subrange(0, i as int));
                assert(s.subrange(0, i + 1).last() == s[i as int]);
                assert(s[i as int] == rows@[i as int]@);
            }
            if !(rows[i].request_id == needle) {
                let ghost before = respviews(kept@);
                kept.push(clone_http_response(&rows[i]));
                proof {
                    assert(respviews(kept@) =~= before.push(rows@[i as int]@));
                    assert(pred(s[i as int]));
                    assert(s.subrange(0, i + 1).filter(pred) == before.push(s[i as int]));
                }
            } else {
                proof {
                    assert(!pred(s[i as int]));
                    assert(s.subrange(0, i + 1).filter(pred) == s.subrange(0, i as int).filter(
                        pred,
                    ));
                }
            }
            i += 1;
        }
        proof {
            assert(respviews(rows@).subrange(0, n as int) =~= old(self)@.http_responses);
        }
        self.replace_http_responses(kept);
        proof {
            lemma_filter_resp_distinct(
                old(self)@.http_responses,
                |x: RespV| x.request_id != request_id@,
            );
        }
    }

    /// Cascading-delete helper: removes every dependent child record of
    /// the RPC-style request `request_id`.
    pub fn delete_all_grpc_connections_for_request(
        &mut self,
        request_id: &str,
        source: &UpdateSource,
    )
        requires
            db_inv(old(self)@),
        ensures
            db_inv(final(self)@),
            final(self)@ == (DbV {
                grpc_connections: old(self)@.grpc_connections.filter(
                    |x: ConnV| x.request_id != request_id@,
                ),
                ..old(self)@
            }),
    {
        let rows = self.grpc_connection_rows();
        let needle: String = request_id.to_owned();
        let mut kept: Vec<GrpcConnection> = Vec::new();
        let n = rows.len();
        let mut i: usize = 0;
        proof {
            reveal(Seq::filter);
            assert(connviews(rows@).subrange(0, 0).filter(|x: ConnV| x.request_id != request_id@)
                =~= connviews(kept@));
        }
        while i < n
            invariant
                i <= n,
                n == rows@.len(),
                needle@ == request_id@,
                connviews(rows@) == old(self)@.grpc_connections,
                self@ == old(self)@,
                connviews(kept@) == connviews(rows@).subrange(0, i as int).filter(
                    |x: ConnV| x.request_id != request_id@,
                ),
            decreases n - i,
        {
            let ghost s = connviews(rows@);
            let ghost pred = |x: ConnV| x.request_id != request_id@;
            proof {
                reveal(Seq::filter);
                assert(s.subrange(0, i + 1).drop_last() =~= s.subrange(0, i as int));
                assert(s.subrange(0, i + 1).last() == s[i as int]);
                assert(s[i as int] == rows@[i as int]@);
            }
            if !(rows[i].request_id == needle) {
                let ghost before = connviews(kept@);
                kept.push(clone_grpc_connection(&rows[i]));
                proof {
                    assert(connviews(kept@) =~= before.push(rows@[i as int]@));
                    assert(pred(s[i as int]));
                    assert(s.subrange(0, i + 1).filter(pred) == before.push(s[i as int]));
                }
            } else {
                proof {
                    assert(!pred(s[i as int]));
                    assert(s.subrange(0, i + 1).filter(pred) == s.subrange(0, i as int).filter(
                        pred,
                    ));
                }
            }
            i += 1;
        }
        proof {
            assert(connviews(rows@).subrange(0, n as int) =~= old(self)@.grpc_connections);
        }
        self.replace_grpc_connections(kept);
        proof {
            lemma_filter_conn_distinct(
                old(self)@.grpc_connections,
                |x: ConnV| x.request_id != request_id@,
            );
        }
    }
}

} // verus!
