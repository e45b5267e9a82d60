use vstd::prelude::*;
use crate::models::{
    Error, UpdateSource, GrpcRequest, AuthEntry, HttpRequestHeader, ReqV, ConnV, HeaderV,
    clone_grpc_request, clone_opt_string, clone_auth_entries, clone_headers,
};
use crate::lookup::{first_idx, id_taken, lemma_first_idx_props};
use crate::ident::{decimal_of, lemma_decimal_nonempty};
use crate::ordering::{
    SiblingKey, KeyV, kviews, keys_of, sibling_pred, dup_priority_in, sort_keys, next_priority,
};
use crate::db::{
    DbContext, DbV, db_inv, find_req, req_ids, rviews_grpc, idx_of_grpc, upsert_reqs_post,
    opt_str_eq,
};
use crate::resolve::{AuthV, auth_val, req_auth_spec, req_headers_spec, hviews};

verus! {
impl DbContext {
    pub fn get_grpc_request(&self, id: &str) -> (r: Result<GrpcRequest, Error>)
        ensures
            match r {
                Ok(x) => find_req(self@.grpc_requests, id@) == Some(x@),
                Err(e) => e == Error::NotFound && find_req(self@.grpc_requests, id@) is None,
            },
    {
        let rows = self.grpc_rows();
        match idx_of_grpc(rows, id) {
            Some(i) => {
                proof {
                    assert(rviews_grpc(rows@)[i as int] == rows@[i as int]@);
                }
                Ok(clone_grpc_request(&rows[i]))
            },
            None => Err(Error::NotFound),
        }
    }

    pub fn list_grpc_requests(&self, workspace_id: &str) -> (r: Result<Vec<GrpcRequest>, Error>)
        ensures
            r matches Ok(v) && rviews_grpc(v@) == self@.grpc_requests.filter(
                |x: ReqV| x.workspace_id == workspace_id@,
            ),
    {
        let rows = self.grpc_rows();
        let needle: String = workspace_id.to_owned();
        let mut out: Vec<GrpcRequest> = Vec::new();
        let n = rows.len();
        let mut i: usize = 0;
        proof {
            reveal(Seq::filter);
            assert(rviews_grpc(rows@).subrange(0, 0).filter(
                |x: ReqV| x.workspace_id == workspace_id@,
            ) =~= rviews_grpc(out@));
        }
        while i < n
            invariant
                i <= n,
                n == rows@.len(),
                needle@ == workspace_id@,
                rviews_grpc(rows@) == self@.grpc_requests,
                rviews_grpc(out@) == rviews_grpc(rows@).subrange(0, i as int).filter(
                    |x: ReqV| x.workspace_id == workspace_id@,
                ),
            decreases n - i,
        {
            let ghost s = rviews_grpc(rows@);
            let ghost pred = |x: ReqV| x.workspace_id == workspace_id@;
            proof {
                reveal(Seq::filter);
                assert(s.subrange(0, i + 1).drop_last() =~= s.subrange(0, i as int));
                assert(s.subrange(0, i + 1).last() == s[i as int]);
                assert(s[i as int] == rows@[i as int]@);
            }
            if rows[i].workspace_id == needle {
                let ghost before = rviews_grpc(out@);
                out.push(clone_grpc_request(&rows[i]));
                proof {
                    assert(rviews_grpc(out@) =~= before.push(rows@[i as int]@));
                    assert(pred(s[i as int]));
                    assert(s.subrange(0, i + 1).filter(pred) == before.push(s[i as int]));
                }
            } else {
                proof {
                    assert(!pred(s[i as int]));
                    assert(s.subrange(0, i + 1).filter(pred) == s.subrange(0, i as int).filter(
                        pred,
                    ));
                }
            }
            i += 1;
        }
        proof {
            assert(rviews_grpc(rows@).subrange(0, n as int) =~= rviews_grpc(rows@));
        }
        Ok(out)
    }

    /// Deletes a request, cascading first to its dependent child records.
    pub fn delete_grpc_request(&mut self, m: &GrpcRequest, source: &UpdateSource) -> (res: Result<
        GrpcRequest,
        Error,
    >)
        requires
            db_inv(old(self)@),
        ensures
            db_inv(final(self)@),
            final(self)@.grpc_connections == old(self)@.grpc_connections.filter(
                |x: ConnV| x.request_id != m@.id,
            ),
            final(self)@ == (DbV {
                grpc_requests: final(self)@.grpc_requests,
                grpc_connections: final(self)@.grpc_connections,
                ..old(self)@
            }),
            match res {
                Ok(x) => match first_idx(req_ids(old(self)@.grpc_requests), m@.id) {
                    Some(i) => x@ == old(self)@.grpc_requests[i] && final(self)@.grpc_requests
                        == old(self)@.grpc_requests.remove(i),
                    None => false,
                },
                Err(e) => e == Error::NotFound && first_idx(
                    req_ids(old(self)@.grpc_requests),
                    m@.id,
                ) is None && final(self)@.grpc_requests == old(self)@.grpc_requests,
            },
    {
        self.delete_all_grpc_connections_for_request(m.id.as_str(), source);
        let idx = idx_of_grpc(self.grpc_rows(), m.id.as_str());
        match idx {
            Some(i) => {
                let r = self.remove_grpc_row(i);
                proof {
                    let olds = req_ids(old(self)@.grpc_requests);
                    let news = req_ids(self@.grpc_requests);
                    assert(news =~= olds.remove(i as int));
                    assert forall|a: int, b: int| 0 <= a < b < news.len() implies news[a]
                        != news[b] by {
                        let a2: int = if a < i as int {
                            a
                        } else {
                            a + 1
                        };
                        let b2: int = if b < i as int {
                            b
                        } else {
                            b + 1
                        };
                        assert(news[a] == olds[a2]);
                        assert(news[b] == olds[b2]);
                    }
                    assert forall|a: int| 0 <= a < news.len() implies news[a].len() > 0 by {
                        let a2: int = if a < i as int {
                            a
                        } else {
                            a + 1
                        };
                        assert(news[a] == olds[a2]);
                    }
                }
                Ok(r)
            },
            None => Err(Error::NotFound),
        }
    }

    /// Looks the request up by id, then deletes it with its dependents;
    /// a missing id fails before anything is removed.
    pub fn delete_grpc_request_by_id(&mut self, id: &str, source: &UpdateSource) -> (res: Result<
        GrpcRequest,
        Error,
    >)
        requires
            db_inv(old(self)@),
        ensures
            db_inv(final(self)@),
            final(self)@ == (DbV {
                grpc_requests: final(self)@.grpc_requests,
                grpc_connections: final(self)@.grpc_connections,
                ..old(self)@
            }),
            match res {
                Ok(x) => match first_idx(req_ids(old(self)@.grpc_requests), id@) {
                    Some(i) => x@ == old(self)@.grpc_requests[i] && final(self)@.grpc_requests
                        == old(self)@.grpc_requests.remove(i) && final(self)@.grpc_connections
                        == old(self)@.grpc_connections.filter(|c: ConnV| c.request_id != id@),
                    None => false,
                },
                Err(e) => e == Error::NotFound && first_idx(
                    req_ids(old(self)@.grpc_requests),
                    id@,
                ) is None && final(self)@ == old(self)@,
            },
    {
        let request = match self.get_grpc_request(id) {
            Ok(r) => r,
            Err(e) => {
                proof {
                    lemma_first_idx_props(req_ids(self@.grpc_requests), id@);
                }
                return Err(e);
            },
};
        proof {
            lemma_first_idx_props(req_ids(self@.grpc_requests), id@);
        }
        self.delete_grpc_request(&request, source)
    }

    /// Persists a copy of `grpc_request` placed immediately after it
    /// among its siblings: the copy's key is the midpoint to the next
    /// sibling, or the source's key plus a large gap when none follows.
    /// No other sibling's key is touched.
    pub fn duplicate_grpc_request(&mut self, grpc_request: &GrpcRequest, source: &UpdateSource)
        -> (res: Result<GrpcRequest, Error>)
        requires
            db_inv(old(self)@),
        ensures
            db_inv(final(self)@),
            final(self)@ == (DbV {
                grpc_requests: final(self)@.grpc_requests,
                next_id: final(self)@.next_id,
                ..old(self)@
            }),
            match res {
                Ok(new) => {
                    &&& new@ == (ReqV {
                        id: decimal_of(old(self)@.next_id),
                        sort_priority: dup_priority_in(old(self)@.grpc_requests, grpc_request@),
                        ..grpc_request@
                    })
                    &&& final(self)@.grpc_requests == old(self)@.grpc_requests.push(new@)
                    &&& final(self)@.next_id == old(self)@.next_id + 1
                },
                Err(e) => e == Error::RepositoryFailure && final(self)@ == old(self)@ && !(old(
                    self,
                )@.next_id < u64::MAX && !id_taken(
                    req_ids(old(self)@.grpc_requests),
                    decimal_of(old(self)@.next_id),
                )),
            },
    {
        let rows = self.grpc_rows();
        let mut keys: Vec<SiblingKey> = Vec::new();
        let n = rows.len();
        let mut i: usize = 0;
        let ghost pred = |x: ReqV| sibling_pred(x, grpc_request@.workspace_id, grpc_request@.folder_id);
        proof {
            reveal(Seq::filter);
            assert(kviews(keys@) =~= keys_of(rviews_grpc(rows@).subrange(0, 0).filter(pred)));
        }
        while i < n
            invariant
                i <= n,
                n == rows@.len(),
                rviews_grpc(rows@) == self@.grpc_requests,
                pred == (|x: ReqV| sibling_pred(
                    x,
                    grpc_request@.workspace_id,
                    grpc_request@.folder_id,
                )),
                kviews(keys@) == keys_of(rviews_grpc(rows@).subrange(0, i as int).filter(pred)),
            decreases n - i,
        {
            let ghost s = rviews_grpc(rows@);
            proof {
                reveal(Seq::filter);
                assert(s.subrange(0, i + 1).drop_last() =~= s.subrange(0, i as int));
                assert(s.subrange(0, i + 1).last() == s[i as int]);
                assert(s[i as int] == rows@[i as int]@);
            }
            let same_ws = rows[i].workspace_id == grpc_request.workspace_id;
            let same_folder = opt_str_eq(&rows[i].folder_id, &grpc_request.folder_id);
            if same_ws && same_folder {
                let ghost before = kviews(keys@);
                keys.push(SiblingKey { id: rows[i].id.clone(), sort_priority: rows[i].sort_priority });
                proof {
                    assert(pred(s[i as int]));
                    assert(s.subrange(0, i + 1).filter(pred) == s.subrange(0, i as int).filter(
                        pred,
                    ).push(s[i as int]));
                    assert(kviews(keys@) =~= before.push(
                        KeyV { id: s[i as int].id, sort_priority: s[i as int].sort_priority },
                    ));
                    assert(keys_of(s.subrange(0, i + 1).filter(pred)) =~= keys_of(
                        s.subrange(0, i as int).filter(pred),
                    ).push(KeyV { id: s[i as int].id, sort_priority: s[i as int].sort_priority }));
                }
            } else {
                proof {
                    assert(!pred(s[i as int]));
                    assert(s.subrange(0, i + 1).filter(pred) == s.subrange(0, i as int).filter(
                        pred,
                    ));
                }
            }
            i += 1;
        }
        proof {
            assert(rviews_grpc(rows@).subrange(0, n as int) =~= rviews_grpc(rows@));
        }
        let sorted = sort_keys(keys);
        let p = next_priority(&sorted, &grpc_request.id, grpc_request.sort_priority);
        proof {
            assert(p as int == dup_priority_in(old(self)@.grpc_requests, grpc_request@));
        }
        let mut new_request = clone_grpc_request(grpc_request);
        new_request.id = String::new();
        new_request.sort_priority = p;
        let res = self.upsert_grpc_request(&new_request, source);
        proof {
            assert(new_request@ == (ReqV {
                id: Seq::<char>::empty(),
                sort_priority: p as int,
                ..grpc_request@
            }));
            assert(new_request@.id.len() == 0);
        }
        res
    }

    /// Inserts or replaces a request. The empty sentinel id asks the
    /// repository to assign a fresh identity.
    pub fn upsert_grpc_request(&mut self, grpc_request: &GrpcRequest, source: &UpdateSource)
        -> (res: Result<GrpcRequest, Error>)
        requires
            db_inv(old(self)@),
        ensures
            db_inv(final(self)@),
            final(self)@ == (DbV {
                grpc_requests: final(self)@.grpc_requests,
                next_id: final(self)@.next_id,
                ..old(self)@
            }),
            upsert_reqs_post(
                old(self)@.grpc_requests,
                old(self)@.next_id,
                final(self)@.grpc_requests,
                final(self)@.next_id,
                grpc_request@,
                match res {
                    Ok(x) => Some(x@),
                    Err(_) => None,
                },
            ),
            res matches Err(e) ==> e == Error::RepositoryFailure && final(self)@ == old(self)@,
    {
        if grpc_request.id.as_str().is_empty() {
            let fresh = match self.candidate_id() {
                Some(s) => s,
                None => {
                    return Err(Error::RepositoryFailure);
                },
};
            let cur_rows = self.grpc_rows();
            let taken = idx_of_grpc(cur_rows, fresh.as_str());
            match taken {
                Some(j) => {
                    proof {
                        assert(id_taken(
                            req_ids(old(self)@.grpc_requests),
                            decimal_of(old(self)@.next_id),
                        )) by {
                            assert(req_ids(rviews_grpc(cur_rows@))[j as int]
                                == rviews_grpc(cur_rows@)[j as int].id);
                        }
                    }
                    Err(Error::RepositoryFailure)
                },
                None => {
                    let mut c = clone_grpc_request(grpc_request);
                    c.id = fresh;
                    let ret = clone_grpc_request(&c);
                    self.push_grpc_row(c);
                    self.bump_next_id();
                    proof {
                        lemma_decimal_nonempty(old(self)@.next_id);
                        let olds = req_ids(old(self)@.grpc_requests);
                        let news = req_ids(self@.grpc_requests);
                        assert(news =~= olds.push(decimal_of(old(self)@.next_id)));
                        assert forall|a: int, b: int| 0 <= a < b < news.len() implies news[a]
                            != news[b] by {
                            if b == news.len() - 1 {
                                assert(olds[a] != decimal_of(old(self)@.next_id));
                            }
                        }
                        assert(ret@ == (ReqV {
                            id: decimal_of(old(self)@.next_id),
                            ..grpc_request@
                        }));
                    }
                    Ok(ret)
                },
            }
        } else {
            let c = clone_grpc_request(grpc_request);
            let idx = idx_of_grpc(self.grpc_rows(), grpc_request.id.as_str());
            match idx {
                Some(i) => {
                    self.set_grpc_row(i, c);
                    proof {
                        assert(req_ids(self@.grpc_requests) =~= req_ids(
                            old(self)@.grpc_requests,
                        ));
                    }
                    Ok(clone_grpc_request(grpc_request))
                },
                None => {
                    self.push_grpc_row(c);
                    proof {
                        let olds = req_ids(old(self)@.grpc_requests);
                        let news = req_ids(self@.grpc_requests);
                        assert(news =~= olds.push(grpc_request@.id));
                        assert forall|a: int, b: int| 0 <= a < b < news.len() implies news[a]
                            != news[b] by {
                            if b == news.len() - 1 {
                                assert(olds[a] != grpc_request@.id);
                            }
                        }
                    }
                    Ok(clone_grpc_request(grpc_request))
                },
            }
        }
    }

    /// Effective authentication of a request: its own settings when it
    /// sets a type; otherwise the owning folder's resolution, or the
    /// workspace base when it has no folder.
    pub fn resolve_auth_for_grpc_request(&self, grpc_request: &GrpcRequest) -> (r: Result<
        (Option<String>, Vec<AuthEntry>, String),
        Error,
    >)
        ensures
            match r {
                Ok(t) => req_auth_spec(self@, grpc_request@) == Ok::<AuthV, Error>(auth_val(t)),
                Err(e) => req_auth_spec(self@, grpc_request@) == Err::<AuthV, Error>(e),
            },
    {
        if grpc_request.authentication_type.is_some() {
            return Ok((
                clone_opt_string(&grpc_request.authentication_type),
                clone_auth_entries(&grpc_request.authentication),
                grpc_request.id.clone(),
            ));
        }
        match &grpc_request.folder_id {
            Some(fid) => {
                let folder = match self.get_folder(fid.as_str()) {
                    Ok(f) => f,
                    Err(e) => {
                        return Err(e);
                    },
};
                self.resolve_auth_for_folder(&folder)
            },
            None => {
                let ws = match self.get_workspace(grpc_request.workspace_id.as_str()) {
                    Ok(w) => w,
                    Err(e) => {
                        return Err(e);
                    },
};
                Ok(self.resolve_auth_for_workspace(&ws))
            },
        }
    }

    /// Effective metadata of a request: the ancestor chain's resolved
    /// sequence first, the request's own entries appended in order.
    pub fn resolve_metadata_for_grpc_request(&self, grpc_request: &GrpcRequest) -> (r: Result<
        Vec<HttpRequestHeader>,
        Error,
    >)
        ensures
            match r {
                Ok(v) => req_headers_spec(self@, grpc_request@) == Ok::<Seq<HeaderV>, Error>(
                    hviews(v@),
                ),
                Err(e) => req_headers_spec(self@, grpc_request@) == Err::<Seq<HeaderV>, Error>(e),
            },
    {
        let mut metadata: Vec<HttpRequestHeader>;
        match &grpc_request.folder_id {
            Some(fid) => {
                let parent_folder = match self.get_folder(fid.as_str()) {
                    Ok(f) => f,
                    Err(e) => {
                        return Err(e);
                    },
};
                metadata = match self.resolve_headers_for_folder(&parent_folder) {
                    Ok(v) => v,
                    Err(e) => {
                        return Err(e);
                    },
};
            },
            None => {
                let ws = match self.get_workspace(grpc_request.workspace_id.as_str()) {
                    Ok(w) => w,
                    Err(e) => {
                        return Err(e);
                    },
};
                metadata = self.resolve_headers_for_workspace(&ws);
            },
        }
        let ghost anc = hviews(metadata@);
        let mut own = clone_headers(&grpc_request.metadata);
        metadata.append(&mut own);
        proof {
            assert(hviews(metadata@) =~= anc + grpc_request@.headers);
        }
        Ok(metadata)
    }
}

} // verus!
