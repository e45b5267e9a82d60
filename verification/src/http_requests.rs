use vstd::prelude::*;
use crate::models::{
    Error, UpdateSource, HttpRequest, AuthEntry, HttpRequestHeader, ReqV, RespV, FolderV,
    clone_http_request, clone_opt_string, clone_auth_entries, clone_headers, HeaderV,
};
use crate::lookup::{first_idx, id_taken, lemma_first_idx_props};
use crate::ident::{decimal_of, lemma_decimal_nonempty};
use crate::ordering::{
    SiblingKey, KeyV, kviews, keys_of, sibling_pred, dup_priority_in, sort_keys, next_priority,
};
use crate::db::{
    DbContext, DbV, db_inv, find_req, req_ids, rviews_http, fviews, idx_of_http, upsert_reqs_post,
    opt_str_eq,
};
use crate::resolve::{AuthV, auth_val, req_auth_spec, req_headers_spec, hviews};

verus! {

/// Identifiers of the folders whose parent is `fid`, in table order.
pub open spec fn child_folder_ids(db: DbV, fid: Seq<char>) -> Seq<Seq<char>> {
    db.folders.filter(|f: FolderV| f.folder_id == Some(fid)).map_values(|f: FolderV| f.id)
}

/// Depth-first recursive listing: every request transitively contained
/// in folder `fid` — each child folder's listing in full, then the
/// folder's own direct requests. `fuel` bounds the descent; with an
/// acyclic folder table it is never exhausted.
pub open spec fn folder_listing(db: DbV, fid: Seq<char>, fuel: nat) -> Result<Seq<ReqV>, Error>
    decreases fuel, 0int, 0int,
{
    if fuel == 0 {
        Err(Error::RepositoryFailure)
    } else {
        match listing_kids(db, child_folder_ids(db, fid), (fuel - 1) as nat) {
            Err(e) => Err(e),
            Ok(from_kids) => Ok(
                from_kids + db.http_requests.filter(|r: ReqV| r.folder_id == Some(fid)),
            ),
        }
    }
}

pub open spec fn listing_kids(db: DbV, kid_ids: Seq<Seq<char>>, fuel: nat) -> Result<
    Seq<ReqV>,
    Error,
>
    decreases fuel, 1int, kid_ids.len(),
{
    if kid_ids.len() == 0 {
        Ok(Seq::empty())
    } else {
        match folder_listing(db, kid_ids[0], fuel) {
            Err(e) => Err(e),
            Ok(first) => match listing_kids(db, kid_ids.drop_first(), fuel) {
                Err(e) => Err(e),
                Ok(rest) => Ok(first + rest),
            },
        }
    }
}

pub open spec fn strviews(s: Seq<String>) -> Seq<Seq<char>> {
    s.map_values(|x: String| x@)
}

impl DbContext {
    pub fn get_http_request(&self, id: &str) -> (r: Result<HttpRequest, Error>)
        ensures
            match r {
                Ok(x) => find_req(self@.http_requests, id@) == Some(x@),
                Err(e) => e == Error::NotFound && find_req(self@.http_requests, id@) is None,
            },
    {
        let rows = self.http_rows();
        match idx_of_http(rows, id) {
            Some(i) => {
                proof {
                    assert(rviews_http(rows@)[i as int] == rows@[i as int]@);
                }
                Ok(clone_http_request(&rows[i]))
            },
            None => Err(Error::NotFound),
        }
    }

    pub fn list_http_requests(&self, workspace_id: &str) -> (r: Result<Vec<HttpRequest>, Error>)
        ensures
            r matches Ok(v) && rviews_http(v@) == self@.http_requests.filter(
                |x: ReqV| x.workspace_id == workspace_id@,
            ),
    {
        let rows = self.http_rows();
        let needle: String = workspace_id.to_owned();
        let mut out: Vec<HttpRequest> = Vec::new();
        let n = rows.len();
        let mut i: usize = 0;
        proof {
            reveal(Seq::filter);
            assert(rviews_http(rows@).subrange(0, 0).filter(
                |x: ReqV| x.workspace_id == workspace_id@,
            ) =~= rviews_http(out@));
        }
        while i < n
            invariant
                i <= n,
                n == rows@.len(),
                needle@ == workspace_id@,
                rviews_http(rows@) == self@.http_requests,
                rviews_http(out@) == rviews_http(rows@).subrange(0, i as int).filter(
                    |x: ReqV| x.workspace_id == workspace_id@,
                ),
            decreases n - i,
        {
            let ghost s = rviews_http(rows@);
            let ghost pred = |x: ReqV| x.workspace_id == workspace_id@;
            proof {
                reveal(Seq::filter);
                assert(s.subrange(0, i + 1).drop_last() =~= s.subrange(0, i as int));
                assert(s.subrange(0, i + 1).last() == s[i as int]);
                assert(s[i as int] == rows@[i as int]@);
            }
            if rows[i].workspace_id == needle {
                let ghost before = rviews_http(out@);
                out.push(clone_http_request(&rows[i]));
                proof {
                    assert(rviews_http(out@) =~= before.push(rows@[i as int]@));
                    assert(pred(s[i as int]));
                    assert(s.subrange(0, i + 1).filter(pred) == before.push(s[i as int]));
                }
            } else {
                proof {
                    assert(!pred(s[i as int]));
                    assert(s.subrange(0, i + 1).filter(pred) == s.subrange(0, i as int).filter(
                        pred,
                    ));
                }
            }
            i += 1;
        }
        proof {
            assert(rviews_http(rows@).subrange(0, n as int) =~= rviews_http(rows@));
        }
        Ok(out)
    }

    /// Deletes a request, cascading first to its dependent child records.
    pub fn delete_http_request(&mut self, m: &HttpRequest, source: &UpdateSource) -> (res: Result<
        HttpRequest,
        Error,
    >)
        requires
            db_inv(old(self)@),
        ensures
            db_inv(final(self)@),
            final(self)@.http_responses == old(self)@.http_responses.filter(
                |x: RespV| x.request_id != m@.id,
            ),
            final(self)@ == (DbV {
                http_requests: final(self)@.http_requests,
                http_responses: final(self)@.http_responses,
                ..old(self)@
            }),
            match res {
                Ok(x) => match first_idx(req_ids(old(self)@.http_requests), m@.id) {
                    Some(i) => x@ == old(self)@.http_requests[i] && final(self)@.http_requests
                        == old(self)@.http_requests.remove(i),
                    None => false,
                },
                Err(e) => e == Error::NotFound && first_idx(
                    req_ids(old(self)@.http_requests),
                    m@.id,
                ) is None && final(self)@.http_requests == old(self)@.http_requests,
            },
    {
        self.delete_all_http_responses_for_request(m.id.as_str(), source);
        let idx = idx_of_http(self.http_rows(), m.id.as_str());
        match idx {
            Some(i) => {
                let r = self.remove_http_row(i);
                proof {
                    let olds = req_ids(old(self)@.http_requests);
                    let news = req_ids(self@.http_requests);
                    assert(news =~= olds.remove(i as int));
                    assert forall|a: int, b: int| 0 <= a < b < news.len() implies news[a]
                        != news[b] by {
                        let a2: int = if a < i as int {
                            a
                        } else {
                            a + 1
                        };
                        let b2: int = if b < i as int {
                            b
                        } else {
                            b + 1
                        };
                        assert(news[a] == olds[a2]);
                        assert(news[b] == olds[b2]);
                    }
                    assert forall|a: int| 0 <= a < news.len() implies news[a].len() > 0 by {
                        let a2: int = if a < i as int {
                            a
                        } else {
                            a + 1
                        };
                        assert(news[a] == olds[a2]);
                    }
                }
                Ok(r)
            },
            None => Err(Error::NotFound),
        }
    }

    /// Looks the request up by id, then deletes it with its dependents;
    /// a missing id fails before anything is removed.
    pub fn delete_http_request_by_id(&mut self, id: &str, source: &UpdateSource) -> (res: Result<
        HttpRequest,
        Error,
    >)
        requires
            db_inv(old(self)@),
        ensures
            db_inv(final(self)@),
            final(self)@ == (DbV {
                http_requests: final(self)@.http_requests,
                http_responses: final(self)@.http_responses,
                ..old(self)@
            }),
            match res {
                Ok(x) => match first_idx(req_ids(old(self)@.http_requests), id@) {
                    Some(i) => x@ == old(self)@.http_requests[i] && final(self)@.http_requests
                        == old(self)@.http_requests.remove(i) && final(self)@.http_responses
                        == old(self)@.http_responses.filter(|r: RespV| r.request_id != id@),
                    None => false,
                },
                Err(e) => e == Error::NotFound && first_idx(
                    req_ids(old(self)@.http_requests),
                    id@,
                ) is None && final(self)@ == old(self)@,
            },
    {
        let http_request = match self.get_http_request(id) {
            Ok(r) => r,
            Err(e) => {
                proof {
                    lemma_first_idx_props(req_ids(self@.http_requests), id@);
                }
                return Err(e);
            },
        };
        proof {
            lemma_first_idx_props(req_ids(self@.http_requests), id@);
        }
        self.delete_http_request(&http_request, source)
    }

    /// Persists a copy of `http_request` placed immediately after it
    /// among its siblings: the copy's key is the midpoint to the next
    /// sibling, or the source's key plus a large gap when none follows.
    /// No other sibling's key is touched.
    pub fn duplicate_http_request(&mut self, http_request: &HttpRequest, source: &UpdateSource)
        -> (res: Result<HttpRequest, Error>)
        requires
            db_inv(old(self)@),
        ensures
            db_inv(final(self)@),
            final(self)@ == (DbV {
                http_requests: final(self)@.http_requests,
                next_id: final(self)@.next_id,
                ..old(self)@
            }),
            match res {
                Ok(new) => {
                    &&& new@ == (ReqV {
                        id: decimal_of(old(self)@.next_id),
                        sort_priority: dup_priority_in(old(self)@.http_requests, http_request@),
                        ..http_request@
                    })
                    &&& final(self)@.http_requests == old(self)@.http_requests.push(new@)
                    &&& final(self)@.next_id == old(self)@.next_id + 1
                },
                Err(e) => e == Error::RepositoryFailure && final(self)@ == old(self)@ && !(old(
                    self,
                )@.next_id < u64::MAX && !id_taken(
                    req_ids(old(self)@.http_requests),
                    decimal_of(old(self)@.next_id),
                )),
            },
    {
        let rows = self.http_rows();
        let mut keys: Vec<SiblingKey> = Vec::new();
        let n = rows.len();
        let mut i: usize = 0;
        let ghost pred = |x: ReqV| sibling_pred(x, http_request@.workspace_id, http_request@.folder_id);
        proof {
            reveal(Seq::filter);
            assert(kviews(keys@) =~= keys_of(
                rviews_http(rows@).subrange(0, 0).filter(pred),
            ));
        }
        while i < n
            invariant
                i <= n,
                n == rows@.len(),
                rviews_http(rows@) == self@.http_requests,
                pred == (|x: ReqV| sibling_pred(
                    x,
                    http_request@.workspace_id,
                    http_request@.folder_id,
                )),
                kviews(keys@) == keys_of(rviews_http(rows@).subrange(0, i as int).filter(pred)),
            decreases n - i,
        {
            let ghost s = rviews_http(rows@);
            proof {
                reveal(Seq::filter);
                assert(s.subrange(0, i + 1).drop_last() =~= s.subrange(0, i as int));
                assert(s.subrange(0, i + 1).last() == s[i as int]);
                assert(s[i as int] == rows@[i as int]@);
            }
            let same_ws = rows[i].workspace_id == http_request.workspace_id;
            let same_folder = opt_str_eq(&rows[i].folder_id, &http_request.folder_id);
            if same_ws && same_folder {
                let ghost before = kviews(keys@);
                keys.push(SiblingKey { id: rows[i].id.clone(), sort_priority: rows[i].sort_priority });
                proof {
                    assert(pred(s[i as int]));
                    assert(s.subrange(0, i + 1).filter(pred) == s.subrange(0, i as int).filter(
                        pred,
                    ).push(s[i as int]));
                    assert(kviews(keys@) =~= before.push(
                        KeyV { id: s[i as int].id, sort_priority: s[i as int].sort_priority },
                    ));
                    assert(keys_of(s.subrange(0, i + 1).filter(pred)) =~= keys_of(
                        s.subrange(0, i as int).filter(pred),
                    ).push(KeyV { id: s[i as int].id, sort_priority: s[i as int].sort_priority }));
                }
            } else {
                proof {
                    assert(!pred(s[i as int]));
                    assert(s.subrange(0, i + 1).filter(pred) == s.subrange(0, i as int).filter(
                        pred,
                    ));
                }
            }
            i += 1;
        }
        proof {
            assert(rviews_http(rows@).subrange(0, n as int) =~= rviews_http(rows@));
        }
        let sorted = sort_keys(keys);
        let p = next_priority(&sorted, &http_request.id, http_request.sort_priority);
        proof {
            assert(p as int == dup_priority_in(old(self)@.http_requests, http_request@));
        }
        let mut new_request = clone_http_request(http_request);
        new_request.id = String::new();
        new_request.sort_priority = p;
        let res = self.upsert_http_request(&new_request, source);
        proof {
            assert(new_request@ == (ReqV {
                id: Seq::<char>::empty(),
                sort_priority: p as int,
                ..http_request@
            }));
            assert(new_request@.id.len() == 0);
        }
        res
    }

    /// Inserts or replaces a request. The empty sentinel id asks the
    /// repository to assign a fresh identity.
    pub fn upsert_http_request(&mut self, http_request: &HttpRequest, source: &UpdateSource)
        -> (res: Result<HttpRequest, Error>)
        requires
            db_inv(old(self)@),
        ensures
            db_inv(final(self)@),
            final(self)@ == (DbV {
                http_requests: final(self)@.http_requests,
                next_id: final(self)@.next_id,
                ..old(self)@
            }),
            upsert_reqs_post(
                old(self)@.http_requests,
                old(self)@.next_id,
                final(self)@.http_requests,
                final(self)@.next_id,
                http_request@,
                match res {
                    Ok(x) => Some(x@),
                    Err(_) => None,
                },
            ),
            res matches Err(e) ==> e == Error::RepositoryFailure && final(self)@ == old(self)@,
    {
        if http_request.id.as_str().is_empty() {
            let fresh = match self.candidate_id() {
                Some(s) => s,
                None => {
                    return Err(Error::RepositoryFailure);
                },
            };
            let cur_rows = self.http_rows();
            let taken = idx_of_http(cur_rows, fresh.as_str());
            match taken {
                Some(j) => {
                    proof {
                        assert(id_taken(
                            req_ids(old(self)@.http_requests),
                            decimal_of(old(self)@.next_id),
                        )) by {
                            assert(req_ids(rviews_http(cur_rows@))[j as int]
                                == rviews_http(cur_rows@)[j as int].id);
                        }
                    }
                    Err(Error::RepositoryFailure)
                },
                None => {
                    let mut c = clone_http_request(http_request);
                    c.id = fresh;
                    let ret = clone_http_request(&c);
                    self.push_http_row(c);
                    self.bump_next_id();
                    proof {
                        lemma_decimal_nonempty(old(self)@.next_id);
                        let olds = req_ids(old(self)@.http_requests);
                        let news = req_ids(self@.http_requests);
                        assert(news =~= olds.push(decimal_of(old(self)@.next_id)));
                        assert forall|a: int, b: int| 0 <= a < b < news.len() implies news[a]
                            != news[b] by {
                            if b == news.len() - 1 {
                                assert(olds[a] != decimal_of(old(self)@.next_id));
                            }
                        }
                        assert(ret@ == (ReqV {
                            id: decimal_of(old(self)@.next_id),
                            ..http_request@
                        }));
                    }
                    Ok(ret)
                },
            }
        } else {
            let c = clone_http_request(http_request);
            let idx = idx_of_http(self.http_rows(), http_request.id.as_str());
            match idx {
                Some(i) => {
                    self.set_http_row(i, c);
                    proof {
                        assert(req_ids(self@.http_requests) =~= req_ids(
                            old(self)@.http_requests,
                        ));
                    }
                    Ok(clone_http_request(http_request))
                },
                None => {
                    self.push_http_row(c);
                    proof {
                        let olds = req_ids(old(self)@.http_requests);
                        let news = req_ids(self@.http_requests);
                        assert(news =~= olds.push(http_request@.id));
                        assert forall|a: int, b: int| 0 <= a < b < news.len() implies news[a]
                            != news[b] by {
                            if b == news.len() - 1 {
                                assert(olds[a] != http_request@.id);
                            }
                        }
                    }
                    Ok(clone_http_request(http_request))
                },
            }
        }
    }

    /// Effective authentication of a request: its own settings when it
    /// sets a type; otherwise the owning folder's resolution, or the
    /// workspace base when it has no folder.
    pub fn resolve_auth_for_http_request(&self, http_request: &HttpRequest) -> (r: Result<
        (Option<String>, Vec<AuthEntry>, String),
        Error,
    >)
        ensures
            match r {
                Ok(t) => req_auth_spec(self@, http_request@) == Ok::<AuthV, Error>(auth_val(t)),
                Err(e) => req_auth_spec(self@, http_request@) == Err::<AuthV, Error>(e),
            },
    {
        if http_request.authentication_type.is_some() {
            return Ok((
                clone_opt_string(&http_request.authentication_type),
                clone_auth_entries(&http_request.authentication),
                http_request.id.clone(),
            ));
        }
        match &http_request.folder_id {
            Some(fid) => {
                let folder = match self.get_folder(fid.as_str()) {
                    Ok(f) => f,
                    Err(e) => {
                        return Err(e);
                    },
                };
                self.resolve_auth_for_folder(&folder)
            },
            None => {
                let ws = match self.get_workspace(http_request.workspace_id.as_str()) {
                    Ok(w) => w,
                    Err(e) => {
                        return Err(e);
                    },
                };
                Ok(self.resolve_auth_for_workspace(&ws))
            },
        }
    }

    /// Effective headers of a request: the ancestor chain's resolved
    /// sequence first, the request's own entries appended in order.
    pub fn resolve_headers_for_http_request(&self, http_request: &HttpRequest) -> (r: Result<
        Vec<HttpRequestHeader>,
        Error,
    >)
        ensures
            match r {
                Ok(v) => req_headers_spec(self@, http_request@) == Ok::<Seq<HeaderV>, Error>(
                    hviews(v@),
                ),
                Err(e) => req_headers_spec(self@, http_request@) == Err::<Seq<HeaderV>, Error>(e),
            },
    {
        let mut headers: Vec<HttpRequestHeader>;
        match &http_request.folder_id {
            Some(fid) => {
                let parent_folder = match self.get_folder(fid.as_str()) {
                    Ok(f) => f,
                    Err(e) => {
                        return Err(e);
                    },
                };
                headers = match self.resolve_headers_for_folder(&parent_folder) {
                    Ok(v) => v,
                    Err(e) => {
                        return Err(e);
                    },
                };
            },
            None => {
                let ws = match self.get_workspace(http_request.workspace_id.as_str()) {
                    Ok(w) => w,
                    Err(e) => {
                        return Err(e);
                    },
                };
                headers = self.resolve_headers_for_workspace(&ws);
            },
        }
        let ghost anc = hviews(headers@);
        let mut own = clone_headers(&http_request.headers);
        headers.append(&mut own);
        proof {
            assert(hviews(headers@) =~= anc + http_request@.headers);
        }
        Ok(headers)
    }

    fn list_http_for_folder_fueled(&self, folder_id: &String, fuel: usize) -> (r: Result<
        Vec<HttpRequest>,
        Error,
    >)
        ensures
            match r {
                Ok(v) => folder_listing(self@, folder_id@, (fuel + 1) as nat) == Ok::<Seq<ReqV>, Error>(
                    rviews_http(v@),
                ),
                Err(e) => folder_listing(self@, folder_id@, (fuel + 1) as nat) == Err::<Seq<ReqV>, Error>(
                    e,
                ),
            },
        decreases fuel,
    {
        // Collect the immediate child folders' identifiers.
        let frows = self.folder_rows();
        let mut kids: Vec<String> = Vec::new();
        let nf = frows.len();
        let mut i: usize = 0;
        let ghost kpred = |f: FolderV| f.folder_id == Some(folder_id@);
        proof {
            reveal(Seq::filter);
            assert(strviews(kids@) =~= fviews(frows@).subrange(0, 0).filter(kpred).map_values(
                |f: FolderV| f.id,
            ));
        }
        while i < nf
            invariant
                i <= nf,
                nf == frows@.len(),
                fviews(frows@) == self@.folders,
                kpred == (|f: FolderV| f.folder_id == Some(folder_id@)),
                strviews(kids@) == fviews(frows@).subrange(0, i as int).filter(kpred).map_values(
                    |f: FolderV| f.id,
                ),
            decreases nf - i,
        {
            let ghost s = fviews(frows@);
            proof {
                reveal(Seq::filter);
                assert(s.subrange(0, i + 1).drop_last() =~= s.subrange(0, i as int));
                assert(s.subrange(0, i + 1).last() == s[i as int]);
                assert(s[i as int] == frows@[i as int]@);
            }
            let is_kid = match &frows[i].folder_id {
                Some(p) => *p == *folder_id,
                None => false,
            };
            if is_kid {
                let ghost before = strviews(kids@);
                kids.push(frows[i].id.clone());
                proof {
                    assert(kpred(s[i as int]));
                    assert(s.subrange(0, i + 1).filter(kpred) == s.subrange(0, i as int).filter(
                        kpred,
                    ).push(s[i as int]));
                    assert(strviews(kids@) =~= before.push(s[i as int].id));
                    assert(s.subrange(0, i + 1).filter(kpred).map_values(|f: FolderV| f.id) =~= s
                        .subrange(0, i as int).filter(kpred).map_values(|f: FolderV| f.id).push(
                        s[i as int].id,
                    ));
                }
            } else {
                proof {
                    assert(!kpred(s[i as int]));
                    assert(s.subrange(0, i + 1).filter(kpred) == s.subrange(0, i as int).filter(
                        kpred,
                    ));
                }
            }
            i += 1;
        }
        proof {
            assert(fviews(frows@).subrange(0, nf as int) =~= fviews(frows@));
            assert(strviews(kids@) == child_folder_ids(self@, folder_id@));
        }
        // Recurse into each child folder, depth first.
        let ghost all_kids = strviews(kids@);
        let mut children: Vec<HttpRequest> = Vec::new();
        let nk = kids.len();
        let mut j: usize = 0;
        proof {
            assert(all_kids.skip(0) =~= all_kids);
            assert(all_kids.len() == kids@.len());
        }
        while j < nk
            invariant
                j <= nk,
                nk == kids@.len(),
                all_kids == strviews(kids@),
                all_kids == child_folder_ids(self@, folder_id@),
                listing_kids(self@, all_kids, fuel as nat) == (match listing_kids(
                    self@,
                    all_kids.skip(j as int),
                    fuel as nat,
                ) {
                    Err(e) => Err::<Seq<ReqV>, Error>(e),
                    Ok(rest) => Ok::<Seq<ReqV>, Error>(rviews_http(children@) + rest),
                }),
            decreases nk - j,
        {
            let ghost tail = all_kids.skip(j as int);
            proof {
                assert(tail.len() > 0);
                assert(tail[0] == all_kids[j as int]);
                assert(strviews(kids@)[j as int] == kids@[j as int]@);
                assert(tail.drop_first() =~= all_kids.skip(j + 1));
            }
            if fuel == 0 {
                proof {
                    assert(folder_listing(self@, all_kids[j as int], fuel as nat)
                        == Err::<Seq<ReqV>, Error>(Error::RepositoryFailure));
                }
                return Err(Error::RepositoryFailure);
            }
            let sub = self.list_http_for_folder_fueled(&kids[j], fuel - 1);
            match sub {
                Err(e) => {
                    return Err(e);
                },
                Ok(mut part) => {
                    let ghost before = rviews_http(children@);
                    let ghost part_views = rviews_http(part@);
                    children.append(&mut part);
                    proof {
                        assert(rviews_http(children@) =~= before + part_views);
                        assert(folder_listing(self@, tail[0], fuel as nat) == Ok::<
                            Seq<ReqV>,
                            Error,
                        >(part_views));
                        let rest_case = listing_kids(self@, all_kids.skip(j + 1), fuel as nat);
                        assert(listing_kids(self@, tail, fuel as nat) == (match rest_case {
                            Err(e) => Err::<Seq<ReqV>, Error>(e),
                            Ok(rest) => Ok::<Seq<ReqV>, Error>(part_views + rest),
                        }));
                        match rest_case {
                            Ok(rest) => {
                                assert((before + part_views) + rest =~= before + (part_views
                                    + rest));
                            },
                            Err(_) => {},
                        }
                    }
                },
            }
            j += 1;
        }
        proof {
            assert(all_kids.skip(nk as int) =~= Seq::<Seq<char>>::empty());
            assert(listing_kids(self@, all_kids.skip(nk as int), fuel as nat) == Ok::<
                Seq<ReqV>,
                Error,
            >(Seq::<ReqV>::empty()));
            assert(rviews_http(children@) + Seq::<ReqV>::empty() =~= rviews_http(children@));
        }
        // Append this folder's own direct requests.
        let rows = self.http_rows();
        let ghost from_kids = rviews_http(children@);
        let nr = rows.len();
        let mut k: usize = 0;
        let ghost rpred = |r: ReqV| r.folder_id == Some(folder_id@);
        proof {
            reveal(Seq::filter);
            assert(rviews_http(children@) =~= from_kids + rviews_http(rows@).subrange(0, 0).filter(
                rpred,
            ));
        }
        while k < nr
            invariant
                k <= nr,
                nr == rows@.len(),
                rviews_http(rows@) == self@.http_requests,
                rpred == (|r: ReqV| r.folder_id == Some(folder_id@)),
                rviews_http(children@) == from_kids + rviews_http(rows@).subrange(
                    0,
                    k as int,
                ).filter(rpred),
            decreases nr - k,
        {
            let ghost s = rviews_http(rows@);
            proof {
                reveal(Seq::filter);
                assert(s.subrange(0, k + 1).drop_last() =~= s.subrange(0, k as int));
                assert(s.subrange(0, k + 1).last() == s[k as int]);
                assert(s[k as int] == rows@[k as int]@);
            }
            let is_own = match &rows[k].folder_id {
                Some(p) => *p == *folder_id,
                None => false,
            };
            if is_own {
                let ghost before = rviews_http(children@);
                children.push(clone_http_request(&rows[k]));
                proof {
                    assert(rpred(s[k as int]));
                    assert(s.subrange(0, k + 1).filter(rpred) == s.subrange(0, k as int).filter(
                        rpred,
                    ).push(s[k as int]));
                    assert(rviews_http(children@) =~= before.push(s[k as int]));
                    assert(from_kids + s.subrange(0, k + 1).filter(rpred) =~= (from_kids + s
                        .subrange(0, k as int).filter(rpred)).push(s[k as int]));
                }
            } else {
                proof {
                    assert(!rpred(s[k as int]));
                    assert(s.subrange(0, k + 1).filter(rpred) == s.subrange(0, k as int).filter(
                        rpred,
                    ));
                }
            }
            k += 1;
        }
        proof {
            assert(rviews_http(rows@).subrange(0, nr as int) =~= rviews_http(rows@));
        }
        Ok(children)
    }

    /// Every request transitively contained in folder `folder_id` or any
    /// of its descendant folders, depth first: each child folder in full
    /// before this folder's own direct requests.
    pub fn list_http_requests_for_folder_recursive(&self, folder_id: &str) -> (r: Result<
        Vec<HttpRequest>,
        Error,
    >)
        ensures
            match r {
                Ok(v) => folder_listing(self@, folder_id@, self@.folders.len() + 1) == Ok::<
                    Seq<ReqV>,
                    Error,
                >(rviews_http(v@)),
                Err(e) => folder_listing(self@, folder_id@, self@.folders.len() + 1) == Err::<
                    Seq<ReqV>,
                    Error,
                >(e),
            },
    {
        let owned: String = folder_id.to_owned();
        let frows = self.folder_rows();
        let fuel = frows.len();
        proof {
            assert(fviews(frows@).len() == frows@.len());
        }
        self.list_http_for_folder_fueled(&owned, fuel)
    }
}

} // verus!
