use vstd::prelude::*;
use crate::models::{
    Error, Folder, Workspace, AuthEntry, HttpRequestHeader, EntryV, HeaderV, ReqV, FolderV,
    WorkspaceV, opt_view, clone_opt_string, clone_auth_entries, clone_headers,
};
use crate::db::{DbContext, DbV, find_folder, find_workspace, idx_of_folder, idx_of_workspace, fviews, wviews};
use crate::models::clone_folder;
use crate::models::clone_workspace;

verus! {
/// An effective authentication resolution: the type tag, the settings
/// mapping, and the identifier of the entity that supplied them.
pub ghost struct AuthV {
    pub auth_type: Option<Seq<char>>,
    pub entries: Seq<EntryV>,
    pub owner: Seq<char>,
}

pub open spec fn auth_val(t: (Option<String>, Vec<AuthEntry>, String)) -> AuthV {
    AuthV {
        auth_type: opt_view(t.0),
        entries: t.1@.map_values(|e: AuthEntry| e@),
        owner: t.2@,
    }
}

pub open spec fn workspace_auth(w: WorkspaceV) -> AuthV {
    AuthV { auth_type: w.authentication_type, entries: w.authentication, owner: w.id }
}

/// Effective authentication of a folder: the closest ancestor (the folder
/// itself included) that sets a type wins; the workspace is the base
/// case. `fuel` bounds the chain walk; on an acyclic folder table it is
/// never exhausted, and exhaustion reports a constraint violation.
pub open spec fn folder_auth_spec(db: DbV, f: FolderV, fuel: nat) -> Result<AuthV, Error>
    decreases fuel,
{
    if f.authentication_type is Some {
        Ok(AuthV {
            auth_type: f.authentication_type,
            entries: f.authentication,
            owner: f.id,
        })
    } else {
        match f.folder_id {
            Some(pid) => if fuel == 0 {
                Err(Error::RepositoryFailure)
            } else {
                match find_folder(db, pid) {
                    None => Err(Error::NotFound),
                    Some(pf) => folder_auth_spec(db, pf, (fuel - 1) as nat),
                }
            },
            None => match find_workspace(db, f.workspace_id) {
                None => Err(Error::NotFound),
                Some(w) => Ok(workspace_auth(w)),
            },
        }
    }
}

/// Effective authentication of a request: its own settings if it sets a
/// type, else its folder's resolution, else the workspace's base.
pub open spec fn req_auth_spec(db: DbV, r: ReqV) -> Result<AuthV, Error> {
    if r.authentication_type is Some {
        Ok(AuthV { auth_type: r.authentication_type, entries: r.authentication, owner: r.id })
    } else {
        match r.folder_id {
            Some(fid) => match find_folder(db, fid) {
                None => Err(Error::NotFound),
                Some(f) => folder_auth_spec(db, f, db.folders.len()),
            },
            None => match find_workspace(db, r.workspace_id) {
                None => Err(Error::NotFound),
                Some(w) => Ok(workspace_auth(w)),
            },
        }
    }
}

/// Effective headers of a folder: the ancestor's resolved sequence first,
/// the folder's own entries appended, so the most specific entries come
/// last.
pub open spec fn folder_headers_spec(db: DbV, f: FolderV, fuel: nat) -> Result<
    Seq<HeaderV>,
    Error,
>
    decreases fuel,
{
    match f.folder_id {
        None => match find_workspace(db, f.workspace_id) {
            None => Err(Error::NotFound),
            Some(w) => Ok(w.headers + f.headers),
        },
        Some(pid) => if fuel == 0 {
            Err(Error::RepositoryFailure)
        } else {
            match find_folder(db, pid) {
                None => Err(Error::NotFound),
                Some(pf) => match folder_headers_spec(db, pf, (fuel - 1) as nat) {
                    Err(e) => Err(e),
                    Ok(anc) => Ok(anc + f.headers),
                },
            }
        },
    }
}

/// Effective headers of a request: the owning folder's (or workspace's)
/// resolved sequence, the request's own entries appended in order.
pub open spec fn req_headers_spec(db: DbV, r: ReqV) -> Result<Seq<HeaderV>, Error> {
    match r.folder_id {
        Some(fid) => match find_folder(db, fid) {
            None => Err(Error::NotFound),
            Some(f) => match folder_headers_spec(db, f, db.folders.len()) {
                Err(e) => Err(e),
                Ok(anc) => Ok(anc + r.headers),
            },
        },
        None => match find_workspace(db, r.workspace_id) {
            None => Err(Error::NotFound),
            Some(w) => Ok(w.headers + r.headers),
        },
    }
}

pub open spec fn hviews(s: Seq<HttpRequestHeader>) -> Seq<HeaderV> {
    s.map_values(|h: HttpRequestHeader| h@)
}

impl DbContext {
    pub fn get_folder(&self, id: &str) -> (r: Result<Folder, Error>)
        ensures
            match r {
                Ok(f) => find_folder(self@, id@) == Some(f@),
                Err(e) => e == Error::NotFound && find_folder(self@, id@) is None,
            },
    {
        let rows = self.folder_rows();
        match idx_of_folder(rows, id) {
            Some(i) => {
                proof {
                    assert(fviews(rows@)[i as int] == rows@[i as int]@);
                }
                Ok(clone_folder(&rows[i]))
            },
            None => Err(Error::NotFound),
        }
    }

    pub fn get_workspace(&self, id: &str) -> (r: Result<Workspace, Error>)
        ensures
            match r {
                Ok(w) => find_workspace(self@, id@) == Some(w@),
                Err(e) => e == Error::NotFound && find_workspace(self@, id@) is None,
            },
    {
        let rows = self.workspace_rows();
        match idx_of_workspace(rows, id) {
            Some(i) => {
                proof {
                    assert(wviews(rows@)[i as int] == rows@[i as int]@);
                }
                Ok(clone_workspace(&rows[i]))
            },
            None => Err(Error::NotFound),
        }
    }

    /// Base case of the override chain: a workspace always resolves to
    /// its own settings, with itself as owner.
    pub fn resolve_auth_for_workspace(&self, w: &Workspace) -> (r: (
        Option<String>,
        Vec<AuthEntry>,
        String,
    ))
        ensures
            auth_val(r) == workspace_auth(w@),
    {
        (clone_opt_string(&w.authentication_type), clone_auth_entries(&w.authentication), w.id.clone())
    }

    pub fn resolve_headers_for_workspace(&self, w: &Workspace) -> (r: Vec<HttpRequestHeader>)
        ensures
            hviews(r@) == w@.headers,
    {
        clone_headers(&w.headers)
    }

    fn resolve_auth_for_folder_fueled(&self, f: &Folder, fuel: u64) -> (r: Result<
        (Option<String>, Vec<AuthEntry>, String),
        Error,
    >)
        ensures
            match r {
                Ok(t) => folder_auth_spec(self@, f@, fuel as nat) == Ok::<AuthV, Error>(
                    auth_val(t),
                ),
                Err(e) => folder_auth_spec(self@, f@, fuel as nat) == Err::<AuthV, Error>(e),
            },
        decreases fuel,
    {
        if f.authentication_type.is_some() {
            return Ok((
                clone_opt_string(&f.authentication_type),
                clone_auth_entries(&f.authentication),
                f.id.clone(),
            ));
        }
        match &f.folder_id {
            Some(pid) => {
                if fuel == 0 {
                    return Err(Error::RepositoryFailure);
                }
                let parent = match self.get_folder(pid.as_str()) {
                    Ok(p) => p,
                    Err(e) => {
                        return Err(e);
                    },
};
                self.resolve_auth_for_folder_fueled(&parent, fuel - 1)
            },
            None => {
                let ws = match self.get_workspace(f.workspace_id.as_str()) {
                    Ok(w) => w,
                    Err(e) => {
                        return Err(e);
                    },
};
                Ok(self.resolve_auth_for_workspace(&ws))
            },
        }
    }

    /// Walks the folder chain upward; the closest ancestor that sets an
    /// authentication type supplies the effective settings.
    pub fn resolve_auth_for_folder(&self, folder: &Folder) -> (r: Result<
        (Option<String>, Vec<AuthEntry>, String),
        Error,
    >)
        ensures
            match r {
                Ok(t) => folder_auth_spec(self@, folder@, self@.folders.len()) == Ok::<
                    AuthV,
                    Error,
                >(auth_val(t)),
                Err(e) => folder_auth_spec(self@, folder@, self@.folders.len()) == Err::<
                    AuthV,
                    Error,
                >(e),
            },
    {
        let rows = self.folder_rows();
        let fuel = rows.len();
        proof {
            assert(fviews(rows@).len() == rows@.len());
        }
        self.resolve_auth_for_folder_fueled(folder, fuel as u64)
    }

    fn resolve_headers_for_folder_fueled(&self, f: &Folder, fuel: u64) -> (r: Result<
        Vec<HttpRequestHeader>,
        Error,
    >)
        ensures
            match r {
                Ok(v) => folder_headers_spec(self@, f@, fuel as nat) == Ok::<Seq<HeaderV>, Error>(
                    hviews(v@),
                ),
                Err(e) => folder_headers_spec(self@, f@, fuel as nat) == Err::<
                    Seq<HeaderV>,
                    Error,
                >(e),
            },
        decreases fuel,
    {
        match &f.folder_id {
            None => {
                let ws = match self.get_workspace(f.workspace_id.as_str()) {
                    Ok(w) => w,
                    Err(e) => {
                        return Err(e);
                    },
};
                let mut v = clone_headers(&ws.headers);
                let mut own = clone_headers(&f.headers);
                v.append(&mut own);
                proof {
                    assert(hviews(v@) =~= ws@.headers + f@.headers);
                }
                Ok(v)
            },
            Some(pid) => {
                if fuel == 0 {
                    return Err(Error::RepositoryFailure);
                }
                let parent = match self.get_folder(pid.as_str()) {
                    Ok(p) => p,
                    Err(e) => {
                        return Err(e);
                    },
};
                let mut v = match self.resolve_headers_for_folder_fueled(&parent, fuel - 1) {
                    Ok(anc) => anc,
                    Err(e) => {
                        return Err(e);
                    },
};
                let mut own = clone_headers(&f.headers);
                let ghost anc_views = hviews(v@);
                v.append(&mut own);
                proof {
                    assert(hviews(v@) =~= anc_views + f@.headers);
                }
                Ok(v)
            },
        }
    }

    /// Resolved headers of a folder: ancestor entries first, the folder's
    /// own entries appended.
    pub fn resolve_headers_for_folder(&self, folder: &Folder) -> (r: Result<
        Vec<HttpRequestHeader>,
        Error,
    >)
        ensures
            match r {
                Ok(v) => folder_headers_spec(self@, folder@, self@.folders.len()) == Ok::<
                    Seq<HeaderV>,
                    Error,
                >(hviews(v@)),
                Err(e) => folder_headers_spec(self@, folder@, self@.folders.len()) == Err::<
                    Seq<HeaderV>,
                    Error,
                >(e),
            },
    {
        let rows = self.folder_rows();
        let fuel = rows.len();
        proof {
            assert(fviews(rows@).len() == rows@.len());
        }
        self.resolve_headers_for_folder_fueled(folder, fuel as u64)
    }
}

} // verus!
