use vstd::prelude::*;
use vstd::seq_lib::lemma_multiset_commutative;
use crate::models::{Error, ReqV, RespV, FolderV, WorkspaceV, HeaderV};
use crate::lookup::{first_idx, ids_distinct, lemma_first_idx_found, lemma_first_idx_props};
use crate::ordering::{
    KeyV, key_ids, sort_spec, sorted_keys, sat_add, mid_spec, dup_priority_of,
    lemma_sort_spec_props,
};
use crate::db::{DbV, find_req, find_folder, find_workspace, req_ids, resp_ids};
use crate::resolve::{
    AuthV, workspace_auth, req_auth_spec, req_headers_spec,
};
use crate::support::lemma_filter_resp_distinct;
use crate::http_requests::{folder_listing, listing_kids, child_folder_ids};

verus! {
broadcast use {vstd::seq_lib::group_to_multiset_ensures, vstd::seq_lib::group_filter_ensures};

/// Duplicating a request that is the last of its siblings in priority
/// order — no other sibling's key reaches the source's — places the copy
/// a large fixed gap after the source: its key is the source's plus
/// 1000, clamping only at the largest representable key.
pub proof fn lemma_duplicate_after_last(keys: Seq<KeyV>, src: KeyV)
    requires
        keys.contains(src),
        forall|i: int, j: int| 0 <= i < j < keys.len() ==> keys[i].id != keys[j].id,
        forall|i: int|
            0 <= i < keys.len() && keys[i].id != src.id ==> keys[i].sort_priority
                < src.sort_priority,
    ensures
        dup_priority_of(sort_spec(keys), src.id, src.sort_priority) == sat_add(
            src.sort_priority,
            1000,
        ),
{
    lemma_sort_spec_props(keys);
    let t = sort_spec(keys);
    assert(t.to_multiset().len() == keys.to_multiset().len());
    assert(t.len() == keys.len());
    assert(keys.to_multiset().count(src) > 0);
    assert(t.contains(src));
    let last = t.len() - 1;
    assert forall|k: int| 0 <= k < t.len() implies keys.contains(#[trigger] t[k]) by {
        assert(t.contains(t[k]));
        assert(keys.to_multiset().count(t[k]) > 0);
    }
    let si = choose|si: int| 0 <= si < t.len() && t[si] == src;
    assert(t[si].sort_priority <= t[last].sort_priority);
    let ks = choose|ks: int| 0 <= ks < keys.len() && keys[ks] == src;
    assert(t[last].id == src.id) by {
        if t[last].id != src.id {
            let kl = choose|kl: int| 0 <= kl < keys.len() && keys[kl] == t[last];
            assert(keys[kl].sort_priority < src.sort_priority);
        }
    }
    assert(t[last] == src) by {
        let kl = choose|kl: int| 0 <= kl < keys.len() && keys[kl] == t[last];
        if kl != ks {
            assert(keys[kl].id != keys[ks].id || keys[ks].id != keys[kl].id);
        }
    }
    // `src` occurs exactly once in `keys`, hence exactly once in `t`.
    assert(keys.no_duplicates()) by {
        assert forall|i: int, j: int|
            0 <= i < keys.len() && 0 <= j < keys.len() && i != j implies keys[i] != keys[j] by {
            if i < j {
                assert(keys[i].id != keys[j].id);
            } else {
                assert(keys[j].id != keys[i].id);
            }
        }
    }
    keys.lemma_multiset_has_no_duplicates();
    assert(keys.to_multiset().count(src) == 1);
    assert forall|j: int| 0 <= j < last implies key_ids(t)[j] != src.id by {
        if t[j].id == src.id {
            let kj = choose|kj: int| 0 <= kj < keys.len() && keys[kj] == t[j];
            assert(t[j] == src) by {
                if kj != ks {
                    assert(keys[kj].id != keys[ks].id || keys[ks].id != keys[kj].id);
                }
            }
            // two positions holding `src` give it count at least two
            let s0 = t.subrange(0, last);
            let s1 = t.subrange(last, t.len() as int);
            assert(t =~= s0 + s1);
            lemma_multiset_commutative(s0, s1);
            assert(s0[j] == src);
            assert(s0.contains(src));
            assert(s1[0] == src);
            assert(s1.contains(src));
            assert(s0.to_multiset().count(src) > 0);
            assert(s1.to_multiset().count(src) > 0);
            assert(t.to_multiset().count(src) >= 2);
        }
    }
    assert(key_ids(t)[last] == src.id);
    lemma_first_idx_found(key_ids(t), src.id, last);
    assert(key_ids(t).len() == t.len());
}

/// Duplicating a request with a following sibling places the copy at the
/// midpoint: when the gap is even the copy's key is exactly the average
/// of the two, and whenever the gap is at least two the copy lands
/// strictly between its source and the following sibling.
pub proof fn lemma_duplicate_midpoint(t: Seq<KeyV>, i: int, src_id: Seq<char>, src_p: int)
    requires
        sorted_keys(t),
        first_idx(key_ids(t), src_id) == Some(i),
        0 <= i,
        i + 1 < t.len(),
        t[i].sort_priority == src_p,
    ensures
        dup_priority_of(t, src_id, src_p) == mid_spec(src_p, t[i + 1].sort_priority),
        (t[i + 1].sort_priority - src_p) % 2 == 0 ==> dup_priority_of(t, src_id, src_p) == (src_p
            + t[i + 1].sort_priority) / 2,
        t[i + 1].sort_priority - src_p >= 2 ==> src_p < dup_priority_of(t, src_id, src_p) < t[i
            + 1].sort_priority,
{
    let b = t[i + 1].sort_priority;
    assert(src_p <= b);
    assert(mid_spec(src_p, b) == src_p + (b - src_p) / 2);
    if (b - src_p) % 2 == 0 {
        assert(src_p + (b - src_p) / 2 == (src_p + b) / 2) by (nonlinear_arith)
            requires
                (b - src_p) % 2 == 0,
                src_p <= b,
        ;
    }
    if b - src_p >= 2 {
        assert(1 <= (b - src_p) / 2 < b - src_p) by (nonlinear_arith)
            requires
                b - src_p >= 2,
        ;
    }
}

/// Duplication appends the copy and leaves every previously stored row —
/// in particular every other sibling and its ordering key — unchanged.
pub proof fn lemma_duplicate_preserves_siblings(rows: Seq<ReqV>, new: ReqV)
    ensures
        forall|i: int| 0 <= i < rows.len() ==> rows.push(new)[i] == rows[i],
        rows.push(new)[rows.len() as int] == new,
{
}

/// The key assigned by the `k`-th repeated duplication of the same
/// source: the source keeps key `a`, the next real sibling keeps key
/// `b`, and each copy becomes the new following sibling of the source.
pub open spec fn dup_chain(a: int, b: int, k: nat) -> int
    decreases k,
{
    if k == 0 {
        b
    } else {
        mid_spec(a, dup_chain(a, b, (k - 1) as nat))
    }
}

/// Repeated duplication of the same request yields keys that stay in the
/// source's gap and, while the remaining gap is at least two, are
/// pairwise distinct, strictly decreasing toward the source and strictly
/// below the next real sibling — so each copy lands strictly between the
/// source and the previous copy.
pub proof fn lemma_repeated_duplication(a: int, b: int, n: nat)
    requires
        a <= b,
    ensures
        forall|k: nat| #[trigger] dup_chain(a, b, k) <= b,
        forall|k: nat| a <= #[trigger] dup_chain(a, b, k),
        forall|k: nat|
            dup_chain(a, b, k) - a >= 2 ==> a < #[trigger] dup_chain(a, b, (k + 1) as nat)
                < dup_chain(a, b, k),
        b - a >= 2 ==> forall|k: nat| 1 <= k <= n ==> a <= #[trigger] dup_chain(a, b, k) < b,
    decreases n,
{
    assert forall|k: nat| a <= #[trigger] dup_chain(a, b, k) <= b by {
        lemma_dup_chain_bounds(a, b, k);
    }
    assert forall|k: nat| dup_chain(a, b, k) - a >= 2 implies a < #[trigger] dup_chain(
        a,
        b,
        (k + 1) as nat,
    ) < dup_chain(a, b, k) by {
        let c = dup_chain(a, b, k);
        assert(dup_chain(a, b, (k + 1) as nat) == mid_spec(a, c));
        assert(1 <= (c - a) / 2 < c - a) by (nonlinear_arith)
            requires
                c - a >= 2,
        ;
    }
    if b - a >= 2 {
        assert forall|k: nat| 1 <= k <= n implies a <= #[trigger] dup_chain(a, b, k) < b by {
            lemma_dup_chain_below(a, b, k);
        }
    }
}

proof fn lemma_dup_chain_bounds(a: int, b: int, k: nat)
    requires
        a <= b,
    ensures
        a <= dup_chain(a, b, k) <= b,
    decreases k,
{
    if k > 0 {
        lemma_dup_chain_bounds(a, b, (k - 1) as nat);
        let c = dup_chain(a, b, (k - 1) as nat);
        assert(0 <= (c - a) / 2 <= c - a) by (nonlinear_arith)
            requires
                c - a >= 0,
        ;
    }
}

proof fn lemma_dup_chain_below(a: int, b: int, k: nat)
    requires
        a <= b,
        b - a >= 2,
        k >= 1,
    ensures
        a <= dup_chain(a, b, k) < b,
    decreases k,
{
    lemma_dup_chain_bounds(a, b, (k - 1) as nat);
    let c = dup_chain(a, b, (k - 1) as nat);
    let d = c - a;
    assert(0 <= d <= b - a);
    assert(0 <= d / 2 <= d) by (nonlinear_arith)
        requires
            d >= 0,
    ;
    assert(d / 2 <= (b - a) / 2) by (nonlinear_arith)
        requires
            0 <= d <= b - a,
    ;
    assert((b - a) / 2 < b - a) by (nonlinear_arith)
        requires
            b - a >= 2,
    ;
}

/// A request that sets its own authentication type resolves to its own
/// settings with itself as owner, regardless of its ancestors.
pub proof fn lemma_auth_own_settings(db: DbV, r: ReqV)
    requires
        r.authentication_type is Some,
    ensures
        req_auth_spec(db, r) == Ok::<AuthV, Error>(
            AuthV {
                auth_type: r.authentication_type,
                entries: r.authentication,
                owner: r.id,
            },
        ),
{
}

/// A request that inherits, owned by a folder that sets a type, resolves
/// to the folder's settings with the folder's id as owner.
pub proof fn lemma_auth_from_folder(db: DbV, r: ReqV, fid: Seq<char>, f: FolderV)
    requires
        r.authentication_type is None,
        r.folder_id == Some(fid),
        find_folder(db, fid) == Some(f),
        f.authentication_type is Some,
    ensures
        req_auth_spec(db, r) == Ok::<AuthV, Error>(
            AuthV {
                auth_type: f.authentication_type,
                entries: f.authentication,
                owner: f.id,
            },
        ),
{
}

/// A request and its folder that both inherit fall through to the
/// workspace's base settings, with the workspace id as owner.
pub proof fn lemma_auth_from_workspace(db: DbV, r: ReqV, fid: Seq<char>, f: FolderV, w: WorkspaceV)
    requires
        r.authentication_type is None,
        r.folder_id == Some(fid),
        find_folder(db, fid) == Some(f),
        f.authentication_type is None,
        f.folder_id is None,
        find_workspace(db, f.workspace_id) == Some(w),
    ensures
        req_auth_spec(db, r) == Ok::<AuthV, Error>(workspace_auth(w)),
{
}

/// Headers resolve ancestor-first: workspace entries, then the folder's,
/// then the request's own, in exactly that order.
pub proof fn lemma_headers_order(db: DbV, r: ReqV, fid: Seq<char>, f: FolderV, w: WorkspaceV)
    requires
        r.folder_id == Some(fid),
        find_folder(db, fid) == Some(f),
        f.folder_id is None,
        find_workspace(db, f.workspace_id) == Some(w),
    ensures
        req_headers_spec(db, r) == Ok::<Seq<HeaderV>, Error>(w.headers + f.headers + r.headers),
{
}

proof fn lemma_listing_kids_sub(db: DbV, ids: Seq<Seq<char>>, fuel: nat, res: Seq<ReqV>, j: int)
    requires
        listing_kids(db, ids, fuel) == Ok::<Seq<ReqV>, Error>(res),
        0 <= j < ids.len(),
    ensures
        listing_kids(db, ids, fuel) == Ok::<Seq<ReqV>, Error>(res) && (match folder_listing(
            db,
            ids[j],
            fuel,
        ) {
            Ok(sub) => forall|x: ReqV| sub.contains(x) ==> res.contains(x),
            Err(_) => false,
        }),
    decreases ids.len(),
{
    let first = match folder_listing(db, ids[0], fuel) {
        Ok(f) => f,
        Err(_) => Seq::empty(),
};
    let rest = match listing_kids(db, ids.drop_first(), fuel) {
        Ok(r) => r,
        Err(_) => Seq::empty(),
};
    assert(res == first + rest);
    if j == 0 {
        assert forall|x: ReqV| first.contains(x) implies res.contains(x) by {
            let k = choose|k: int| 0 <= k < first.len() && first[k] == x;
            assert(res[k] == x);
        }
    } else {
        lemma_listing_kids_sub(db, ids.drop_first(), fuel, rest, j - 1);
        assert(ids.drop_first()[j - 1] == ids[j]);
        match folder_listing(db, ids[j], fuel) {
            Ok(sub) => {
                assert forall|x: ReqV| sub.contains(x) implies res.contains(x) by {
                    assert(rest.contains(x));
                    let k = choose|k: int| 0 <= k < rest.len() && rest[k] == x;
                    assert(res[first.len() + k] == x);
                }
            },
            Err(_) => {},
        }
    }
}

/// Recursive listing reaches both direct and nested requests: when
/// folder `fid` directly holds request `r1` and holds a child folder `g`
/// that directly holds request `r2`, a successful listing of `fid`
/// contains both, `r2` by descent into `g`.
pub proof fn lemma_recursive_listing_contains(
    db: DbV,
    fid: Seq<char>,
    fuel: nat,
    out: Seq<ReqV>,
    g: FolderV,
    r1: ReqV,
    r2: ReqV,
)
    requires
        folder_listing(db, fid, fuel) == Ok::<Seq<ReqV>, Error>(out),
        db.folders.contains(g),
        g.folder_id == Some(fid),
        db.http_requests.contains(r1),
        r1.folder_id == Some(fid),
        db.http_requests.contains(r2),
        r2.folder_id == Some(g.id),
    ensures
        out.contains(r1),
        out.contains(r2),
{
    assert(fuel > 0);
    let kids = child_folder_ids(db, fid);
    let from_kids = match listing_kids(db, kids, (fuel - 1) as nat) {
        Ok(f) => f,
        Err(_) => Seq::empty(),
};
    let own = db.http_requests.filter(|r: ReqV| r.folder_id == Some(fid));
    assert(out == from_kids + own);
    // r1 stands among the folder's own requests.
    let i1 = choose|i1: int|
        0 <= i1 < db.http_requests.len() && db.http_requests[i1] == r1;
    assert(own.contains(r1));
    let k1 = choose|k1: int| 0 <= k1 < own.len() && own[k1] == r1;
    assert(out[from_kids.len() + k1] == r1);
    // g stands among the child folders, so its listing feeds the result.
    let gi = choose|gi: int| 0 <= gi < db.folders.len() && db.folders[gi] == g;
    let gkids = db.folders.filter(|f: FolderV| f.folder_id == Some(fid));
    assert(gkids.contains(g));
    let gj = choose|gj: int| 0 <= gj < gkids.len() && gkids[gj] == g;
    assert(kids[gj] == g.id);
    lemma_listing_kids_sub(db, kids, (fuel - 1) as nat, from_kids, gj);
    match folder_listing(db, g.id, (fuel - 1) as nat) {
        Ok(g_out) => {
            let g_own = db.http_requests.filter(|r: ReqV| r.folder_id == Some(g.id));
            assert(g_own.contains(r2));
            let g_kids_part = match listing_kids(
                db,
                child_folder_ids(db, g.id),
                (fuel - 2) as nat,
            ) {
                Ok(f) => f,
                Err(_) => Seq::empty(),
};
            assert(g_out == g_kids_part + g_own);
            let k2 = choose|k2: int| 0 <= k2 < g_own.len() && g_own[k2] == r2;
            assert(g_out[g_kids_part.len() + k2] == r2);
            assert(g_out.contains(r2));
            assert(from_kids.contains(r2));
            let k3 = choose|k3: int| 0 <= k3 < from_kids.len() && from_kids[k3] == r2;
            assert(out[k3] == r2);
        },
        Err(_) => {},
    }
}

/// After a cascading delete of request `id` — dependents filtered out,
/// then the row removed — the request can no longer be found and no
/// dependent child record of it remains.
pub proof fn lemma_delete_cascades(old_rows: Seq<ReqV>, old_resps: Seq<RespV>, id: Seq<char>, i: int)
    requires
        ids_distinct(req_ids(old_rows)),
        ids_distinct(resp_ids(old_resps)),
        first_idx(req_ids(old_rows), id) == Some(i),
    ensures
        find_req(old_rows.remove(i), id) is None,
        old_resps.filter(|x: RespV| x.request_id != id).filter(|x: RespV| x.request_id == id)
            =~= Seq::<RespV>::empty(),
{
    lemma_first_idx_props(req_ids(old_rows), id);
    let news = req_ids(old_rows.remove(i));
    assert(news =~= req_ids(old_rows).remove(i));
    assert forall|j: int| 0 <= j < news.len() implies news[j] != id by {
        let j2: int = if j < i {
            j
        } else {
            j + 1
        };
        assert(news[j] == req_ids(old_rows)[j2]);
        if j2 != i {
            assert(req_ids(old_rows)[j2] != req_ids(old_rows)[i]);
        }
    }
    lemma_first_idx_props(news, id);
    let kept = old_resps.filter(|x: RespV| x.request_id != id);
    lemma_filter_resp_distinct(old_resps, |x: RespV| x.request_id != id);
    lemma_filter_resp_distinct(kept, |x: RespV| x.request_id == id);
    let back = kept.filter(|x: RespV| x.request_id == id);
    if back.len() > 0 {
        assert(back[0].request_id == id);
        assert(kept.contains(back[0]));
        let p = choose|p: int| 0 <= p < kept.len() && kept[p] == back[0];
        assert(kept[p].request_id != id);
    }
}

} // verus!
