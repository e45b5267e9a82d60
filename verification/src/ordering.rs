use vstd::prelude::*;
use crate::lookup::{first_idx, lemma_first_idx_found, lemma_first_idx_none};
use crate::models::ReqV;

verus! {

broadcast use vstd::seq_lib::group_to_multiset_ensures;

/// The projection of a sibling request that the ordering algorithm reads:
/// its identity and its ordering key.
pub struct SiblingKey {
    pub id: String,
    pub sort_priority: i64,
}

pub ghost struct KeyV {
    pub id: Seq<char>,
    pub sort_priority: int,
}

impl View for SiblingKey {
    type V = KeyV;

    open spec fn view(&self) -> KeyV {
        KeyV { id: self.id@, sort_priority: self.sort_priority as int }
    }
}

pub open spec fn kviews(s: Seq<SiblingKey>) -> Seq<KeyV> {
    s.map_values(|k: SiblingKey| k@)
}

pub open spec fn key_ids(s: Seq<KeyV>) -> Seq<Seq<char>> {
    s.map_values(|k: KeyV| k.id)
}

/// Stable insertion from the right: `x` lands after every element whose
/// priority is at most `x`'s, so earlier elements keep their relative
/// order on ties.
pub open spec fn insort(s: Seq<KeyV>, x: KeyV) -> Seq<KeyV>
    decreases s.len(),
{
    if s.len() == 0 {
        seq![x]
    } else if s.last().sort_priority <= x.sort_priority {
        s.push(x)
    } else {
        insort(s.drop_last(), x).push(s.last())
    }
}

/// Stable insertion sort by ascending priority. This pins the sorted
/// sibling list down to one sequence, ties included.
pub open spec fn sort_spec(s: Seq<KeyV>) -> Seq<KeyV>
    decreases s.len(),
{
    if s.len() == 0 {
        Seq::empty()
    } else {
        insort(sort_spec(s.drop_last()), s.last())
    }
}

pub open spec fn sorted_keys(s: Seq<KeyV>) -> bool {
    forall|i: int, j: int|
        0 <= i < j < s.len() ==> s[i].sort_priority <= s[j].sort_priority
}

pub proof fn lemma_insort_multiset(s: Seq<KeyV>, x: KeyV)
    ensures
        insort(s, x).to_multiset() =~= s.to_multiset().insert(x),
        insort(s, x).len() == s.len() + 1,
    decreases s.len(),
{
    if s.len() == 0 {
        assert(seq![x] =~= Seq::<KeyV>::empty().push(x));
    } else if s.last().sort_priority <= x.sort_priority {
    } else {
        lemma_insort_multiset(s.drop_last(), x);
        assert(s =~= s.drop_last().push(s.last()));
        assert(s.to_multiset() =~= s.drop_last().to_multiset().insert(s.last()));
    }
}

pub proof fn lemma_insort_sorted(s: Seq<KeyV>, x: KeyV)
    requires
        sorted_keys(s),
    ensures
        sorted_keys(insort(s, x)),
    decreases s.len(),
{
    if s.len() == 0 {
    } else if s.last().sort_priority <= x.sort_priority {
        assert forall|i: int, j: int|
            0 <= i < j < s.push(x).len() implies s.push(x)[i].sort_priority
            <= s.push(x)[j].sort_priority by {
            if j == s.len() {
                assert(s[i].sort_priority <= s[s.len() - 1].sort_priority);
            }
        }
    } else {
        let t = insort(s.drop_last(), x);
        lemma_insort_sorted(s.drop_last(), x);
        lemma_insort_multiset(s.drop_last(), x);
        let r = t.push(s.last());
        assert forall|i: int, j: int|
            0 <= i < j < r.len() implies r[i].sort_priority <= r[j].sort_priority by {
            if j == t.len() {
                assert(t.contains(t[i]));
                assert(t.to_multiset().count(t[i]) > 0);
                if t[i] == x {
                } else {
                    assert(s.drop_last().to_multiset().count(t[i]) > 0);
                    assert(s.drop_last().contains(t[i]));
                    let w = choose|w: int|
                        0 <= w < s.drop_last().len() && s.drop_last()[w] == t[i];
                    assert(s[w].sort_priority <= s[s.len() - 1].sort_priority);
                }
            }
        }
    }
}

pub proof fn lemma_sort_spec_props(s: Seq<KeyV>)
    ensures
        sorted_keys(sort_spec(s)),
        sort_spec(s).to_multiset() =~= s.to_multiset(),
        sort_spec(s).len() == s.len(),
    decreases s.len(),
{
    if s.len() > 0 {
        lemma_sort_spec_props(s.drop_last());
        lemma_insort_sorted(sort_spec(s.drop_last()), s.last());
        lemma_insort_multiset(sort_spec(s.drop_last()), s.last());
        assert(s =~= s.drop_last().push(s.last()));
        assert(s.to_multiset() =~= s.drop_last().to_multiset().insert(s.last()));
    }
}

fn insort_vec(v: Vec<SiblingKey>, x: SiblingKey) -> (out: Vec<SiblingKey>)
    ensures
        kviews(out@) == insort(kviews(v@), x@),
    decreases v@.len(),
{
    let ghost orig = kviews(v@);
    let mut v = v;
    let n = v.len();
    if n == 0 {
        v.push(x);
        proof {
            assert(kviews(v@) =~= insort(orig, x@));
        }
        v
    } else if v[n - 1].sort_priority <= x.sort_priority {
        proof {
            assert(orig.last() == v@[n - 1]@);
        }
        v.push(x);
        proof {
            assert(kviews(v@) =~= orig.push(x@));
        }
        v
    } else {
        proof {
            assert(orig.last() == v@[n - 1]@);
        }
        let last = v.pop().unwrap();
        proof {
            assert(kviews(v@) =~= orig.drop_last());
        }
        let mut out = insort_vec(v, x);
        out.push(last);
        proof {
            assert(kviews(out@) =~= insort(orig.drop_last(), x@).push(orig.last()));
        }
        out
    }
}

pub fn sort_keys(v: Vec<SiblingKey>) -> (out: Vec<SiblingKey>)
    ensures
        kviews(out@) == sort_spec(kviews(v@)),
{
    let ghost orig = kviews(v@);
    let mut rest = v;
    let mut out: Vec<SiblingKey> = Vec::new();
    proof {
        assert(kviews(out@) =~= sort_spec(orig.subrange(0, 0)));
        assert(kviews(rest@) =~= orig.subrange(0, orig.len() as int));
    }
    while rest.len() > 0
        invariant
            rest@.len() <= orig.len(),
            kviews(rest@) =~= orig.subrange(
                orig.len() - rest@.len(),
                orig.len() as int,
            ),
            kviews(out@) == sort_spec(orig.subrange(0, orig.len() - rest@.len())),
        decreases rest@.len(),
    {
        let ghost i = orig.len() - rest@.len();
        let ghost prev = rest@;
        let x = rest.remove(0);
        proof {
            assert(kviews(prev)[0] == prev[0]@);
            assert(x@ == orig.subrange(i as int, orig.len() as int)[0]);
            assert(x@ == orig[i]);
            assert forall|j: int| 0 <= j < rest@.len() implies kviews(rest@)[j]
                == orig.subrange(i + 1, orig.len() as int)[j] by {
                assert(rest@[j] == prev[j + 1]);
                assert(kviews(prev)[j + 1] == prev[j + 1]@);
                assert(kviews(rest@)[j] == rest@[j]@);
            }
            assert(kviews(rest@) =~= orig.subrange(i + 1, orig.len() as int));
            assert(orig.subrange(0, i + 1).drop_last() =~= orig.subrange(0, i));
            assert(orig.subrange(0, i + 1).last() == orig[i]);
        }
        out = insort_vec(out, x);
        proof {
            assert(kviews(out@) == insort(sort_spec(orig.subrange(0, i)), orig[i]));
            assert(sort_spec(orig.subrange(0, i + 1)) == insort(
                sort_spec(orig.subrange(0, i + 1).drop_last()),
                orig.subrange(0, i + 1).last(),
            ));
        }
    }
    proof {
        assert(orig.subrange(0, orig.len() as int) =~= orig);
    }
    out
}

/// Adds `k` to `a`, clamping at the largest representable key.
pub open spec fn sat_add(a: int, k: int) -> int {
    if a + k > i64::MAX {
        i64::MAX as int
    } else {
        a + k
    }
}

/// The key halfway between `a` and `b`, rounded toward `a` when the gap
/// is odd; total in either argument order.
pub open spec fn mid_spec(a: int, b: int) -> int {
    if b >= a {
        a + (b - a) / 2
    } else {
        b + (a - b) / 2
    }
}

pub fn sat_add_i64(a: i64, k: i64) -> (r: i64)
    requires
        k >= 0,
    ensures
        r as int == sat_add(a as int, k as int),
{
    if a <= i64::MAX - k {
        a + k
    } else {
        i64::MAX
    }
}

pub fn mid_i64(a: i64, b: i64) -> (r: i64)
    ensures
        r as int == mid_spec(a as int, b as int),
{
    if b >= a {
        let d: i128 = (b as i128) - (a as i128);
        let m: i128 = (a as i128) + d / 2;
        proof {
            assert(0 <= d / 2 <= d);
            assert(a as int <= m as int <= b as int);
        }
        m as i64
    } else {
        let d: i128 = (a as i128) - (b as i128);
        let m: i128 = (b as i128) + d / 2;
        proof {
            assert(0 <= d / 2 <= d);
            assert(b as int <= m as int <= a as int);
        }
        m as i64
    }
}

/// The ordering key a duplicate of the record `src_id` (whose own key is
/// `src_p`) receives, given the sorted sibling list: the midpoint to the
/// following sibling; a large gap after the last sibling; a tiny step if
/// the source is unexpectedly absent from its own sibling list.
pub open spec fn dup_priority_of(sorted: Seq<KeyV>, src_id: Seq<char>, src_p: int) -> int {
    match first_idx(key_ids(sorted), src_id) {
        None => sat_add(src_p, 1),
        Some(i) => if i + 1 < sorted.len() {
            mid_spec(src_p, sorted[i + 1].sort_priority)
        } else {
            sat_add(src_p, 1000)
        },
    }
}

pub fn next_priority(sorted: &Vec<SiblingKey>, src_id: &String, src_p: i64) -> (r: i64)
    ensures
        r as int == dup_priority_of(kviews(sorted@), src_id@, src_p as int),
{
    let n = sorted.len();
    let mut i: usize = 0;
    while i < n
        invariant
            i <= n,
            n == sorted@.len(),
            forall|j: int| 0 <= j < i ==> key_ids(kviews(sorted@))[j] != src_id@,
        decreases n - i,
    {
        if sorted[i].id == *src_id {
            proof {
                assert(key_ids(kviews(sorted@))[i as int] == src_id@);
                lemma_first_idx_found(key_ids(kviews(sorted@)), src_id@, i as int);
            }
            if i + 1 < n {
                return mid_i64(src_p, sorted[i + 1].sort_priority);
            } else {
                return sat_add_i64(src_p, 1000);
            }
        }
        proof {
            assert(key_ids(kviews(sorted@))[i as int] == sorted@[i as int].id@);
        }
        i += 1;
    }
    proof {
        lemma_first_idx_none(key_ids(kviews(sorted@)), src_id@);
    }
    sat_add_i64(src_p, 1)
}

pub open spec fn sibling_pred(r: ReqV, ws: Seq<char>, fid: Option<Seq<char>>) -> bool {
    r.workspace_id == ws && r.folder_id == fid
}

pub open spec fn keys_of(rs: Seq<ReqV>) -> Seq<KeyV> {
    rs.map_values(|r: ReqV| KeyV { id: r.id, sort_priority: r.sort_priority })
}

/// The ordering key assigned when `src` is duplicated among the request
/// rows `rows`: its siblings (same workspace, same folder) are sorted by
/// priority, and the key follows from the source's position there.
pub open spec fn dup_priority_in(rows: Seq<ReqV>, src: ReqV) -> int {
    dup_priority_of(
        sort_spec(keys_of(rows.filter(|r: ReqV| sibling_pred(r, src.workspace_id, src.folder_id)))),
        src.id,
        src.sort_priority,
    )
}

} // verus!
