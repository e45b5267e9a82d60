use vstd::prelude::*;

verus! {

/// Index of the first identifier in `ids` equal to `id`, or `None`.
pub open spec fn first_idx(ids: Seq<Seq<char>>, id: Seq<char>) -> Option<int>
    decreases ids.len(),
{
    if ids.len() == 0 {
        None
    } else if ids[0] == id {
        Some(0int)
    } else {
        match first_idx(ids.drop_first(), id) {
            None => None,
            Some(i) => Some(i + 1),
        }
    }
}

pub open spec fn id_taken(ids: Seq<Seq<char>>, id: Seq<char>) -> bool {
    exists|i: int| 0 <= i < ids.len() && ids[i] == id
}

/// All identifiers are pairwise distinct and none is the empty sentinel.
pub open spec fn ids_distinct(ids: Seq<Seq<char>>) -> bool {
    &&& forall|i: int, j: int| 0 <= i < j < ids.len() ==> ids[i] != ids[j]
    &&& forall|i: int| 0 <= i < ids.len() ==> ids[i].len() > 0
}

pub proof fn lemma_first_idx_found(ids: Seq<Seq<char>>, id: Seq<char>, i: int)
    requires
        0 <= i < ids.len(),
        ids[i] == id,
        forall|j: int| 0 <= j < i ==> ids[j] != id,
    ensures
        first_idx(ids, id) == Some(i),
    decreases i,
{
    if i > 0 {
        lemma_first_idx_found(ids.drop_first(), id, i - 1);
    }
}

pub proof fn lemma_first_idx_props(ids: Seq<Seq<char>>, id: Seq<char>)
    ensures
        match first_idx(ids, id) {
            Some(i) => 0 <= i < ids.len() && ids[i] == id && forall|j: int|
                0 <= j < i ==> ids[j] != id,
            None => forall|j: int| 0 <= j < ids.len() ==> ids[j] != id,
        },
    decreases ids.len(),
{
    if ids.len() > 0 && ids[0] != id {
        let d = ids.drop_first();
        lemma_first_idx_props(d, id);
        match first_idx(d, id) {
            Some(i) => {
                assert(ids[i + 1] == d[i]);
                assert forall|j: int| 0 <= j < i + 1 implies ids[j] != id by {
                    if j > 0 {
                        assert(d[j - 1] == ids[j]);
                    }
                }
            },
            None => {
                assert forall|j: int| 0 <= j < ids.len() implies ids[j] != id by {
                    if j > 0 {
                        assert(d[j - 1] == ids[j]);
                    }
                }
            },
        }
    }
}

pub proof fn lemma_first_idx_none(ids: Seq<Seq<char>>, id: Seq<char>)
    requires
        forall|j: int| 0 <= j < ids.len() ==> ids[j] != id,
    ensures
        first_idx(ids, id) is None,
        !id_taken(ids, id),
    decreases ids.len(),
{
    if ids.len() > 0 {
        lemma_first_idx_none(ids.drop_first(), id);
    }
}

} // verus!
