//! The execution-plan validator.
//!
//! Interactions that must run in a fixed relative order carry a
//! (sequence, position) coordinate.  An interaction that already has one
//! keeps it; the rest are assigned collision-free coordinates in build
//! order, in a sequence past every explicitly used one.  Two equal
//! explicit coordinates are a hard error rather than a silent
//! reordering: an approval must precede the call that consumes it.

use vstd::prelude::*;
use crate::models::batch_auction_model::ExecutionPlanCoordinatesModel;
use crate::solve::SolveError;

verus! {

/// Pairwise-distinct coordinates.
pub open spec fn coords_unique(s: Seq<ExecutionPlanCoordinatesModel>) -> bool {
    forall|i: int, j: int| 0 <= i < j < s.len() ==> #[trigger] s[i] != #[trigger] s[j]
}

/// Pairwise-distinct explicit coordinates.
pub open spec fn explicit_coords_unique(s: Seq<Option<ExecutionPlanCoordinatesModel>>) -> bool {
    forall|i: int, j: int|
        0 <= i < j < s.len() && #[trigger] s[i] is Some && #[trigger] s[j] is Some ==> s[i]
            != s[j]
}

/// The sequence number an explicit coordinate uses, or `-1`.
pub open spec fn explicit_seq_of(o: Option<ExecutionPlanCoordinatesModel>) -> int {
    match o {
        Some(c) => c.sequence as int,
        None => -1,
    }
}

/// The highest sequence number any explicit coordinate uses, or `-1`.
pub open spec fn max_explicit_seq(s: Seq<Option<ExecutionPlanCoordinatesModel>>) -> int
    decreases s.len(),
{
    if s.len() == 0 {
        -1
    } else {
        let rest = max_explicit_seq(s.drop_last());
        match s.last() {
            Some(c) => if c.sequence > rest {
                c.sequence as int
            } else {
                rest
            },
            None => rest,
        }
    }
}

/// How many of the first `k` entries have no explicit coordinate.
pub open spec fn none_rank(s: Seq<Option<ExecutionPlanCoordinatesModel>>, k: int) -> nat
    decreases k,
{
    if k <= 0 {
        0
    } else {
        none_rank(s, k - 1) + if s[k - 1] is None {
            1nat
        } else {
            0nat
        }
    }
}

proof fn lemma_max_explicit_seq_bounds(s: Seq<Option<ExecutionPlanCoordinatesModel>>)
    ensures
        max_explicit_seq(s) >= -1,
        forall|k: int|
            0 <= k < s.len() ==> explicit_seq_of(#[trigger] s[k]) <= max_explicit_seq(s),
    decreases s.len(),
{
    if s.len() > 0 {
        lemma_max_explicit_seq_bounds(s.drop_last());
        assert forall|k: int| 0 <= k < s.len() implies explicit_seq_of(#[trigger] s[k])
            <= max_explicit_seq(s) by {
            if k < s.len() - 1 {
                assert(s.drop_last()[k] == s[k]);
            }
        }
    }
}

proof fn lemma_none_rank_le(s: Seq<Option<ExecutionPlanCoordinatesModel>>, k: int)
    requires
        0 <= k,
    ensures
        none_rank(s, k) <= k,
    decreases k,
{
    if k > 0 {
        lemma_none_rank_le(s, k - 1);
    }
}

proof fn lemma_none_rank_increases(s: Seq<Option<ExecutionPlanCoordinatesModel>>, k1: int, k2: int)
    requires
        0 <= k1 < k2,
        s[k1] is None,
    ensures
        none_rank(s, k1) < none_rank(s, k2),
    decreases k2,
{
    if k2 == k1 + 1 {
    } else {
        lemma_none_rank_increases(s, k1, k2 - 1);
    }
}

/// Keeps every explicit coordinate and assigns each remaining
/// interaction, in build order, a fresh coordinate in the first unused
/// sequence.  Fails, without reordering anything, when two explicit
/// coordinates collide.
pub fn assign_or_validate(interactions: &Vec<Option<ExecutionPlanCoordinatesModel>>) -> (r: Result<
    Vec<ExecutionPlanCoordinatesModel>,
    SolveError,
>)
    requires
        interactions@.len() < 0x100000000,
        max_explicit_seq(interactions@) < 0xffffffff,
    ensures
        match r {
            Ok(v) => {
                &&& explicit_coords_unique(interactions@)
                &&& v@.len() == interactions@.len()
                &&& forall|k: int|
                    0 <= k < interactions@.len() ==> match #[trigger] interactions@[k] {
                        Some(c) => v@[k] == c,
                        None => v@[k] == (ExecutionPlanCoordinatesModel {
                            sequence: (max_explicit_seq(interactions@) + 1) as u32,
                            position: none_rank(interactions@, k) as u32,
                        }),
                    }
                &&& coords_unique(v@)
            },
            Err(e) => e == SolveError::DuplicateExecutionPlan && !explicit_coords_unique(
                interactions@,
            ),
        },
{
    let n = interactions.len();
    for i in 0..n
        invariant
            n == interactions@.len(),
            forall|a: int, b: int|
                0 <= a < b < n && a < i && #[trigger] interactions@[a] is Some
                    && #[trigger] interactions@[b] is Some ==> interactions@[a]
                    != interactions@[b],
    {
        if interactions[i].is_some() {
            for j in (i + 1)..n
                invariant
                    n == interactions@.len(),
                    i < n,
                    interactions@[i as int] is Some,
                    forall|a: int, b: int|
                        0 <= a < b < n && a < i && #[trigger] interactions@[a] is Some
                            && #[trigger] interactions@[b] is Some ==> interactions@[a]
                            != interactions@[b],
                    forall|b: int|
                        i < b < j && #[trigger] interactions@[b] is Some ==> interactions@[i as int]
                            != interactions@[b],
            {
                let oi = interactions[i];
                let oj = interactions[j];
                match (oi, oj) {
                    (Some(a), Some(b)) => {
                        if a == b {
                            proof {
                                assert(interactions@[i as int] is Some
                                    && interactions@[j as int] is Some
                                    && interactions@[i as int] == interactions@[j as int]);
                            }
                            return Err(SolveError::DuplicateExecutionPlan);
                        }
                    },
                    _ => {},
                }
            }
        }
    }
    proof {
        lemma_max_explicit_seq_bounds(interactions@);
    }
    let mut max_seq: u32 = 0;
    let mut any_explicit = false;
    for i in 0..n
        invariant
            n == interactions@.len(),
            max_explicit_seq(interactions@.take(i as int)) == if any_explicit {
                max_seq as int
            } else {
                -1int
            },
    {
        proof {
            assert(interactions@.take(i as int + 1).drop_last() =~= interactions@.take(i as int));
        }
        match &interactions[i] {
            Some(c) => {
                if !any_explicit || c.sequence > max_seq {
                    max_seq = c.sequence;
                }
                any_explicit = true;
            },
            None => {},
        }
    }
    proof {
        assert(interactions@.take(n as int) =~= interactions@);
    }
    let fresh_seq: u32 = if any_explicit {
        max_seq + 1
    } else {
        0
    };
    let mut out: Vec<ExecutionPlanCoordinatesModel> = Vec::new();
    let mut next_pos: u32 = 0;
    for k in 0..n
        invariant
            n == interactions@.len(),
            n < 0x100000000,
            explicit_coords_unique(interactions@),
            fresh_seq as int == max_explicit_seq(interactions@) + 1,
            forall|a: int|
                0 <= a < n ==> explicit_seq_of(#[trigger] interactions@[a]) <= max_explicit_seq(
                    interactions@,
                ),
            out@.len() == k,
            next_pos as nat == none_rank(interactions@, k as int),
            next_pos <= k,
            forall|a: int|
                0 <= a < k ==> match #[trigger] interactions@[a] {
                    Some(c) => out@[a] == c,
                    None => out@[a] == (ExecutionPlanCoordinatesModel {
                        sequence: fresh_seq,
                        position: none_rank(interactions@, a) as u32,
                    }),
                },
    {
        match &interactions[k] {
            Some(c) => {
                out.push(*c);
            },
            None => {
                out.push(
                    ExecutionPlanCoordinatesModel { sequence: fresh_seq, position: next_pos },
                );
                next_pos = next_pos + 1;
            },
        }
    }
    proof {
        assert forall|i: int, j: int| 0 <= i < j < out@.len() implies #[trigger] out@[i]
            != #[trigger] out@[j] by {
            match (interactions@[i], interactions@[j]) {
                (Some(_), Some(_)) => {},
                (Some(_), None) => {
                    assert(out@[j].sequence == fresh_seq);
                    assert(out@[i].sequence <= max_explicit_seq(interactions@));
                },
                (None, Some(_)) => {
                    assert(out@[i].sequence == fresh_seq);
                    assert(out@[j].sequence <= max_explicit_seq(interactions@));
                },
                (None, None) => {
                    lemma_none_rank_increases(interactions@, i, j);
                    lemma_none_rank_le(interactions@, i);
                    lemma_none_rank_le(interactions@, j);
                    assert(out@[i].position != out@[j].position);
                },
            }
        }
    }
    Ok(out)
}

/// With no explicit coordinate anywhere, no sequence number is in use.
pub proof fn lemma_max_explicit_seq_all_none(s: Seq<Option<ExecutionPlanCoordinatesModel>>)
    requires
        forall|k: int| 0 <= k < s.len() ==> (#[trigger] s[k]) is None,
    ensures
        max_explicit_seq(s) == -1,
    decreases s.len(),
{
    if s.len() > 0 {
        assert(forall|k: int|
            0 <= k < s.len() - 1 ==> (#[trigger] s.drop_last()[k]) == s[k]);
        lemma_max_explicit_seq_all_none(s.drop_last());
        assert((#[trigger] s[s.len() - 1]) is None);
    }
}

/// With no explicit coordinate anywhere, the `k`-th entry is the `k`-th
/// unassigned one.
pub proof fn lemma_none_rank_all_none(s: Seq<Option<ExecutionPlanCoordinatesModel>>, k: int)
    requires
        0 <= k <= s.len(),
        forall|j: int| 0 <= j < s.len() ==> (#[trigger] s[j]) is None,
    ensures
        none_rank(s, k) == k,
    decreases k,
{
    if k > 0 {
        lemma_none_rank_all_none(s, k - 1);
    }
}

proof fn lemma_none_rank_increases_weak(
    s: Seq<Option<ExecutionPlanCoordinatesModel>>,
    k1: int,
    k2: int,
)
    requires
        0 <= k1 <= k2,
    ensures
        none_rank(s, k1) <= none_rank(s, k2),
    decreases k2,
{
    if k1 < k2 {
        lemma_none_rank_increases_weak(s, k1, k2 - 1);
    }
}

} // verus!
