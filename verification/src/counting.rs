//! Counting bound sessions. The central registry invariant says that
//! every entry's reference count equals the number of sessions bound
//! to it; these lemmas track that count across the session-table
//! mutations the dispatcher performs.

use vstd::prelude::*;
use crate::session::Session;

verus! {

/// Number of sessions in `ss` currently bound to entry `e`.
pub open spec fn count_bound(ss: Seq<Session>, e: int) -> nat
    decreases ss.len(),
{
    if ss.len() == 0 {
        0
    } else {
        count_bound(ss.drop_last(), e) + if ss.last().is_bound_to(e) {
            1nat
        } else {
            0nat
        }
    }
}

/// No more sessions can be bound to an entry than exist at all.
pub proof fn lemma_count_bound_le_len(ss: Seq<Session>, e: int)
    ensures
        count_bound(ss, e) <= ss.len(),
    decreases ss.len(),
{
    if ss.len() > 0 {
        lemma_count_bound_le_len(ss.drop_last(), e);
    }
}

/// Appending a session adds its own contribution to the count.
pub proof fn lemma_count_bound_push(ss: Seq<Session>, s: Session, e: int)
    ensures
        count_bound(ss.push(s), e) == count_bound(ss, e) + if s.is_bound_to(e) {
            1nat
        } else {
            0nat
        },
{
    assert(ss.push(s).drop_last() =~= ss);
}

/// Replacing one session swaps its old contribution for its new one.
pub proof fn lemma_count_bound_update(ss: Seq<Session>, i: int, s: Session, e: int)
    requires
        0 <= i < ss.len(),
    ensures
        count_bound(ss.update(i, s), e) + (if ss[i].is_bound_to(e) {
            1nat
        } else {
            0nat
        }) == count_bound(ss, e) + (if s.is_bound_to(e) {
            1nat
        } else {
            0nat
        }),
    decreases ss.len(),
{
    if i == ss.len() - 1 {
        assert(ss.update(i, s).drop_last() =~= ss.drop_last());
        assert(ss.update(i, s).last() == s);
    } else {
        assert(ss.update(i, s).drop_last() =~= ss.drop_last().update(i, s));
        assert(ss.update(i, s).last() == ss.last());
        lemma_count_bound_update(ss.drop_last(), i, s, e);
    }
}

/// The count is zero exactly when no session is bound to the entry.
pub proof fn lemma_count_bound_zero(ss: Seq<Session>, e: int)
    ensures
        (count_bound(ss, e) == 0) <==> (forall|j: int|
            0 <= j < ss.len() ==> !(#[trigger] ss[j]).is_bound_to(e)),
    decreases ss.len(),
{
    if ss.len() > 0 {
        lemma_count_bound_zero(ss.drop_last(), e);
        assert(forall|j: int|
            0 <= j < ss.len() - 1 ==> ss.drop_last()[j] == #[trigger] ss[j]);
        assert(ss.last() == ss[ss.len() - 1]);
    }
}

/// Two session tables of the same length in which every slot agrees
/// on whether it is bound to `e` have the same count for `e`.
pub proof fn lemma_count_bound_congruence(ss1: Seq<Session>, ss2: Seq<Session>, e: int)
    requires
        ss1.len() == ss2.len(),
        forall|j: int| 0 <= j < ss1.len() ==> ss1[j].is_bound_to(e) == ss2[j].is_bound_to(e),
    ensures
        count_bound(ss1, e) == count_bound(ss2, e),
    decreases ss1.len(),
{
    if ss1.len() > 0 {
        assert forall|j: int|
            0 <= j < ss1.len() - 1 implies ss1.drop_last()[j].is_bound_to(e)
            == ss2.drop_last()[j].is_bound_to(e) by {
            assert(ss1[j].is_bound_to(e) == ss2[j].is_bound_to(e));
        }
        lemma_count_bound_congruence(ss1.drop_last(), ss2.drop_last(), e);
        assert(ss1.last() == ss1[ss1.len() - 1]);
        assert(ss2.last() == ss2[ss2.len() - 1]);
    }
}

/// A session bound to `e` witnesses a positive count.
pub proof fn lemma_count_bound_positive(ss: Seq<Session>, i: int, e: int)
    requires
        0 <= i < ss.len(),
        ss[i].is_bound_to(e),
    ensures
        count_bound(ss, e) >= 1,
{
    lemma_count_bound_zero(ss, e);
}

} // verus!
