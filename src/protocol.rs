//! The epoch protocol as plain arithmetic on the counter and on guard marks.
use vstd::prelude::*;

verus! {

/// A mutable guard stamped `mark` is the authoritative view of its cell
/// exactly when the cell's counter is one past the mark.
pub open spec fn is_authoritative(epoch: nat, mark: nat) -> bool {
    epoch == mark + 1
}

/// A read guard stamped `mark` sees the current value exactly when no
/// mutable guard issued after it is still outstanding.
pub open spec fn is_current(epoch: nat, mark: nat) -> bool {
    epoch == mark
}

/// The counter after a mutable-access request.
pub open spec fn epoch_after_borrow(epoch: nat) -> nat {
    epoch + 1
}

/// The counter after a mutable guard stamped `mark` is released: rolled back
/// to the mark when that guard is authoritative, untouched otherwise.
pub open spec fn epoch_after_release(epoch: nat, mark: nat) -> nat {
    if is_authoritative(epoch, mark) {
        mark
    } else {
        epoch
    }
}

/// The counter after releasing, one by one, the `k` guards stamped
/// `base + k - 1`, ..., `base + 1`, `base`: the topmost first.
pub open spec fn epoch_after_releasing_down(epoch: nat, base: nat, k: nat) -> nat
    decreases k,
{
    if k == 0 {
        epoch
    } else {
        epoch_after_releasing_down(epoch_after_release(epoch, (base + k - 1) as nat), base, (k - 1) as nat)
    }
}

/// The marks of live mutable guards are distinct and all below the counter.
pub open spec fn marks_consistent(epoch: nat, live: Seq<nat>) -> bool {
    &&& live.no_duplicates()
    &&& forall|i: int| 0 <= i < live.len() ==> #[trigger] live[i] < epoch
}

/// Stack discipline: `n` guards requested from counter `epoch` are stamped
/// `epoch`, ..., `epoch + n - 1` and leave the counter at `epoch + n`. When
/// they are released in reverse order, each one is authoritative at the
/// moment all guards above it have been released, and once all are released
/// the counter is back where it started.
pub proof fn lemma_lifo_round_trip(epoch: nat, n: nat)
    ensures
        forall|j: nat| j < n ==> is_authoritative(
            #[trigger] epoch_after_releasing_down(epoch + n, epoch + j + 1, (n - j - 1) as nat),
            epoch + j,
        ),
        epoch_after_releasing_down(epoch + n, epoch, n) == epoch,
{
    assert forall|j: nat| j <= n implies #[trigger] epoch_after_releasing_down(
        epoch + n,
        epoch + j,
        (n - j) as nat,
    ) == epoch + j by {
        lemma_release_down_from_top(epoch + j, (n - j) as nat);
    }
    assert forall|j: nat| j < n implies is_authoritative(
        #[trigger] epoch_after_releasing_down(epoch + n, epoch + j + 1, (n - j - 1) as nat),
        epoch + j,
    ) by {
        lemma_release_down_from_top(epoch + j + 1, (n - j - 1) as nat);
    }
    lemma_release_down_from_top(epoch, n);
}

proof fn lemma_release_down_from_top(base: nat, k: nat)
    ensures
        epoch_after_releasing_down(base + k, base, k) == base,
    decreases k,
{
    if k > 0 {
        assert(epoch_after_release(base + k, (base + k - 1) as nat) == base + k - 1);
        lemma_release_down_from_top(base, (k - 1) as nat);
    }
}

/// Staleness: once a guard B is requested while guard A is live, A is no
/// longer authoritative and B is, until B is released.
pub proof fn lemma_superseded_guard_is_stale(epoch: nat)
    ensures
        ({
            let a = epoch;
            let b = epoch_after_borrow(epoch);
            let now = epoch_after_borrow(b);
            !is_authoritative(now, a) && is_authoritative(now, b)
        }),
{
}

/// A guard's own validity does not depend on what became of earlier guards:
/// whatever the counter was when it was requested, the guard is
/// authoritative right after, and releasing it puts the counter back.
pub proof fn lemma_guard_independent_of_earlier(epoch: nat)
    ensures
        is_authoritative(epoch_after_borrow(epoch), epoch),
        epoch_after_release(epoch_after_borrow(epoch), epoch) == epoch,
{
}

/// Abandonment: when guard A is abandoned and guard B is then requested,
/// used and released, B is authoritative throughout and its release leaves
/// the counter one above where it was before A, the slot A never gave back.
pub proof fn lemma_abandoned_slot_stays(epoch: nat)
    ensures
        ({
            let b = epoch_after_borrow(epoch);
            let now = epoch_after_borrow(b);
            is_authoritative(now, b) && epoch_after_release(now, b) == epoch + 1
        }),
{
}

/// Releasing an inner guard while an outer one is authoritative restores
/// authority to the outer guard.
pub proof fn lemma_inner_release_restores_outer(epoch: nat, outer: nat)
    requires
        is_authoritative(epoch, outer),
    ensures
        is_authoritative(epoch_after_release(epoch_after_borrow(epoch), epoch), outer),
{
}

/// A request keeps the live marks consistent, the new guard joining them.
pub proof fn lemma_borrow_keeps_marks_consistent(epoch: nat, live: Seq<nat>)
    requires
        marks_consistent(epoch, live),
    ensures
        marks_consistent(epoch_after_borrow(epoch), live.push(epoch)),
{
    let next = live.push(epoch);
    assert forall|i: int, j: int| 0 <= i < next.len() && 0 <= j < next.len() && i != j implies next[i]
        != next[j] by {
        if i < live.len() && j < live.len() {
            assert(next[i] == live[i] && next[j] == live[j]);
        } else if i < live.len() {
            assert(next[i] == live[i]);
        } else {
            assert(next[j] == live[j]);
        }
    }
    assert forall|i: int| 0 <= i < next.len() implies #[trigger] next[i] < epoch_after_borrow(epoch) by {
        if i < live.len() {
            assert(next[i] == live[i]);
        }
    }
}

/// Releasing any live guard, in any order, keeps the remaining marks
/// consistent.
pub proof fn lemma_release_keeps_marks_consistent(epoch: nat, live: Seq<nat>, i: int)
    requires
        marks_consistent(epoch, live),
        0 <= i < live.len(),
    ensures
        marks_consistent(epoch_after_release(epoch, live[i]), live.remove(i)),
{
    let rest = live.remove(i);
    assert forall|k: int| 0 <= k < rest.len() implies rest[k] == live[if k < i { k } else { k + 1 }] by {}
    assert forall|k: int, l: int| 0 <= k < rest.len() && 0 <= l < rest.len() && k != l implies rest[k]
        != rest[l] by {
        assert(rest[k] == live[if k < i { k } else { k + 1 }]);
        assert(rest[l] == live[if l < i { l } else { l + 1 }]);
    }
    assert forall|k: int| 0 <= k < rest.len() implies #[trigger] rest[k] < epoch_after_release(epoch, live[i]) by {
        let src = if k < i { k } else { k + 1 };
        assert(rest[k] == live[src]);
        assert(live[src] < epoch);
        assert(live[src] != live[i]);
    }
}

/// Abandoning a live guard, so that it is never used or released, keeps the
/// remaining marks consistent.
pub proof fn lemma_abandon_keeps_marks_consistent(epoch: nat, live: Seq<nat>, i: int)
    requires
        marks_consistent(epoch, live),
        0 <= i < live.len(),
    ensures
        marks_consistent(epoch, live.remove(i)),
{
    let rest = live.remove(i);
    assert forall|k: int| 0 <= k < rest.len() implies rest[k] == live[if k < i { k } else { k + 1 }] by {}
    assert forall|k: int, l: int| 0 <= k < rest.len() && 0 <= l < rest.len() && k != l implies rest[k]
        != rest[l] by {
        assert(rest[k] == live[if k < i { k } else { k + 1 }]);
        assert(rest[l] == live[if l < i { l } else { l + 1 }]);
    }
    assert forall|k: int| 0 <= k < rest.len() implies #[trigger] rest[k] < epoch by {
        assert(rest[k] == live[if k < i { k } else { k + 1 }]);
    }
}

/// With consistent marks, at most one live guard is authoritative, however
/// the guards were released or abandoned before.
pub proof fn lemma_at_most_one_authoritative(epoch: nat, live: Seq<nat>, i: int, j: int)
    requires
        marks_consistent(epoch, live),
        0 <= i < live.len(),
        0 <= j < live.len(),
        is_authoritative(epoch, live[i]),
        is_authoritative(epoch, live[j]),
    ensures
        i == j,
{
}

} // verus!
