//! The chain of a recovery's phases, from the last one back to the first.
use vstd::prelude::*;

use crate::first_refusal;
use crate::journal_rules;
use crate::model::RecoveryRecord;
use crate::record_forms;
use crate::record_forms::RecoveryFormsView;
use crate::rules;
use crate::snapshot_rules;
use crate::views::StateView;

verus! {

/// The phase that stands `k` phases in front of the given one.
pub open spec fn back(s: StateView, from: Option<u128>, k: nat) -> Option<u128>
    decreases k,
{
    if k == 0 {
        from
    } else {
        match from {
            None => None,
            Some(id) => back(s, s.recovery.phases[id].previous_phase, (k - 1) as nat),
        }
    }
}

/// Whether the id is a row of the operation with the sequence number.
pub open spec fn numbered(s: StateView, op: RecoveryRecord, id: Option<u128>, sequence: int) -> bool {
    match id {
        None => false,
        Some(id) => {
            &&& s.recovery.phases.dom().contains(id)
            &&& s.recovery.phases[id].operation_id == op.request.operation_id
            &&& s.recovery.phases[id].sequence == sequence
        },
    }
}

/// Whether the phases in front of the cursor, and it, are numbered from `n` down to one,
/// with none in front of the first.
pub open spec fn descends(s: StateView, op: RecoveryRecord, cursor: Option<u128>, n: int) -> bool {
    &&& forall|k: nat| k < n ==> numbered(s, op, #[trigger] back(s, cursor, k), n - k)
    &&& back(s, cursor, n as nat) is None
}

/// Whether following the phases back from the last one visits every phase of the
/// operation, each with the sequence number below the one behind it.
pub open spec fn visited(s: StateView, op: RecoveryRecord) -> bool {
    let n = op.next_phase_sequence - 1;
    &&& n >= 0
    &&& descends(s, op, op.last_phase, n)
    &&& forall|id: u128| #[trigger]
        s.recovery.phases.dom().contains(id) && s.recovery.phases[id].operation_id
            == op.request.operation_id ==> exists|k: nat|
            k < n && #[trigger] back(s, op.last_phase, k) == Some(id)
}

proof fn lemma_descends(
    s: StateView,
    op: RecoveryRecord,
    cursor: Option<u128>,
    expected: u64,
    birth: Option<u128>,
)
    requires
        snapshot_rules::chain(s, op, cursor, expected, birth) is Ok,
    ensures
        descends(s, op, cursor, expected as int),
    decreases expected,
{
    reveal(rules::phase);
    if let Some(id) = cursor {
        let p = s.recovery.phases[id];
        let next = rules::chain_link(s, op, p, birth)->Ok_0;
        lemma_descends(s, op, p.previous_phase, (expected - 1) as u64, next);
        assert forall|k: nat| k < expected implies numbered(
            s,
            op,
            #[trigger] back(s, cursor, k),
            expected - k,
        ) by {
            if k > 0 {
                assert(back(s, cursor, k) == back(s, p.previous_phase, (k - 1) as nat));
            }
        }
        assert(back(s, cursor, expected as nat) == back(
            s,
            p.previous_phase,
            (expected - 1) as nat,
        ));
    }
}

/// As many phases as the operation has, each another one, are all of them.
proof fn lemma_visited(s: StateView, op: RecoveryRecord)
    requires
        s.recovery.phases.dom().finite(),
        snapshot_rules::chained(s, op) is Ok,
    ensures
        visited(s, op),
{
    reveal(snapshot_rules::chained);
    reveal(snapshot_rules::next_sequence);
    let n = (op.next_phase_sequence - 1) as nat;
    lemma_descends(s, op, op.last_phase, n as u64, op.completion_intent);
    let ids = Seq::new(n, |k: int| back(s, op.last_phase, k as nat)->0);
    let all = snapshot_rules::phases_of(s.recovery.phases, op.request.operation_id);
    assert forall|i: int, j: int| 0 <= i < n && 0 <= j < n && i != j implies ids[i] != ids[j] by {
        assert(numbered(s, op, back(s, op.last_phase, i as nat), n - i));
        assert(numbered(s, op, back(s, op.last_phase, j as nat), n - j));
    }
    ids.unique_seq_to_set();
    assert(ids.to_set().subset_of(all)) by {
        assert forall|id: u128| ids.to_set().contains(id) implies all.contains(id) by {
            let k = choose|k: int| 0 <= k < n && ids[k] == id;
            assert(numbered(s, op, back(s, op.last_phase, k as nat), n - k));
        }
    }
    vstd::set_lib::lemma_subset_equality(ids.to_set(), all);
    assert forall|id: u128| #[trigger]
        s.recovery.phases.dom().contains(id) && s.recovery.phases[id].operation_id
            == op.request.operation_id implies exists|k: nat|
        k < n && #[trigger] back(s, op.last_phase, k) == Some(id) by {
        assert(all.contains(id));
        assert(ids.to_set().contains(id));
        let k = choose|k: int| 0 <= k < n && ids[k] == id;
        assert(numbered(s, op, back(s, op.last_phase, k as nat), n - k));
        assert(back(s, op.last_phase, k as nat) == Some(id));
    }
}

/// A journal that passes validation and is not empty is Control's, under an
/// installation. Each operation is bound to its target, and there is no other target.
/// Each phase belongs to an operation, and is visited exactly where the phases of that
/// operation are followed back from its last one, numbered down to one.
pub proof fn lemma_valid_journal_chained(s: StateView, forms: RecoveryFormsView)
    requires
        s.recovery.phases.dom().finite(),
        !snapshot_rules::is_empty(s.recovery),
        snapshot_rules::journal(s, forms) is Ok,
    ensures
        journal_rules::is_control(s),
        s.lifecycle is Some,
        s.recovery.targets.dom().len() == s.recovery.operations.dom().len(),
        forall|k: u128| #[trigger]
            s.recovery.operations.dom().contains(k) ==> s.recovery.targets.get(
                s.recovery.operations[k].request.target_incarnation,
            ) == Some(k) && s.recovery.operations[k].request.operation_id == k && visited(
                s,
                s.recovery.operations[k],
            ),
        forall|id: u128| #[trigger]
            s.recovery.phases.dom().contains(id) ==> s.recovery.operations.dom().contains(
                s.recovery.phases[id].operation_id,
            ),
{
    reveal(snapshot_rules::journal);
    let heads = |key: u128, op: RecoveryRecord|
        record_forms::formed(
            forms.operations.get(key),
            snapshot_rules::operation_checked(s, key, op),
        );
    first_refusal::lemma_every(s.recovery.operations, heads);
    assert forall|k: u128| #[trigger] s.recovery.operations.dom().contains(k) implies
        s.recovery.targets.get(s.recovery.operations[k].request.target_incarnation) == Some(k)
        && s.recovery.operations[k].request.operation_id == k && visited(
        s,
        s.recovery.operations[k],
    ) by {
        assert(heads(k, s.recovery.operations[k]) is Ok);
        reveal(snapshot_rules::operation_checked);
        reveal(snapshot_rules::head_checked);
        reveal(snapshot_rules::head_bound);
        lemma_visited(s, s.recovery.operations[k]);
    }
}

} // verus!
