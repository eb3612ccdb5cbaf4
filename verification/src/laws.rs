//! The registry's laws, proved over the spec transition functions that every
//! executable operation's contract is stated with: ids grow strictly and are
//! never reused, creation is visible in the task map, removal is idempotent,
//! an edit round-trip commits exactly the drafted fields, remove outranks save
//! when a session signals both, toggling twice is the identity, and every
//! operation preserves the state invariant.

use vstd::prelude::*;

use crate::app::AppView;
use crate::app::created_id;
use crate::app::inv;
use crate::app::spec_begin_edit;
use crate::app::spec_commit;
use crate::app::spec_create;
use crate::app::spec_delete_via_draft;
use crate::app::spec_discard;
use crate::app::spec_end_session;
use crate::app::spec_mutate_draft;
use crate::app::spec_remove;
use crate::app::spec_toggle;
use crate::models::FieldChangeView;
use crate::models::TaskView;
use crate::models::default_task;
use crate::models::toggled;

verus! {

/// One registry operation, as the presentation shell can request it.
pub ghost enum Op {
    Create,
    Remove { id: nat },
    Toggle { id: nat },
    BeginEdit { id: nat },
    MutateDraft { change: FieldChangeView },
    CommitDraft,
    DiscardDraft,
    DeleteViaDraft,
    EndSession { save: bool, remove: bool, close: bool },
}

/// The registry state after one operation.
pub open spec fn apply_op(v: AppView, op: Op) -> AppView {
    match op {
        Op::Create => spec_create(v),
        Op::Remove { id } => spec_remove(v, id),
        Op::Toggle { id } => spec_toggle(v, id),
        Op::BeginEdit { id } => spec_begin_edit(v, id),
        Op::MutateDraft { change } => spec_mutate_draft(v, change),
        Op::CommitDraft => spec_commit(v),
        Op::DiscardDraft => spec_discard(v),
        Op::DeleteViaDraft => spec_delete_via_draft(v),
        Op::EndSession { save, remove, close } => spec_end_session(v, save, remove, close),
    }
}

/// The registry state after a whole sequence of operations.
pub open spec fn apply_ops(v: AppView, ops: Seq<Op>) -> AppView
    decreases ops.len(),
{
    if ops.len() == 0 {
        v
    } else {
        apply_ops(apply_op(v, ops[0]), ops.drop_first())
    }
}

/// The registry state just before the operation at position `i`.
pub open spec fn state_at(v: AppView, ops: Seq<Op>, i: int) -> AppView {
    apply_ops(v, ops.take(i))
}

/// No operation ever lowers the id counter.
pub proof fn lemma_op_keeps_next_id(v: AppView, op: Op)
    ensures
        v.next_id <= apply_op(v, op).next_id,
{
}

/// Over any operation sequence, the id counter never goes down.
pub proof fn lemma_ops_keep_next_id(v: AppView, ops: Seq<Op>)
    ensures
        v.next_id <= apply_ops(v, ops).next_id,
    decreases ops.len(),
{
    if ops.len() == 0 {
    } else {
        lemma_op_keeps_next_id(v, ops[0]);
        lemma_ops_keep_next_id(apply_op(v, ops[0]), ops.drop_first());
    }
}

/// Applying a concatenation applies the two parts in order.
pub proof fn lemma_apply_ops_concat(v: AppView, a: Seq<Op>, b: Seq<Op>)
    ensures
        apply_ops(v, a + b) == apply_ops(apply_ops(v, a), b),
    decreases a.len(),
{
    if a.len() == 0 {
        assert(a + b =~= b);
    } else {
        assert((a + b)[0] == a[0]);
        assert((a + b).drop_first() =~= a.drop_first() + b);
        lemma_apply_ops_concat(apply_op(v, a[0]), a.drop_first(), b);
    }
}

/// Taking one more operation applies exactly that operation.
pub proof fn lemma_state_at_step(v: AppView, ops: Seq<Op>, i: int)
    requires
        0 <= i < ops.len(),
    ensures
        state_at(v, ops, i + 1) == apply_op(state_at(v, ops, i), ops[i]),
{
    let single = seq![ops[i]];
    assert(ops.take(i + 1) =~= ops.take(i) + single);
    lemma_apply_ops_concat(v, ops.take(i), single);
    assert(single.drop_first() =~= Seq::<Op>::empty());
    let s = state_at(v, ops, i);
    assert(apply_ops(apply_op(s, ops[i]), Seq::<Op>::empty()) == apply_op(s, ops[i]));
    assert(apply_ops(s, single) == apply_ops(apply_op(s, single[0]), single.drop_first()));
    assert(apply_ops(s, single) == apply_op(s, ops[i]));
}

/// Monotonic ids: over any operation sequence, whatever stands between them,
/// an earlier creation returns a strictly smaller id than a later one — ids
/// never repeat.
pub proof fn lemma_monotonic_ids(v: AppView, ops: Seq<Op>, i: int, j: int)
    requires
        0 <= i < j < ops.len(),
        ops[i] is Create,
        ops[j] is Create,
    ensures
        created_id(state_at(v, ops, i)) < created_id(state_at(v, ops, j)),
{
    let si = state_at(v, ops, i);
    lemma_state_at_step(v, ops, i);
    assert(state_at(v, ops, i + 1).next_id == si.next_id + 1);
    assert(ops.take(j) =~= ops.take(i + 1) + ops.subrange(i + 1, j));
    lemma_apply_ops_concat(v, ops.take(i + 1), ops.subrange(i + 1, j));
    assert(ops.take(i + 1).take(i + 1) =~= ops.take(i + 1));
    lemma_ops_keep_next_id(state_at(v, ops, i + 1), ops.subrange(i + 1, j));
}

/// Every operation preserves the state invariant: stored ids and the id under
/// edit stay below the next id to hand out.
pub proof fn lemma_op_preserves_inv(v: AppView, op: Op)
    requires
        inv(v),
    ensures
        inv(apply_op(v, op)),
{
    match op {
        Op::Create => {
            assert forall|k: nat|
                #[trigger] apply_op(v, op).items.dom().contains(k) implies k < apply_op(
                v,
                op,
            ).next_id by {
                if k != v.next_id {
                    assert(v.items.dom().contains(k));
                }
            }
        }
        Op::Toggle { id } => {
            if v.items.dom().contains(id) {
                assert forall|k: nat|
                    #[trigger] apply_op(v, op).items.dom().contains(k) implies k < apply_op(
                    v,
                    op,
                ).next_id by {
                    assert(v.items.dom().contains(k));
                }
            }
        }
        Op::CommitDraft => {
            match v.draft {
                Some(p) => {
                    assert forall|k: nat|
                        #[trigger] apply_op(v, op).items.dom().contains(k) implies k < apply_op(
                        v,
                        op,
                    ).next_id by {
                        if k != p.0 {
                            assert(v.items.dom().contains(k));
                        }
                    }
                }
                None => {}
            }
        }
        _ => {}
    }
}

/// Create-then-list: right after a creation, the task map holds the returned
/// id, bound to a task with default field values.
pub proof fn lemma_create_then_list(v: AppView)
    ensures
        spec_create(v).items.dom().contains(created_id(v)),
        spec_create(v).items[created_id(v)] == default_task(),
{
}

/// Remove idempotence: removing the same id twice leaves exactly the state
/// that removing it once leaves.
pub proof fn lemma_remove_idempotent(v: AppView, id: nat)
    ensures
        spec_remove(spec_remove(v, id), id) == spec_remove(v, id),
{
    assert(spec_remove(spec_remove(v, id), id) =~= spec_remove(v, id));
}

/// Edit round-trip, committed: beginning an edit on a stored task, retitling
/// the draft and committing stores the task with the new title and the other
/// fields unchanged, and clears the draft.
pub proof fn lemma_edit_commit_round_trip(v: AppView, id: nat, title: Seq<char>)
    requires
        v.items.dom().contains(id),
    ensures
        ({
            let c = spec_commit(
                spec_mutate_draft(spec_begin_edit(v, id), FieldChangeView::Name(title)),
            );
            &&& c.items.dom() =~= v.items.dom()
            &&& c.items[id].name == title
            &&& c.items[id].description == v.items[id].description
            &&& c.items[id].completed == v.items[id].completed
            &&& forall|k: nat| k != id && #[trigger] v.items.dom().contains(k)
                ==> c.items[k] == v.items[k]
            &&& c.draft is None
            &&& c.next_id == v.next_id
        }),
{
}

/// Edit round-trip, discarded: beginning an edit and mutating the draft leave
/// the stored tasks untouched, and discarding restores a draft-free state with
/// the same tasks.
pub proof fn lemma_edit_discard_keeps_tasks(v: AppView, id: nat, change: FieldChangeView)
    requires
        v.items.dom().contains(id),
    ensures
        spec_mutate_draft(spec_begin_edit(v, id), change).items == v.items,
        spec_discard(spec_mutate_draft(spec_begin_edit(v, id), change)).items == v.items,
        spec_discard(spec_mutate_draft(spec_begin_edit(v, id), change)).draft is None,
{
}

/// Save+remove precedence: when one session signals both save and remove, the
/// task under edit is absent afterwards — deleted, not saved.
pub proof fn lemma_save_remove_precedence(v: AppView, id: nat, t: TaskView, close: bool)
    requires
        v.draft == Some((id, t)),
    ensures
        !spec_end_session(v, true, true, close).items.dom().contains(id),
        spec_end_session(v, true, true, close).draft is None,
        // by contrast, save alone stores the draft:
        spec_end_session(v, true, false, close).items[id] == t,
{
}

/// Toggle is self-inverse: toggling the same id twice restores the state.
pub proof fn lemma_toggle_self_inverse(v: AppView, id: nat)
    ensures
        spec_toggle(spec_toggle(v, id), id) == v,
{
    if v.items.dom().contains(id) {
        let v1 = spec_toggle(v, id);
        assert(v1.items.dom().contains(id));
        assert(toggled(toggled(v.items[id])) =~= v.items[id]);
        assert(spec_toggle(v1, id).items =~= v.items);
        assert(spec_toggle(v1, id) =~= v);
    }
}

} // verus!
