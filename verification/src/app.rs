//! The task registry: a collection of tasks addressed by ids handed out in
//! increasing order and never reused, plus at most one staged edit draft.
//! Every operation's contract is stated against the registry's mathematical
//! value, an [`AppView`], through the spec transition functions below.

use vstd::prelude::*;

use crate::models::FieldChange;
use crate::models::FieldChangeView;
use crate::models::TaskView;
use crate::models::TodoItem;
use crate::models::apply_change;
use crate::models::default_task;
use crate::models::toggled;
use crate::store::distinct_keys;
use crate::store::has_key;
use crate::store::lemma_map_of_dom;
use crate::store::lemma_map_of_index;
use crate::store::lemma_map_of_push;
use crate::store::lemma_map_of_remove;
use crate::store::lemma_map_of_update;
use crate::store::map_of;

verus! {

/// The mathematical value of a registry: the task map, the next id to hand
/// out, and the draft of the task currently open for editing, if any.
#[verifier::ext_equal]
pub ghost struct AppView {
    pub items: Map<nat, TaskView>,
    pub next_id: nat,
    pub draft: Option<(nat, TaskView)>,
}

/// The registry's state invariant: every stored id, and the id under edit,
/// lies below the next id to hand out, so an id is never handed out twice.
pub open spec fn inv(v: AppView) -> bool {
    &&& forall|k: nat| #[trigger] v.items.dom().contains(k) ==> k < v.next_id
    &&& match v.draft {
        Some(p) => p.0 < v.next_id,
        None => true,
    }
}

/// The state of a freshly constructed registry.
pub open spec fn empty_registry() -> AppView {
    AppView { items: Map::empty(), next_id: 0, draft: None }
}

/// Creation: a task with default fields is stored under the next id, and the
/// counter moves up by exactly one.
pub open spec fn spec_create(v: AppView) -> AppView {
    AppView {
        items: v.items.insert(v.next_id, default_task()),
        next_id: v.next_id + 1,
        draft: v.draft,
    }
}

/// The id that creation hands out.
pub open spec fn created_id(v: AppView) -> nat {
    v.next_id
}

/// Removal: the task under `id` leaves the map; absent ids change nothing.
pub open spec fn spec_remove(v: AppView, id: nat) -> AppView {
    AppView { items: v.items.remove(id), next_id: v.next_id, draft: v.draft }
}

/// Direct save: `t` replaces whatever the map stored under `id`.
pub open spec fn spec_save(v: AppView, id: nat, t: TaskView) -> AppView {
    AppView { items: v.items.insert(id, t), next_id: v.next_id, draft: v.draft }
}

/// Toggling: the completion flag of the task under `id` flips; absent ids
/// change nothing.
pub open spec fn spec_toggle(v: AppView, id: nat) -> AppView {
    if v.items.dom().contains(id) {
        AppView {
            items: v.items.insert(id, toggled(v.items[id])),
            next_id: v.next_id,
            draft: v.draft,
        }
    } else {
        v
    }
}

/// Opening an edit session: the draft becomes a copy of the stored task,
/// silently replacing any earlier draft; absent ids change nothing.
pub open spec fn spec_begin_edit(v: AppView, id: nat) -> AppView {
    if v.items.dom().contains(id) {
        AppView { items: v.items, next_id: v.next_id, draft: Some((id, v.items[id])) }
    } else {
        v
    }
}

/// A draft edit: one field assignment lands on the draft alone; the stored
/// tasks are untouched, and without a draft nothing changes.
pub open spec fn spec_mutate_draft(v: AppView, c: FieldChangeView) -> AppView {
    match v.draft {
        Some(p) => AppView {
            items: v.items,
            next_id: v.next_id,
            draft: Some((p.0, apply_change(p.1, c))),
        },
        None => v,
    }
}

/// Commit: the draft fully replaces the stored task under its id and the
/// draft is cleared; without a draft nothing changes.
pub open spec fn spec_commit(v: AppView) -> AppView {
    match v.draft {
        Some(p) => AppView { items: v.items.insert(p.0, p.1), next_id: v.next_id, draft: None },
        None => v,
    }
}

/// Cancel: the draft is dropped and the stored tasks are untouched.
pub open spec fn spec_discard(v: AppView) -> AppView {
    AppView { items: v.items, next_id: v.next_id, draft: None }
}

/// Removal from the edit view: the draft's task leaves the map and the draft
/// is cleared; without a draft nothing changes.
pub open spec fn spec_delete_via_draft(v: AppView) -> AppView {
    match v.draft {
        Some(p) => AppView { items: v.items.remove(p.0), next_id: v.next_id, draft: None },
        None => v,
    }
}

/// The single outcome of an edit session's save / remove / close signals.
#[derive(Clone, Copy, Debug, PartialEq, Eq, Structural)]
pub enum SessionAction {
    Delete,
    Commit,
    Discard,
    KeepOpen,
}

/// Which action one edit session ends in: remove takes precedence over save,
/// save over closing, and a plain close discards the draft; with no signal at
/// all the session stays open.
pub open spec fn spec_resolve(save: bool, remove: bool, close: bool) -> SessionAction {
    if remove {
        SessionAction::Delete
    } else if save {
        SessionAction::Commit
    } else if close {
        SessionAction::Discard
    } else {
        SessionAction::KeepOpen
    }
}

/// Ending a session applies exactly the resolved action to the registry.
pub open spec fn spec_end_session(v: AppView, save: bool, remove: bool, close: bool) -> AppView {
    match spec_resolve(save, remove, close) {
        SessionAction::Delete => spec_delete_via_draft(v),
        SessionAction::Commit => spec_commit(v),
        SessionAction::Discard => spec_discard(v),
        SessionAction::KeepOpen => v,
    }
}

/// Maps the signals gathered during one edit session to the single action to
/// perform on the registry, with remove taking precedence over save.
pub fn resolve_session(save: bool, remove: bool, close: bool) -> (a: SessionAction)
    ensures
        a == spec_resolve(save, remove, close),
{
    if remove {
        SessionAction::Delete
    } else if save {
        SessionAction::Commit
    } else if close {
        SessionAction::Discard
    } else {
        SessionAction::KeepOpen
    }
}

/// The task registry. Tasks are stored as `(id, task)` pairs with pairwise
/// distinct ids; `currently_edited` is the single staged draft.
pub struct App {
    items: Vec<(u32, TodoItem)>,
    next_id: u32,
    currently_edited: Option<(u32, TodoItem)>,
}

impl View for App {
    type V = AppView;

    closed spec fn view(&self) -> AppView {
        AppView {
            items: map_of(self.items@),
            next_id: self.next_id as nat,
            draft: match self.currently_edited {
                Some(p) => Some((p.0 as nat, p.1@)),
                None => None,
            },
        }
    }
}

impl App {
    /// The representation is well formed: stored ids are pairwise distinct and
    /// every id the registry has handed out stays below `next_id`.
    pub closed spec fn wf(&self) -> bool {
        &&& distinct_keys(self.items@)
        &&& forall|i: int|
            0 <= i < self.items@.len() ==> (#[trigger] self.items@[i]).0 < self.next_id
        &&& match self.currently_edited {
            Some(p) => p.0 < self.next_id,
            None => true,
        }
    }

    /// A well-formed registry satisfies the state invariant of its value.
    pub proof fn lemma_wf_inv(&self)
        requires
            self.wf(),
        ensures
            inv(self@),
    {
        lemma_map_of_dom(self.items@);
        assert forall|k: nat| #[trigger] self@.items.dom().contains(k) implies k < self@.next_id by {
            let i = choose|i: int|
                0 <= i < self.items@.len() && (#[trigger] self.items@[i]).0 as nat == k;
            assert(self.items@[i].0 < self.next_id);
        }
    }

    /// The display name of the application.
    pub fn name() -> (r: &'static str)
        ensures
            r@ == "Todo List Manager"@,
    {
        "Todo List Manager"
    }

    /// The index at which `id` is stored, if it is.
    fn find_index(&self, id: u32) -> (r: Option<usize>)
        ensures
            match r {
                Some(i) => i < self.items@.len() && self.items@[i as int].0 == id,
                None => !has_key(self.items@, id as nat),
            },
    {
        let n = self.items.len();
        let mut i: usize = 0;
        while i < n
            invariant
                n == self.items@.len(),
                i <= n,
                forall|j: int| 0 <= j < i ==> (#[trigger] self.items@[j]).0 != id,
            decreases n - i,
        {
            if self.items[i].0 == id {
                return Some(i);
            }
            i = i + 1;
        }
        None
    }

    /// The id that the next creation will hand out.
    pub fn next_id(&self) -> (id: u32)
        ensures
            id == self@.next_id,
    {
        self.next_id
    }

    /// Creates a task with default field values under the next id, moves the
    /// counter up, and returns the new id.
    pub fn add_item(&mut self) -> (id: u32)
        requires
            old(self).wf(),
            old(self)@.next_id < u32::MAX,
        ensures
            final(self).wf(),
            final(self)@ == spec_create(old(self)@),
            id == created_id(old(self)@),
    {
        let id = self.next_id;
        let item = TodoItem::default();
        let ghost s0 = self.items@;
        proof {
            lemma_map_of_push(s0, (id, item));
            assert(!has_key(s0, id as nat)) by {
                if has_key(s0, id as nat) {
                    let i = choose|i: int|
                        0 <= i < s0.len() && (#[trigger] s0[i]).0 as nat == id as nat;
                    assert(s0[i].0 < id);
                }
            }
        }
        self.items.push((id, item));
        self.next_id = id + 1;
        proof {
            assert forall|j: int|
                0 <= j < self.items@.len() implies (#[trigger] self.items@[j]).0
                < self.next_id by {
                if j < s0.len() {
                    assert(self.items@[j] == s0[j]);
                } else {
                    assert(self.items@[j] == (id, item));
                }
            }
            assert(self@.items =~= spec_create(old(self)@).items);
            assert(self@ =~= spec_create(old(self)@));
        }
        id
    }

    /// Removes the task stored under `id`; without such a task nothing
    /// changes, and no error is raised either way.
    pub fn remove_item(&mut self, id: u32)
        requires
            old(self).wf(),
        ensures
            final(self).wf(),
            final(self)@ == spec_remove(old(self)@, id as nat),
    {
        let ghost s0 = self.items@;
        match self.find_index(id) {
            Some(i) => {
                proof {
                    s0.remove_ensures(i as int);
                    lemma_map_of_remove(s0, i as int);
                }
                self.items.remove(i);
                proof {
                    assert forall|j: int|
                        0 <= j < self.items@.len() implies (#[trigger] self.items@[j]).0
                        < self.next_id by {
                        let j2: int = if j < i as int { j } else { j + 1 };
                        assert(self.items@[j] == s0[j2]);
                        assert(s0[j2].0 < self.next_id);
                    }
                    assert(self@ =~= spec_remove(old(self)@, id as nat));
                }
            }
            None => {
                proof {
                    lemma_map_of_dom(s0);
                    assert(!self@.items.dom().contains(id as nat));
                    assert(self@.items.remove(id as nat) =~= self@.items);
                    assert(self@ =~= spec_remove(old(self)@, id as nat));
                }
            }
        }
    }

    /// Stores `item` under `id`, fully replacing any previous task there. The
    /// id must be one the registry has already handed out.
    pub fn save_item(&mut self, id: u32, item: TodoItem)
        requires
            old(self).wf(),
            id < old(self)@.next_id,
        ensures
            final(self).wf(),
            final(self)@ == spec_save(old(self)@, id as nat, item@),
    {
        let ghost s0 = self.items@;
        match self.find_index(id) {
            Some(i) => {
                proof {
                    lemma_map_of_update(s0, i as int, (id, item));
                }
                self.items[i] = (id, item);
                proof {
                    assert forall|j: int|
                        0 <= j < self.items@.len() implies (#[trigger] self.items@[j]).0
                        < self.next_id by {
                        assert((self.items@[j]).0 == (s0[j]).0);
                    }
                    assert(self@ =~= spec_save(old(self)@, id as nat, item@));
                }
            }
            None => {
                proof {
                    lemma_map_of_push(s0, (id, item));
                }
                self.items.push((id, item));
                proof {
                    assert forall|j: int|
                        0 <= j < self.items@.len() implies (#[trigger] self.items@[j]).0
                        < self.next_id by {
                        if j < s0.len() {
                            assert(self.items@[j] == s0[j]);
                        } else {
                            assert(self.items@[j] == (id, item));
                        }
                    }
                    assert(self@ =~= spec_save(old(self)@, id as nat, item@));
                }
            }
        }
    }

    /// Flips the completion flag of the task stored under `id`; without such a
    /// task nothing changes.
    pub fn toggle_completion(&mut self, id: u32)
        requires
            old(self).wf(),
        ensures
            final(self).wf(),
            final(self)@ == spec_toggle(old(self)@, id as nat),
    {
        let ghost s0 = self.items@;
        match self.find_index(id) {
            Some(i) => {
                let entry = &mut self.items[i];
                let flipped = !entry.1.completed;
                entry.1.completed = flipped;
                proof {
                    let p = self.items@[i as int];
                    assert(p.0 == id);
                    assert(p.1@ == toggled(s0[i as int].1@));
                    lemma_map_of_update(s0, i as int, p);
                    lemma_map_of_index(s0, i as int);
                    assert(self@.items.dom() =~= old(self)@.items.dom());
                    assert(old(self)@.items.dom().contains(id as nat)) by {
                        lemma_map_of_dom(s0);
                        assert((s0[i as int]).0 as nat == id as nat);
                    }
                    assert(self@ =~= spec_toggle(old(self)@, id as nat));
                }
            }
            None => {
                proof {
                    lemma_map_of_dom(s0);
                    assert(!self@.items.dom().contains(id as nat));
                }
            }
        }
    }

    /// A snapshot of every stored `(id, task)` pair, in unspecified order: the
    /// snapshot's pairs form exactly the registry's task map, each id once, so
    /// a caller can iterate it freely while mutating the registry.
    pub fn list(&self) -> (out: Vec<(u32, TodoItem)>)
        requires
            self.wf(),
        ensures
            distinct_keys(out@),
            map_of(out@) == self@.items,
    {
        let mut out: Vec<(u32, TodoItem)> = Vec::new();
        let n = self.items.len();
        let mut i: usize = 0;
        while i < n
            invariant
                n == self.items@.len(),
                i <= n,
                out@.len() == i as int,
                forall|j: int| 0 <= j < i ==> out@[j] == self.items@[j],
            decreases n - i,
        {
            let id = self.items[i].0;
            let copy = self.items[i].1.clone();
            out.push((id, copy));
            i = i + 1;
        }
        proof {
            assert(out@ =~= self.items@);
        }
        out
    }

    /// The active edit draft, as a copy of the id under edit and its task.
    pub fn current_draft(&self) -> (d: Option<(u32, TodoItem)>)
        ensures
            match d {
                Some(p) => self@.draft == Some((p.0 as nat, p.1@)),
                None => self@.draft is None,
            },
    {
        match &self.currently_edited {
            Some(p) => Some((p.0, p.1.clone())),
            None => None,
        }
    }

    /// Opens an edit session on the task stored under `id`: the draft becomes
    /// a copy of it, silently replacing any previous draft. Without such a
    /// task nothing changes.
    pub fn begin_edit(&mut self, id: u32)
        requires
            old(self).wf(),
        ensures
            final(self).wf(),
            final(self)@ == spec_begin_edit(old(self)@, id as nat),
    {
        let ghost s0 = self.items@;
        match self.find_index(id) {
            Some(i) => {
                let copy = self.items[i].1.clone();
                proof {
                    lemma_map_of_index(s0, i as int);
                    lemma_map_of_dom(s0);
                }
                self.currently_edited = Some((id, copy));
                proof {
                    assert(self@ =~= spec_begin_edit(old(self)@, id as nat));
                }
            }
            None => {
                proof {
                    lemma_map_of_dom(s0);
                    assert(!self@.items.dom().contains(id as nat));
                }
            }
        }
    }

    /// Applies one field assignment to the draft alone; the stored tasks are
    /// untouched until a commit, and without a draft nothing changes.
    pub fn mutate_draft(&mut self, change: FieldChange)
        requires
            old(self).wf(),
        ensures
            final(self).wf(),
            final(self)@ == spec_mutate_draft(old(self)@, change@),
    {
        match &mut self.currently_edited {
            Some(pair) => {
                match change {
                    FieldChange::Name(s) => {
                        pair.1.name = s;
                    }
                    FieldChange::Description(s) => {
                        pair.1.description = s;
                    }
                    FieldChange::Completed(b) => {
                        pair.1.completed = b;
                    }
                }
            }
            None => {}
        }
        proof {
            assert(self@ =~= spec_mutate_draft(old(self)@, change@));
        }
    }

    /// Writes the draft's task back into the store under the draft's id, fully
    /// replacing the stored value, then clears the draft; without a draft
    /// nothing changes.
    pub fn commit_draft(&mut self)
        requires
            old(self).wf(),
        ensures
            final(self).wf(),
            final(self)@ == spec_commit(old(self)@),
    {
        let d = self.currently_edited.take();
        match d {
            Some(p) => {
                let (id, item) = p;
                self.save_item(id, item);
                proof {
                    assert(self@ =~= spec_commit(old(self)@));
                }
            }
            None => {}
        }
    }

    /// Drops the draft without touching the stored tasks.
    pub fn discard_draft(&mut self)
        requires
            old(self).wf(),
        ensures
            final(self).wf(),
            final(self)@ == spec_discard(old(self)@),
    {
        self.currently_edited = None;
    }

    /// Removes the draft's task from the store and clears the draft; without a
    /// draft nothing changes.
    pub fn delete_via_draft(&mut self)
        requires
            old(self).wf(),
        ensures
            final(self).wf(),
            final(self)@ == spec_delete_via_draft(old(self)@),
    {
        let d = self.currently_edited.take();
        match d {
            Some(p) => {
                self.remove_item(p.0);
                proof {
                    assert(self@ =~= spec_delete_via_draft(old(self)@));
                }
            }
            None => {}
        }
    }

    /// Ends an edit session on the signals it gathered: remove wins over save,
    /// save wins over closing, a plain close discards the draft, and with no
    /// signal the session stays open.
    pub fn end_edit_session(&mut self, save: bool, remove: bool, close: bool)
        requires
            old(self).wf(),
        ensures
            final(self).wf(),
            final(self)@ == spec_end_session(old(self)@, save, remove, close),
    {
        match resolve_session(save, remove, close) {
            SessionAction::Delete => self.delete_via_draft(),
            SessionAction::Commit => self.commit_draft(),
            SessionAction::Discard => self.discard_draft(),
            SessionAction::KeepOpen => {}
        }
    }
}

impl Default for App {
    /// A registry with no tasks, no draft, and ids starting at zero.
    fn default() -> (a: Self)
        ensures
            a.wf(),
            a@ == empty_registry(),
    {
        let a = App { items: Vec::new(), next_id: 0, currently_edited: None };
        proof {
            assert(a@.items =~= Map::<nat, TaskView>::empty());
            assert(a@ =~= empty_registry());
        }
        a
    }
}

} // verus!
