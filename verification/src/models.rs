//! The task record, its mathematical value, and the staged field changes that
//! an edit session applies to a draft.

use vstd::prelude::*;

verus! {

/// One to-do entry: a title, a free-form description and a completion flag.
#[derive(Debug, PartialEq)]
pub struct TodoItem {
    pub name: String,
    pub description: String,
    pub completed: bool,
}

/// The mathematical value of a task: its fields, with strings as character
/// sequences.
#[verifier::ext_equal]
pub ghost struct TaskView {
    pub name: Seq<char>,
    pub description: Seq<char>,
    pub completed: bool,
}

impl View for TodoItem {
    type V = TaskView;

    open spec fn view(&self) -> TaskView {
        TaskView { name: self.name@, description: self.description@, completed: self.completed }
    }
}

impl Clone for TodoItem {
    fn clone(&self) -> (res: Self)
        ensures
            res == *self,
    {
        TodoItem {
            name: self.name.clone(),
            description: self.description.clone(),
            completed: self.completed,
        }
    }
}

/// The value every freshly created task starts from: a placeholder title, an
/// empty description, and not completed.
pub open spec fn default_task() -> TaskView {
    TaskView { name: "Nova Tarefa"@, description: Seq::<char>::empty(), completed: false }
}

impl Default for TodoItem {
    fn default() -> (t: Self)
        ensures
            t@ == default_task(),
    {
        TodoItem {
            name: "Nova Tarefa".to_owned(),
            description: String::new(),
            completed: false,
        }
    }
}

/// One field assignment to apply to the active draft.
#[derive(Debug)]
pub enum FieldChange {
    Name(String),
    Description(String),
    Completed(bool),
}

/// The mathematical value of a field assignment.
pub ghost enum FieldChangeView {
    Name(Seq<char>),
    Description(Seq<char>),
    Completed(bool),
}

impl View for FieldChange {
    type V = FieldChangeView;

    open spec fn view(&self) -> FieldChangeView {
        match self {
            FieldChange::Name(s) => FieldChangeView::Name(s@),
            FieldChange::Description(s) => FieldChangeView::Description(s@),
            FieldChange::Completed(b) => FieldChangeView::Completed(*b),
        }
    }
}

/// The draft task after one field assignment.
pub open spec fn apply_change(t: TaskView, c: FieldChangeView) -> TaskView {
    match c {
        FieldChangeView::Name(s) => TaskView { name: s, description: t.description, completed: t.completed },
        FieldChangeView::Description(s) => TaskView { name: t.name, description: s, completed: t.completed },
        FieldChangeView::Completed(b) => TaskView { name: t.name, description: t.description, completed: b },
    }
}

/// A task with its completion flag flipped and everything else unchanged.
pub open spec fn toggled(t: TaskView) -> TaskView {
    TaskView { name: t.name, description: t.description, completed: !t.completed }
}

} // verus!
