use todo_registry::app::App;
use todo_registry::models::FieldChange;
use todo_registry::models::TodoItem;

fn find(snapshot: &[(u32, TodoItem)], id: u32) -> Option<&TodoItem> {
    snapshot.iter().find(|p| p.0 == id).map(|p| &p.1)
}

#[test]
fn app_name() {
    assert_eq!(App::name(), "Todo List Manager");
}

#[test]
fn default_item_fields() {
    let item = TodoItem::default();
    assert_eq!(item.name, "Nova Tarefa");
    assert_eq!(item.description, "");
    assert!(!item.completed);
}

#[test]
fn empty_registry_lists_nothing() {
    let app = App::default();
    assert!(app.list().is_empty());
    assert!(app.current_draft().is_none());
}

#[test]
fn monotonic_ids_across_removals() {
    let mut app = App::default();
    let a = app.add_item();
    let b = app.add_item();
    app.remove_item(a);
    let c = app.add_item();
    app.remove_item(b);
    app.remove_item(c);
    let d = app.add_item();
    assert!(a < b && b < c && c < d);
    assert_eq!(vec![a, b, c, d], vec![0, 1, 2, 3]);
}

#[test]
fn create_then_list_has_defaults() {
    let mut app = App::default();
    let id = app.add_item();
    let snapshot = app.list();
    let task = find(&snapshot, id).expect("created task must be listed");
    assert_eq!(task.name, "Nova Tarefa");
    assert_eq!(task.description, "");
    assert!(!task.completed);
}

#[test]
fn remove_is_idempotent() {
    let mut app = App::default();
    let id = app.add_item();
    let keep = app.add_item();
    app.remove_item(id);
    let once = app.list();
    app.remove_item(id);
    let twice = app.list();
    assert_eq!(once, twice);
    assert!(find(&twice, id).is_none());
    assert!(find(&twice, keep).is_some());
}

#[test]
fn remove_unknown_id_is_a_no_op() {
    let mut app = App::default();
    let id = app.add_item();
    app.remove_item(id + 7);
    let snapshot = app.list();
    assert_eq!(snapshot.len(), 1);
    assert!(find(&snapshot, id).is_some());
}

#[test]
fn edit_round_trip_commit() {
    let mut app = App::default();
    let id = app.add_item();
    app.begin_edit(id);
    app.mutate_draft(FieldChange::Name("X".to_owned()));
    app.commit_draft();
    let snapshot = app.list();
    let task = find(&snapshot, id).expect("edited task must still be listed");
    assert_eq!(task.name, "X");
    assert_eq!(task.description, "");
    assert!(app.current_draft().is_none());
}

#[test]
fn edit_round_trip_discard() {
    let mut app = App::default();
    let id = app.add_item();
    app.begin_edit(id);
    app.mutate_draft(FieldChange::Name("X".to_owned()));
    app.discard_draft();
    let snapshot = app.list();
    let task = find(&snapshot, id).expect("task must still be listed");
    assert_eq!(task.name, "Nova Tarefa");
    assert!(app.current_draft().is_none());
}

#[test]
fn draft_edits_stay_invisible_until_commit() {
    let mut app = App::default();
    let id = app.add_item();
    app.begin_edit(id);
    app.mutate_draft(FieldChange::Description("details".to_owned()));
    app.mutate_draft(FieldChange::Completed(true));
    let snapshot = app.list();
    let task = find(&snapshot, id).unwrap();
    assert_eq!(task.description, "");
    assert!(!task.completed);
    let draft = app.current_draft().expect("draft must be active");
    assert_eq!(draft.0, id);
    assert_eq!(draft.1.description, "details");
    assert!(draft.1.completed);
}

#[test]
fn begin_edit_replaces_earlier_draft() {
    let mut app = App::default();
    let first = app.add_item();
    let second = app.add_item();
    app.begin_edit(first);
    app.mutate_draft(FieldChange::Name("left behind".to_owned()));
    app.begin_edit(second);
    let draft = app.current_draft().expect("draft must be active");
    assert_eq!(draft.0, second);
    assert_eq!(draft.1.name, "Nova Tarefa");
}

#[test]
fn begin_edit_unknown_id_is_a_no_op() {
    let mut app = App::default();
    let id = app.add_item();
    app.begin_edit(id + 1);
    assert!(app.current_draft().is_none());
}

#[test]
fn mutate_without_draft_is_a_no_op() {
    let mut app = App::default();
    let id = app.add_item();
    app.mutate_draft(FieldChange::Name("ignored".to_owned()));
    let snapshot = app.list();
    assert_eq!(find(&snapshot, id).unwrap().name, "Nova Tarefa");
    assert!(app.current_draft().is_none());
}

#[test]
fn commit_without_draft_is_a_no_op() {
    let mut app = App::default();
    let id = app.add_item();
    let before = app.list();
    app.commit_draft();
    app.delete_via_draft();
    let after = app.list();
    assert_eq!(before, after);
    assert!(find(&after, id).is_some());
}

#[test]
fn save_item_replaces_stored_task() {
    let mut app = App::default();
    let id = app.add_item();
    let replacement = TodoItem {
        name: "replaced".to_owned(),
        description: "body".to_owned(),
        completed: true,
    };
    app.save_item(id, replacement);
    let snapshot = app.list();
    let task = find(&snapshot, id).unwrap();
    assert_eq!(task.name, "replaced");
    assert_eq!(task.description, "body");
    assert!(task.completed);
}

#[test]
fn delete_via_draft_removes_task() {
    let mut app = App::default();
    let id = app.add_item();
    app.begin_edit(id);
    app.delete_via_draft();
    assert!(app.list().is_empty());
    assert!(app.current_draft().is_none());
}

#[test]
fn save_and_remove_together_delete_the_task() {
    let mut app = App::default();
    let id = app.add_item();
    app.begin_edit(id);
    app.mutate_draft(FieldChange::Name("should not survive".to_owned()));
    app.end_edit_session(true, true, true);
    let snapshot = app.list();
    assert!(find(&snapshot, id).is_none());
    assert!(app.current_draft().is_none());
}

#[test]
fn save_alone_commits_the_draft() {
    let mut app = App::default();
    let id = app.add_item();
    app.begin_edit(id);
    app.mutate_draft(FieldChange::Name("saved".to_owned()));
    app.end_edit_session(true, false, true);
    let snapshot = app.list();
    assert_eq!(find(&snapshot, id).unwrap().name, "saved");
    assert!(app.current_draft().is_none());
}

#[test]
fn session_without_signals_stays_open() {
    let mut app = App::default();
    let id = app.add_item();
    app.begin_edit(id);
    app.mutate_draft(FieldChange::Name("still editing".to_owned()));
    app.end_edit_session(false, false, false);
    let draft = app.current_draft().expect("session must stay open");
    assert_eq!(draft.1.name, "still editing");
}

#[test]
fn plain_close_discards_the_draft() {
    let mut app = App::default();
    let id = app.add_item();
    app.begin_edit(id);
    app.mutate_draft(FieldChange::Name("dropped".to_owned()));
    app.end_edit_session(false, false, true);
    assert!(app.current_draft().is_none());
    let snapshot = app.list();
    assert_eq!(find(&snapshot, id).unwrap().name, "Nova Tarefa");
}

#[test]
fn commit_after_list_removal_restores_the_draft() {
    let mut app = App::default();
    let id = app.add_item();
    app.begin_edit(id);
    app.mutate_draft(FieldChange::Name("kept by the draft".to_owned()));
    app.remove_item(id);
    assert!(app.list().is_empty());
    app.commit_draft();
    let snapshot = app.list();
    assert_eq!(find(&snapshot, id).unwrap().name, "kept by the draft");
}

#[test]
fn toggle_is_self_inverse() {
    let mut app = App::default();
    let id = app.add_item();
    app.toggle_completion(id);
    assert!(find(&app.list(), id).unwrap().completed);
    app.toggle_completion(id);
    assert!(!find(&app.list(), id).unwrap().completed);
}

#[test]
fn toggle_unknown_id_is_a_no_op() {
    let mut app = App::default();
    let id = app.add_item();
    app.toggle_completion(id + 3);
    let snapshot = app.list();
    assert_eq!(snapshot.len(), 1);
    assert!(!find(&snapshot, id).unwrap().completed);
}

#[test]
fn concrete_scenario() {
    let mut app = App::default();
    assert_eq!(app.add_item(), 0);
    let snapshot = app.list();
    assert_eq!(find(&snapshot, 0).unwrap().name, "Nova Tarefa");
    assert_eq!(app.add_item(), 1);
    app.remove_item(0);
    assert_eq!(app.add_item(), 2);
    let snapshot = app.list();
    assert_eq!(snapshot.len(), 2);
    assert!(find(&snapshot, 0).is_none());
    assert_eq!(find(&snapshot, 1).unwrap(), &TodoItem::default());
    assert_eq!(find(&snapshot, 2).unwrap(), &TodoItem::default());
}
