use rustix_runtime::undo::{ActionKind, EditorAction, Subsystem, UndoHistory};

fn single(kind: ActionKind, payload: u32) -> EditorAction<u32> {
    EditorAction::Single { kind, payload }
}

fn payload_of(a: Option<&EditorAction<u32>>) -> Option<u32> {
    match a {
        Some(EditorAction::Single { payload, .. }) => Some(*payload),
        _ => None,
    }
}

#[test]
fn undo_then_redo_walks_the_history() {
    let mut h = UndoHistory::new(10);
    assert!(!h.can_undo());
    assert!(!h.can_redo());
    h.push(single(ActionKind::AddEntity, 1));
    h.push(single(ActionKind::TransformEntity, 2));
    h.push(single(ActionKind::RenameEntity, 3));
    assert_eq!(h.index(), 3);
    assert!(h.can_undo());
    assert_eq!(payload_of(h.undo()), Some(3));
    assert_eq!(payload_of(h.undo()), Some(2));
    assert_eq!(h.index(), 1);
    assert!(h.can_redo());
    assert_eq!(payload_of(h.redo()), Some(2));
    assert_eq!(payload_of(h.redo()), Some(3));
    assert!(h.redo().is_none());
    assert_eq!(h.index(), 3);
}

#[test]
fn undo_on_empty_history_gives_nothing() {
    let mut h: UndoHistory<u32> = UndoHistory::new(5);
    assert!(h.undo().is_none());
    assert!(h.redo().is_none());
    assert_eq!(h.index(), 0);
}

#[test]
fn pushing_after_undo_drops_the_redo_tail() {
    let mut h = UndoHistory::new(10);
    h.push(single(ActionKind::AddEntity, 1));
    h.push(single(ActionKind::AddEntity, 2));
    h.undo();
    h.push(single(ActionKind::AddEntity, 3));
    assert_eq!(h.actions().len(), 2);
    assert!(!h.can_redo());
    assert_eq!(payload_of(h.undo()), Some(3));
    assert_eq!(payload_of(h.undo()), Some(1));
}

#[test]
fn full_history_forgets_the_oldest_action() {
    let mut h = UndoHistory::new(2);
    h.push(single(ActionKind::AddEntity, 1));
    h.push(single(ActionKind::AddEntity, 2));
    h.push(single(ActionKind::AddEntity, 3));
    assert_eq!(h.actions().len(), 2);
    assert_eq!(h.index(), 2);
    assert_eq!(payload_of(h.undo()), Some(3));
    assert_eq!(payload_of(h.undo()), Some(2));
    assert!(h.undo().is_none());
    assert_eq!(h.max_actions(), 2);
}

#[test]
fn compound_actions_undo_as_one() {
    let mut h = UndoHistory::new(10);
    h.begin_compound("Move group");
    assert_eq!(h.compound_depth(), 1);
    h.push(single(ActionKind::TransformEntity, 1));
    h.begin_compound("inner");
    h.push(single(ActionKind::TransformEntity, 2));
    h.end_compound();
    assert_eq!(h.index(), 0);
    h.end_compound();
    assert_eq!(h.compound_depth(), 0);
    assert_eq!(h.index(), 1);
    match h.undo() {
        Some(EditorAction::Compound { name, actions }) => {
            assert_eq!(name.as_str(), "Move group");
            assert_eq!(actions.len(), 2);
        }
        _ => panic!("expected a compound action"),
    }
}

#[test]
fn empty_compound_records_nothing() {
    let mut h: UndoHistory<u32> = UndoHistory::new(10);
    h.begin_compound("nothing");
    h.end_compound();
    assert_eq!(h.index(), 0);
    assert_eq!(h.actions().len(), 0);
}

#[test]
fn subsystem_of_actions() {
    assert_eq!(single(ActionKind::TransformEntity, 0).subsystem(), Subsystem::Transform);
    assert_eq!(single(ActionKind::ParentChanged, 0).subsystem(), Subsystem::Hierarchy);
    assert_eq!(single(ActionKind::CameraChanged, 0).subsystem(), Subsystem::Rendering);
    assert_eq!(single(ActionKind::AudioListenerChanged, 0).subsystem(), Subsystem::Audio);
    assert_eq!(single(ActionKind::ColliderChanged, 0).subsystem(), Subsystem::Physics);
    assert_eq!(single(ActionKind::ScriptComponentChanged, 0).subsystem(), Subsystem::Scripting);
    let same = EditorAction::Compound {
        name: "a".to_string(),
        actions: vec![single(ActionKind::TransformEntity, 1), single(ActionKind::TransformEntity, 2)],
    };
    assert_eq!(same.subsystem(), Subsystem::Transform);
    let mixed = EditorAction::Compound {
        name: "b".to_string(),
        actions: vec![single(ActionKind::TransformEntity, 1), single(ActionKind::AddEntity, 2)],
    };
    assert_eq!(mixed.subsystem(), Subsystem::All);
    let empty: EditorAction<u32> = EditorAction::Compound { name: "c".to_string(), actions: vec![] };
    assert_eq!(empty.subsystem(), Subsystem::All);
}

#[test]
fn undo_and_redo_by_subsystem() {
    let mut h = UndoHistory::new(10);
    h.push(single(ActionKind::TransformEntity, 1));
    h.push(single(ActionKind::AddEntity, 2));
    h.push(single(ActionKind::TransformEntity, 3));
    assert!(h.can_undo_subsystem(Subsystem::Hierarchy));
    assert!(!h.can_undo_subsystem(Subsystem::Audio));
    assert_eq!(payload_of(h.undo_subsystem(Subsystem::Hierarchy)), Some(2));
    assert_eq!(h.index(), 1);
    assert!(h.undo_subsystem(Subsystem::Hierarchy).is_none());
    assert_eq!(h.index(), 1);
    assert!(h.can_redo_subsystem(Subsystem::Transform));
    assert_eq!(payload_of(h.redo_subsystem(Subsystem::Transform)), Some(3));
    assert_eq!(h.index(), 3);
    assert_eq!(payload_of(h.undo_subsystem(Subsystem::All)), Some(3));
    assert_eq!(h.index(), 2);
    assert!(h.can_redo_subsystem(Subsystem::All));
    assert!(!h.can_redo_subsystem(Subsystem::Hierarchy));
}

#[test]
fn clear_empties_the_history() {
    let mut h = UndoHistory::new(10);
    h.push(single(ActionKind::AddEntity, 1));
    h.begin_compound("open");
    h.clear();
    assert_eq!(h.index(), 0);
    assert_eq!(h.actions().len(), 0);
    assert_eq!(h.compound_depth(), 0);
    assert!(!h.can_undo());
}

#[test]
fn history_without_room_cannot_close_a_filled_compound() {
    let mut h: UndoHistory<u32> = UndoHistory::new(0);
    assert!(h.can_end_compound());
    h.begin_compound("group");
    h.push(single(ActionKind::AddEntity, 1));
    assert!(!h.can_end_compound());
    let mut h: UndoHistory<u32> = UndoHistory::new(3);
    h.begin_compound("group");
    h.push(single(ActionKind::AddEntity, 1));
    assert!(h.can_end_compound());
}

fn kind_payloads(steps: Vec<&EditorAction<u32>>) -> Vec<u32> {
    steps.into_iter().map(|a| payload_of(Some(a)).unwrap()).collect()
}

#[test]
fn compound_steps_replay_in_order_and_undo_in_reverse() {
    let inner = EditorAction::Compound {
        name: "inner".to_string(),
        actions: vec![single(ActionKind::AddEntity, 2), single(ActionKind::AddEntity, 3)],
    };
    let outer = EditorAction::Compound {
        name: "outer".to_string(),
        actions: vec![single(ActionKind::AddEntity, 1), inner, single(ActionKind::AddEntity, 4)],
    };
    assert_eq!(kind_payloads(outer.redo_order()), vec![1, 2, 3, 4]);
    assert_eq!(kind_payloads(outer.undo_order()), vec![4, 3, 2, 1]);
    let one = single(ActionKind::RenameEntity, 9);
    assert_eq!(kind_payloads(one.undo_order()), vec![9]);
}

#[test]
fn matched_compound_records_one_action() {
    let mut h = UndoHistory::new(10);
    h.push(single(ActionKind::AddEntity, 0));
    h.begin_compound("group");
    h.push(single(ActionKind::TransformEntity, 1));
    h.begin_compound("nested");
    h.push(single(ActionKind::TransformEntity, 2));
    h.end_compound();
    h.push(single(ActionKind::TransformEntity, 3));
    h.end_compound();
    assert_eq!(h.actions().len(), 2);
    assert_eq!(h.index(), 2);
    match &h.actions()[1] {
        EditorAction::Compound { name, actions } => {
            assert_eq!(name.as_str(), "group");
            assert_eq!(kind_payloads(actions.iter().collect()), vec![1, 2, 3]);
        }
        _ => panic!("expected one compound action"),
    }
}

#[test]
fn replacing_a_recorded_action() {
    let mut h = UndoHistory::new(10);
    h.push(single(ActionKind::DeleteEntity, 1));
    h.undo();
    h.replace_action(0, single(ActionKind::DeleteEntity, 7));
    assert_eq!(h.index(), 0);
    assert_eq!(payload_of(h.redo()), Some(7));
}
