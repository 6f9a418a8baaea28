use project_host::naming::{get_project_url, greet, view_label};
use project_host::registry::{
    DestroyOutcome, Geometry, ViewAction, ViewConfig, ViewError, ViewRegistry,
};

fn geometry() -> Geometry {
    Geometry { x: 10, y: 20, width: 800, height: 600 }
}

fn config(id: &str, visible: bool) -> ViewConfig {
    ViewConfig { project_id: id.to_string(), geometry: geometry(), visible }
}

fn visible_ids(reg: &ViewRegistry, ids: &[&str]) -> Vec<String> {
    ids.iter().filter(|id| reg.is_visible(id)).map(|id| id.to_string()).collect()
}

#[test]
fn create_twice_keeps_one_view() {
    for destroys in [true, false] {
        let mut reg = ViewRegistry::new(destroys);
        let first = reg.create_view(&config("P", true)).unwrap();
        assert_eq!(first.len(), 1);
        assert!(matches!(&first[0], ViewAction::Create { project_id, state }
            if project_id == "P" && state.visible && state.geometry == geometry()));
        let second = reg.create_view(&config("P", false)).unwrap();
        assert!(second.is_empty());
        assert_eq!(reg.len(), 1);
        assert!(reg.contains("P"));
        assert!(reg.is_visible("P"));
    }
}

#[test]
fn show_hides_the_sibling() {
    let mut reg = ViewRegistry::new(false);
    reg.create_view(&config("P", true)).unwrap();
    reg.create_view(&config("Q", true)).unwrap();
    let acts = reg.show_view("P").unwrap();
    assert!(reg.is_visible("P"));
    assert!(!reg.is_visible("Q"));
    assert_eq!(acts.len(), 2);
    assert!(matches!(&acts[0], ViewAction::SetVisible { project_id, visible: false } if project_id == "Q"));
    assert!(matches!(&acts[1], ViewAction::SetVisible { project_id, visible: true } if project_id == "P"));
}

#[test]
fn hide_and_destroy_of_unknown_succeed() {
    let mut reg = ViewRegistry::new(true);
    reg.create_view(&config("A", true)).unwrap();
    assert!(reg.hide_view("nope").is_empty());
    let (outcome, acts) = reg.destroy_view("nope");
    assert_eq!(outcome, DestroyOutcome::Absent);
    assert!(acts.is_empty());
    assert_eq!(reg.len(), 1);
    assert!(reg.is_visible("A"));
}

#[test]
fn show_and_move_of_unknown_are_not_found() {
    let mut reg = ViewRegistry::new(true);
    assert!(matches!(reg.show_view("nope"), Err(ViewError::NotFound)));
    assert!(matches!(reg.move_view("nope", geometry()), Err(ViewError::NotFound)));
}

#[test]
fn empty_project_id_is_refused() {
    let mut reg = ViewRegistry::new(true);
    assert!(matches!(reg.create_view(&config("", true)), Err(ViewError::InvalidProjectId)));
    assert_eq!(reg.len(), 0);
}

#[test]
fn second_creation_destroys_the_first() {
    let mut reg = ViewRegistry::new(true);
    reg.create_view(&config("A", true)).unwrap();
    let acts = reg.create_view(&config("B", true)).unwrap();
    assert_eq!(acts.len(), 2);
    assert!(matches!(&acts[0], ViewAction::Close { project_id } if project_id == "A"));
    assert!(matches!(&acts[1], ViewAction::Create { project_id, .. } if project_id == "B"));
    assert_eq!(visible_ids(&reg, &["A", "B"]), vec!["B".to_string()]);
    assert!(!reg.contains("A"));
    assert_eq!(reg.len(), 1);
}

#[test]
fn second_creation_suppresses_the_first_without_destroy() {
    let mut reg = ViewRegistry::new(false);
    reg.create_view(&config("A", true)).unwrap();
    let acts = reg.create_view(&config("B", true)).unwrap();
    assert!(matches!(&acts[0], ViewAction::SetVisible { project_id, visible: false } if project_id == "A"));
    assert_eq!(visible_ids(&reg, &["A", "B"]), vec!["B".to_string()]);
    assert!(reg.contains("A"));
    assert_eq!(reg.len(), 2);
}

#[test]
fn creation_displaces_hidden_siblings_too() {
    let mut reg = ViewRegistry::new(true);
    reg.create_view(&config("A", false)).unwrap();
    let acts = reg.create_view(&config("B", false)).unwrap();
    assert!(matches!(&acts[0], ViewAction::Close { project_id } if project_id == "A"));
    assert!(!reg.contains("A"));
}

#[test]
fn destroy_reports_what_it_did() {
    let mut reg = ViewRegistry::new(true);
    reg.create_view(&config("A", true)).unwrap();
    let (outcome, acts) = reg.destroy_view("A");
    assert_eq!(outcome, DestroyOutcome::Destroyed);
    assert!(matches!(&acts[0], ViewAction::Close { project_id } if project_id == "A"));
    assert!(!reg.contains("A"));

    let mut reg = ViewRegistry::new(false);
    reg.create_view(&config("A", true)).unwrap();
    let (outcome, acts) = reg.destroy_view("A");
    assert_eq!(outcome, DestroyOutcome::Suppressed);
    assert!(matches!(&acts[0], ViewAction::SetVisible { project_id, visible: false } if project_id == "A"));
    assert!(reg.contains("A"));
    assert!(!reg.is_visible("A"));
}

#[test]
fn hide_suppresses_the_view() {
    let mut reg = ViewRegistry::new(true);
    reg.create_view(&config("A", true)).unwrap();
    let acts = reg.hide_view("A");
    assert_eq!(acts.len(), 1);
    assert!(!reg.is_visible("A"));
    assert!(reg.contains("A"));
}

#[test]
fn move_places_position_before_size() {
    let mut reg = ViewRegistry::new(true);
    reg.create_view(&config("A", true)).unwrap();
    let g = Geometry { x: -5, y: 7, width: 300, height: 200 };
    let acts = reg.move_view("A", g).unwrap();
    assert_eq!(acts.len(), 2);
    assert!(matches!(&acts[0], ViewAction::SetPosition { project_id, x: -5, y: 7 } if project_id == "A"));
    assert!(matches!(&acts[1], ViewAction::SetSize { project_id, width: 300, height: 200 } if project_id == "A"));
}

#[test]
fn sync_moves_every_view_in_turn() {
    let mut reg = ViewRegistry::new(false);
    reg.create_view(&config("A", true)).unwrap();
    reg.create_view(&config("B", true)).unwrap();
    let g = Geometry { x: 0, y: 30, width: 1024, height: 700 };
    let acts = reg.sync_all_views(g);
    assert_eq!(acts.len(), 4);
    assert!(matches!(&acts[0], ViewAction::SetPosition { project_id, .. } if project_id == "A"));
    assert!(matches!(&acts[1], ViewAction::SetSize { project_id, .. } if project_id == "A"));
    assert!(matches!(&acts[2], ViewAction::SetPosition { project_id, .. } if project_id == "B"));
    assert!(matches!(&acts[3], ViewAction::SetSize { project_id, width: 1024, height: 700 } if project_id == "B"));
    assert_eq!(visible_ids(&reg, &["A", "B"]), vec!["B".to_string()]);
}

#[test]
fn names_are_derived_from_the_project() {
    assert_eq!(view_label("demo"), "child_demo");
    assert_eq!(get_project_url("demo"), "myapp://demo/");
    assert_eq!(greet("Ada"), "Hello, Ada! You've been greeted from Rust!");
}

#[test]
fn forget_drops_a_view_without_actions() {
    let mut reg = ViewRegistry::new(false);
    reg.create_view(&config("A", true)).unwrap();
    reg.forget("A");
    assert!(!reg.contains("A"));
    reg.forget("A");
    assert_eq!(reg.len(), 0);
    assert_eq!(reg.create_view(&config("A", true)).unwrap().len(), 1);
}
