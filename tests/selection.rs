use autons_controller::route::{sorted_categories, Route};
use autons_controller::selector::{same_text, ControllerSelect, Stage};

const X: u32 = 1;
const Y: u32 = 2;
const Z: u32 = 3;

fn table(entries: &[(u32, &'static str)]) -> Vec<Route<u8>> {
    entries
        .iter()
        .enumerate()
        .map(|(i, (c, n))| Route::new(*c, n, i as u8))
        .collect()
}

#[test]
fn route_new_keeps_fields() {
    let r = Route::new(Y, "Route 2", 7u8);
    assert_eq!(r.category, Y);
    assert_eq!(r.name, "Route 2");
    assert_eq!(r.callback, 7);
}

#[test]
fn categories_deduplicated_and_sorted() {
    let routes = table(&[(X, "a"), (X, "b"), (Y, "c"), (Z, "d"), (Y, "e")]);
    assert_eq!(sorted_categories(&routes), vec![X, Y, Z]);
}

#[test]
fn categories_sorted_regardless_of_input_order() {
    let routes = table(&[(Z, "a"), (X, "b"), (Z, "c"), (Y, "d")]);
    assert_eq!(sorted_categories(&routes), vec![X, Y, Z]);
    let routes = table(&[(u32::MAX, "a"), (0, "b")]);
    assert_eq!(sorted_categories(&routes), vec![0, u32::MAX]);
}

#[test]
fn selector_starts_at_category_with_no_selection() {
    let sel = ControllerSelect::new(table(&[(Y, "R0"), (X, "R1")]));
    assert_eq!(sel.stage(), Stage::Category);
    assert_eq!(sel.selection(), None);
    assert_eq!(sel.categories(), &vec![X, Y]);
    assert_eq!(sel.option_count(), 2);
    assert!(sel.selected_route().is_none());
}

#[test]
fn state_machine_scenario() {
    let mut sel = ControllerSelect::new(table(&[(X, "R0"), (Y, "R1"), (X, "R2")]));
    sel.advance(Some(0));
    assert_eq!(sel.stage(), Stage::Route(X));
    assert_eq!(sel.routes_of(X), vec![0, 2]);
    assert_eq!(sel.option_count(), 2);
    sel.advance(Some(1));
    assert_eq!(sel.stage(), Stage::Confirm(2));
    assert_eq!(sel.confirm_label(2), "Confirm R2");
    // Cancel at the confirmation goes back to the route list.
    sel.advance(None);
    assert_eq!(sel.stage(), Stage::Route(X));
    sel.advance(Some(1));
    // "Cancel" is the first option of the confirmation.
    sel.advance(Some(0));
    assert_eq!(sel.stage(), Stage::Route(X));
    assert_eq!(sel.selection(), None);
    // Cancel at the route list goes back to the categories.
    sel.advance(None);
    assert_eq!(sel.stage(), Stage::Category);
    sel.advance(None);
    assert_eq!(sel.stage(), Stage::Category);
    sel.advance(Some(0));
    sel.advance(Some(1));
    sel.advance(Some(1));
    assert_eq!(sel.stage(), Stage::Done(2));
    assert_eq!(sel.selection(), Some(2));
    assert_eq!(sel.selected_route().unwrap().name, "R2");
    assert_eq!(sel.option_count(), 0);
}

#[test]
fn confirm_commits_first_route_with_same_name() {
    let mut sel = ControllerSelect::new(table(&[(Y, "Same"), (X, "Same"), (X, "Same")]));
    sel.advance(Some(0));
    assert_eq!(sel.stage(), Stage::Route(X));
    sel.advance(Some(1));
    assert_eq!(sel.stage(), Stage::Confirm(2));
    sel.advance(Some(1));
    assert_eq!(sel.stage(), Stage::Done(2));
    assert_eq!(sel.selection(), Some(1));
}

#[test]
fn select_sets_selection_immediately() {
    let mut sel = ControllerSelect::new(table(&[(X, "R0"), (Y, "R1"), (X, "R2")]));
    sel.select(1);
    assert_eq!(sel.selection(), Some(1));
    assert_eq!(sel.stage(), Stage::Category);
    assert_eq!(sel.selected_route().unwrap().callback, 1);
    sel.select(0);
    assert_eq!(sel.selection(), Some(0));
}

#[test]
fn liveness_loss_stops_for_good() {
    let mut sel = ControllerSelect::new(table(&[(X, "R0")]));
    assert!(sel.check_live(true));
    assert!(!sel.is_stopped());
    assert!(!sel.check_live(false));
    assert!(sel.is_stopped());
    assert!(!sel.check_live(true));
}

#[test]
fn route_lookup_by_index() {
    let sel = ControllerSelect::new(table(&[(X, "R0"), (Y, "R1")]));
    assert_eq!(sel.route(1).name, "R1");
    assert_eq!(sel.route(1).category, Y);
}

#[test]
fn texts_compare_by_characters() {
    assert!(same_text("Route 1", "Route 1"));
    assert!(!same_text("Route 1", "Route 2"));
    assert!(!same_text("Route", "Route 1"));
    assert!(same_text("", ""));
}

#[test]
fn route_count_is_table_length() {
    let sel = ControllerSelect::new(table(&[(X, "R0"), (Y, "R1"), (Z, "R2")]));
    assert_eq!(sel.route_count(), 3);
}

#[test]
fn route_clone_keeps_fields() {
    let r = Route::new(Z, "Route 3", 9u8);
    let c = r.clone();
    assert_eq!(c.category, Z);
    assert_eq!(c.name, "Route 3");
    assert_eq!(c.callback, 9);
}
