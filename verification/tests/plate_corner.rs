use cce_designer::dock::{Dock, NO_PANE};
use cce_designer::plate_corner::{
    plate_corner_at,
    pane_app_id, pane_detach_flag, pane_from_detach_flag, pane_name_from_slot,
    pane_slot_from_name, plate_title, stub_body_slots, DetachedLayout, PaneCommand,
    PlateMenuAction, PLATE_SLOTS, TAB_CANDIDATES,
};
use cce_designer::slots::{
    BREADCRUMB2_IDX, BREADCRUMB_IDX, CONTENT2_IDX, CONTENT_IDX, NETWORK_PANEL2_IDX,
    NETWORK_PANEL_IDX, PARAM_IDX, PLAYBAR_IDX, SPREADSHEET_IDX, VIEWPORT_IDX, WIDGET_COUNT,
};
use cce_designer::state::State;

use PlateMenuAction::{
    AddTab, BetweenPanes, CloseTab, Collapse, Detach, Expand, FullWidth, Reattach, Separator,
    ShowTab, SplitTab,
};

/// What the toolkit's standard menu gives a plate: Reattach alone for a
/// detached stub, otherwise Collapse or Expand, and Detach where allowed.
fn standard_rows(state: &State, idx: usize) -> (Vec<String>, Vec<PlateMenuAction>) {
    if state.pane_is_detached(idx) {
        return (vec!["Reattach".to_string()], vec![Reattach]);
    }
    let mut labels = Vec::new();
    let mut actions = Vec::new();
    if state.collapsed_panes[idx] {
        labels.push("Expand".to_string());
        actions.push(Expand);
    } else {
        labels.push("Collapse".to_string());
        actions.push(Collapse);
    }
    if state.plate_can_detach(idx) {
        labels.push("Detach".to_string());
        actions.push(Detach);
    }
    (labels, actions)
}

fn open_menu(state: &mut State, idx: usize) -> Vec<String> {
    let (l, a) = standard_rows(state, idx);
    state.open_plate_menu(idx, true, l, a).expect("a plate opens a menu")
}

#[test]
fn titles_names_flags_and_app_ids() {
    assert_eq!(plate_title(NETWORK_PANEL_IDX), "Network");
    assert_eq!(plate_title(PARAM_IDX), "Parameters");
    assert_eq!(plate_title(SPREADSHEET_IDX), "Spreadsheet");
    assert_eq!(plate_title(PLAYBAR_IDX), "Playbar");
    assert_eq!(plate_title(NETWORK_PANEL2_IDX), "Network 2");
    assert_eq!(plate_title(VIEWPORT_IDX), "Pane");

    assert_eq!(pane_detach_flag(PARAM_IDX), Some("--detached-params"));
    assert_eq!(pane_detach_flag(SPREADSHEET_IDX), Some("--detached-spreadsheet"));
    assert_eq!(pane_detach_flag(PLAYBAR_IDX), Some("--detached-playbar"));
    assert_eq!(pane_detach_flag(NETWORK_PANEL_IDX), None);
    assert_eq!(pane_detach_flag(NETWORK_PANEL2_IDX), None);

    assert_eq!(pane_app_id(PARAM_IDX), "cce-designer-params");
    assert_eq!(pane_app_id(SPREADSHEET_IDX), "cce-designer-spreadsheet");
    assert_eq!(pane_app_id(PLAYBAR_IDX), "cce-designer-playbar");
    assert_eq!(pane_app_id(NETWORK_PANEL_IDX), "cce-designer");

    assert_eq!(PLATE_SLOTS, [NETWORK_PANEL_IDX, PARAM_IDX, SPREADSHEET_IDX, PLAYBAR_IDX, NETWORK_PANEL2_IDX]);
    assert_eq!(TAB_CANDIDATES, [NETWORK_PANEL_IDX, PARAM_IDX, SPREADSHEET_IDX, NETWORK_PANEL2_IDX]);
}

#[test]
fn pane_names_round_trip_and_ignore_case() {
    for idx in PLATE_SLOTS {
        let name = pane_name_from_slot(idx).expect("every plate has a name");
        assert_eq!(pane_slot_from_name(name), Some(idx));
        assert_eq!(pane_slot_from_name(&name.to_uppercase()), Some(idx));
    }
    assert_eq!(pane_name_from_slot(PARAM_IDX), Some("parameters"));
    assert_eq!(pane_name_from_slot(NETWORK_PANEL2_IDX), Some("network2"));
    assert_eq!(pane_name_from_slot(VIEWPORT_IDX), None);
    assert_eq!(pane_slot_from_name("params"), Some(PARAM_IDX));
    assert_eq!(pane_slot_from_name("Params"), Some(PARAM_IDX));
    assert_eq!(pane_slot_from_name(" network"), None, "names are not trimmed");
    assert_eq!(pane_slot_from_name("viewport"), None);
}

#[test]
fn detach_flags_round_trip() {
    for idx in PLATE_SLOTS {
        if let Some(flag) = pane_detach_flag(idx) {
            assert_eq!(pane_from_detach_flag(flag), Some(idx));
        }
    }
    assert_eq!(pane_from_detach_flag("--detached-network"), None);
    assert_eq!(pane_from_detach_flag("--detached-PARAMS"), None, "flags are exact");
    assert_eq!(pane_from_detach_flag(""), None);
}

#[test]
fn stub_bodies_belong_to_the_network_plates() {
    assert_eq!(stub_body_slots(NETWORK_PANEL_IDX), vec![CONTENT_IDX, BREADCRUMB_IDX]);
    assert_eq!(stub_body_slots(NETWORK_PANEL2_IDX), vec![CONTENT2_IDX, BREADCRUMB2_IDX]);
    assert!(stub_body_slots(PARAM_IDX).is_empty());
}

/// Detach must not be offered where it cannot work: twice for one pane, or
/// from inside a detached window (which would fork the pane again).
#[test]
fn test_detach_is_only_offered_where_it_works() {
    let mut state = State::new();
    assert!(state.plate_can_detach(PARAM_IDX), "params should be detachable");

    state.detached_panes[PARAM_IDX] = true;
    assert!(!state.plate_can_detach(PARAM_IDX), "params offered detach twice");
    assert!(state.plate_can_detach(SPREADSHEET_IDX), "one detach blocked the others");

    let mut child = State::new();
    child.detached_pane = Some(PARAM_IDX);
    assert!(!child.plate_can_detach(PARAM_IDX), "a detached window offered to detach again");
}

#[test]
fn only_panes_with_a_window_mode_detach() {
    let mut state = State::new();
    assert!(state.plate_can_detach(NETWORK_PANEL_IDX));
    assert!(!state.plate_can_detach(NETWORK_PANEL2_IDX));
    assert!(!state.plate_can_detach(VIEWPORT_IDX));
    state.detached_circular_network = true;
    assert!(!state.plate_can_detach(NETWORK_PANEL_IDX));
    state.is_detached_network = true;
    assert!(!state.plate_can_detach(SPREADSHEET_IDX));
}

/// Collapse must take the plate down to its stub and its body with it, and
/// expanding must put both back.
#[test]
fn test_collapse_shrinks_the_plate_and_restores_it() {
    let mut state = State::new();
    state.needs_layout = false;
    assert!(!state.pane_is_collapsed(NETWORK_PANEL_IDX));

    state.set_pane_collapsed(NETWORK_PANEL_IDX, true);
    assert!(state.pane_is_collapsed(NETWORK_PANEL_IDX));
    assert!(state.pane_is_stubbed(NETWORK_PANEL_IDX));
    assert!(state.needs_layout, "a collapse re-lays the plates out");
    assert_eq!(state.apply_collapsed_panes(), vec![NETWORK_PANEL_IDX]);
    assert!(stub_body_slots(NETWORK_PANEL_IDX).contains(&CONTENT_IDX), "graph survived the collapse");
    assert_eq!(state.pane_stub_label(NETWORK_PANEL_IDX), Some("Network".to_string()));

    state.set_pane_collapsed(NETWORK_PANEL_IDX, false);
    assert!(!state.pane_is_collapsed(NETWORK_PANEL_IDX));
    assert!(state.apply_collapsed_panes().is_empty());
    assert_eq!(state.pane_stub_label(NETWORK_PANEL_IDX), None);
}

#[test]
fn collapse_ignores_non_plates_and_no_ops() {
    let mut state = State::new();
    state.needs_layout = false;
    state.set_pane_collapsed(VIEWPORT_IDX, true);
    assert!(!state.collapsed_panes[VIEWPORT_IDX]);
    state.set_pane_collapsed(PARAM_IDX, false);
    assert!(!state.needs_layout, "expanding an expanded plate changes nothing");
    state.set_pane_collapsed(PLAYBAR_IDX, true);
    state.set_pane_collapsed(PARAM_IDX, true);
    assert_eq!(state.apply_collapsed_panes(), vec![PARAM_IDX, PLAYBAR_IDX]);
}

/// Both sides of a detach: the child window holds one pane, the parent
/// keeps a stub that says the pane is elsewhere.
#[test]
fn test_detached_pane_claims_its_window_and_leaves_the_parent() {
    let mut child = State::new();
    child.detached_pane = Some(PARAM_IDX);
    assert_eq!(child.apply_detached_panes(), DetachedLayout::Window(PARAM_IDX));

    let mut parent = State::new();
    assert_eq!(parent.apply_detached_panes(), DetachedLayout::Stubs(vec![]));
    parent.detached_panes[PARAM_IDX] = true;
    assert_eq!(parent.apply_detached_panes(), DetachedLayout::Stubs(vec![PARAM_IDX]));
    let label = parent.pane_stub_label(PARAM_IDX).expect("a detached pane is stubbed");
    assert!(label.contains("detached"), "stub does not say the pane is detached: {label}");
    assert_eq!(label, "Parameters \u{2014} detached");
    assert!(!parent.pane_is_collapsed(PARAM_IDX));
}

/// The way back. A detached pane's menu is the toolkit's Reattach alone, and
/// reattaching restores the pane in full.
#[test]
fn test_reattach_brings_a_detached_pane_back() {
    let mut state = State::new();
    state.detached_panes[PARAM_IDX] = true;

    let options = open_menu(&mut state, PARAM_IDX);
    assert_eq!(state.plate_menu_actions, vec![PlateMenuAction::Reattach],
        "a detached pane must offer Reattach and only Reattach");
    assert_eq!(options, vec!["Reattach".to_string()]);
    state.close_plate_menu();
    assert_eq!(state.plate_menu_slot, None);
    assert!(state.plate_menu_actions.is_empty());

    let cmds = state.reattach_plate(PARAM_IDX);
    assert!(cmds.is_empty(), "no child window was held");
    assert!(!state.pane_is_detached(PARAM_IDX), "still marked detached after reattach");
    assert!(state.pane_stub_label(PARAM_IDX).is_none(), "still a stub after reattach");
}

#[test]
fn detach_spawns_then_reattach_kills_the_child() {
    let mut state = State::new();
    assert_eq!(state.set_pane_detached(SPREADSHEET_IDX, true), vec![PaneCommand::SpawnDetached(SPREADSHEET_IDX)]);
    assert!(!state.pane_is_detached(SPREADSHEET_IDX), "not detached until the child runs");
    state.detach_spawned(SPREADSHEET_IDX);
    assert!(state.pane_is_detached(SPREADSHEET_IDX));
    assert!(state.detached_children[SPREADSHEET_IDX]);
    assert!(state.set_pane_detached(SPREADSHEET_IDX, true).is_empty(), "detach offered twice");

    assert_eq!(state.set_pane_detached(SPREADSHEET_IDX, false), vec![PaneCommand::KillChild(SPREADSHEET_IDX)]);
    assert!(!state.pane_is_detached(SPREADSHEET_IDX));
    assert!(!state.detached_children[SPREADSHEET_IDX]);
    assert!(state.reattach_plate(SPREADSHEET_IDX).is_empty(), "nothing left to reattach");
}

#[test]
fn the_network_detaches_through_its_circular_window() {
    let mut state = State::new();
    assert_eq!(state.detach_plate(NETWORK_PANEL_IDX), vec![PaneCommand::ToggleCircularWindow]);
    assert!(state.detach_plate(NETWORK_PANEL2_IDX).is_empty());
    state.detached_circular_network = true;
    state.detached_children[NETWORK_PANEL_IDX] = true;
    assert_eq!(
        state.reattach_plate(NETWORK_PANEL_IDX),
        vec![PaneCommand::KillChild(NETWORK_PANEL_IDX), PaneCommand::ToggleCircularWindow]
    );
    assert!(state.detached_circular_network, "the toggle itself clears the flag");
    assert!(!state.close_detached_child(NETWORK_PANEL_IDX));
}

/// A detached window the user closes must not strand its pane as a stub the
/// parent thinks is still elsewhere.
#[test]
fn test_parent_reclaims_a_pane_whose_window_exited() {
    let mut state = State::new();
    state.detach_spawned(SPREADSHEET_IDX);
    state.needs_layout = false;
    assert!(state.pane_is_detached(SPREADSHEET_IDX));

    let running = [false; WIDGET_COUNT];
    assert_eq!(state.poll_detached_children(&running), (false, vec![]), "nothing exited yet");
    assert!(state.pane_is_detached(SPREADSHEET_IDX));
    assert!(!state.needs_layout);

    let mut exited = [false; WIDGET_COUNT];
    exited[SPREADSHEET_IDX] = true;
    assert_eq!(state.poll_detached_children(&exited), (true, vec![]), "poll never noticed the exited child");
    assert!(!state.pane_is_detached(SPREADSHEET_IDX), "pane stayed detached after its window exited");
    assert!(!state.detached_children[SPREADSHEET_IDX], "stale child handle kept");
    assert!(state.needs_layout);
}

#[test]
fn poll_takes_the_network_back_through_its_flag() {
    let mut state = State::new();
    state.detached_circular_network = true;
    state.detached_children[NETWORK_PANEL_IDX] = true;
    state.detached_panes[PARAM_IDX] = true;
    let exited = [true; WIDGET_COUNT];
    assert_eq!(
        state.poll_detached_children(&exited),
        (true, vec![PaneCommand::UncheckCircularWindowItem]),
        "the network's menu item is unticked with its window"
    );
    assert!(!state.detached_circular_network);
    assert!(state.detached_panes[PARAM_IDX], "a pane with no child handle is not polled");
}

/// Full width tucks the spreadsheet under BOTH neighbours; between-panes
/// clears both tucks.
#[test]
fn test_spreadsheet_full_width_round_trip() {
    let mut state = State::new();
    assert!(!state.spreadsheet_tucks_left && !state.spreadsheet_tucks_right);

    state.set_spreadsheet_full_width(true);
    assert!(state.spreadsheet_tucks_left && state.spreadsheet_tucks_right,
        "full width must tuck under both neighbors");

    state.set_spreadsheet_full_width(false);
    assert!(!state.spreadsheet_tucks_left && !state.spreadsheet_tucks_right);
}

/// The menu is contextual: a collapsed plate offers Expand and NOT Collapse.
#[test]
fn test_plate_corner_menu_is_contextual() {
    let mut state = State::new();
    // The first plate carrying a corner control.
    let idx = PLATE_SLOTS[0];

    open_menu(&mut state, idx);
    assert!(state.plate_menu_actions.contains(&PlateMenuAction::Collapse));
    assert!(!state.plate_menu_actions.contains(&PlateMenuAction::Expand));
    state.close_plate_menu();

    state.set_pane_collapsed(idx, true);
    open_menu(&mut state, idx);
    assert!(state.plate_menu_actions.contains(&PlateMenuAction::Expand));
    assert!(!state.plate_menu_actions.contains(&PlateMenuAction::Collapse));
    state.close_plate_menu();
}

#[test]
fn params_menu_offers_the_other_panes_as_tabs() {
    let mut state = State::new();
    let options = open_menu(&mut state, PARAM_IDX);
    assert_eq!(
        options,
        vec!["Collapse", "Detach", "-", "Add Tab: Network", "Add Tab: Spreadsheet", "Add Tab: Network 2"]
    );
    assert_eq!(
        state.plate_menu_actions,
        vec![Collapse, Detach, Separator, AddTab(NETWORK_PANEL_IDX), AddTab(SPREADSHEET_IDX), AddTab(NETWORK_PANEL2_IDX)]
    );
    assert_eq!(state.plate_menu_slot, Some(PARAM_IDX));
}

#[test]
fn spreadsheet_menu_has_its_span_group() {
    let mut state = State::new();
    let options = open_menu(&mut state, SPREADSHEET_IDX);
    assert_eq!(&options[..5], &["Collapse", "Detach", "-", "Full Width", "-"]);
    assert_eq!(state.plate_menu_actions[3], FullWidth);

    state.close_plate_menu();
    state.set_spreadsheet_full_width(true);
    let options = open_menu(&mut state, SPREADSHEET_IDX);
    assert_eq!(&options[..4], &["Collapse", "Detach", "-", "Between Panes"]);

    state.close_plate_menu();
    state.spreadsheet_tucks_right = false;
    let options = open_menu(&mut state, SPREADSHEET_IDX);
    assert_eq!(&options[..5], &["Collapse", "Detach", "-", "Full Width", "Between Panes"]);

    state.close_plate_menu();
    state.set_pane_collapsed(SPREADSHEET_IDX, true);
    let options = open_menu(&mut state, SPREADSHEET_IDX);
    assert!(!options.iter().any(|o| o == "Full Width" || o == "Between Panes"),
        "a collapsed spreadsheet offers no span");
}

#[test]
fn a_shared_dock_offers_switching_splitting_and_closing() {
    let mut state = State::new();
    // The second network editor joins the left dock in front of the first.
    state.dock_tabs[0] = vec![NETWORK_PANEL_IDX, NETWORK_PANEL2_IDX];
    state.dock_fronts[0] = NETWORK_PANEL2_IDX;
    let options = open_menu(&mut state, NETWORK_PANEL2_IDX);
    assert_eq!(
        options,
        vec!["Collapse", "-", "Tab: Network", "-", "Add Tab: Parameters", "Add Tab: Spreadsheet",
            "Move To Own Plate", "Close Tab"]
    );
    assert_eq!(
        state.plate_menu_actions,
        vec![Collapse, Separator, ShowTab(NETWORK_PANEL_IDX), Separator, AddTab(PARAM_IDX),
            AddTab(SPREADSHEET_IDX), SplitTab, CloseTab]
    );
    assert_eq!(state.dock_of_pane(NETWORK_PANEL2_IDX), Some(Dock::Left));
    assert_eq!(state.dock_of_pane(NETWORK_PANEL_IDX), None, "a waiting tab is laid out nowhere");
    assert_eq!(state.dock_of_pane(NO_PANE), None);
}

#[test]
fn an_undocked_plate_has_no_tab_rows() {
    let mut state = State::new();
    let options = open_menu(&mut state, PLAYBAR_IDX);
    assert_eq!(options, vec!["Collapse", "Detach"]);
    assert_eq!(state.open_plate_menu(VIEWPORT_IDX, true, vec![], vec![]), None);
    assert_eq!(state.plate_menu_slot, Some(PLAYBAR_IDX), "a non-plate opens nothing");
}

#[test]
fn picking_a_row_closes_the_menu_and_dispatches_it() {
    let mut state = State::new();
    state.dock_tabs[0] = vec![NETWORK_PANEL_IDX, NETWORK_PANEL2_IDX];
    state.dock_fronts[0] = NETWORK_PANEL2_IDX;
    open_menu(&mut state, NETWORK_PANEL2_IDX);

    // Row 1 is a separator: the click dispatches nothing.
    assert!(state.pick_plate_menu_row(1).is_empty());
    assert_eq!(state.plate_menu_slot, None);

    open_menu(&mut state, NETWORK_PANEL2_IDX);
    assert_eq!(state.pick_plate_menu_row(2), vec![PaneCommand::ShowDockTab(Dock::Left, NETWORK_PANEL_IDX)]);
    open_menu(&mut state, NETWORK_PANEL2_IDX);
    assert_eq!(state.pick_plate_menu_row(4), vec![PaneCommand::AddDockTab(Dock::Left, PARAM_IDX)]);
    open_menu(&mut state, NETWORK_PANEL2_IDX);
    assert_eq!(state.pick_plate_menu_row(6), vec![PaneCommand::SplitDockTab(NETWORK_PANEL2_IDX)]);
    open_menu(&mut state, NETWORK_PANEL2_IDX);
    assert_eq!(state.pick_plate_menu_row(7), vec![PaneCommand::CloseDockTab(NETWORK_PANEL2_IDX)]);
    open_menu(&mut state, NETWORK_PANEL2_IDX);
    assert!(state.pick_plate_menu_row(99).is_empty(), "below the last row");
    assert!(state.pick_plate_menu_row(0).is_empty(), "the menu is closed");

    open_menu(&mut state, NETWORK_PANEL2_IDX);
    assert!(state.pick_plate_menu_row(0).is_empty());
    assert!(state.pane_is_collapsed(NETWORK_PANEL2_IDX), "row 0 collapsed the plate");
}

#[test]
fn dispatch_carries_out_each_action() {
    let mut state = State::new();
    assert!(state.dispatch_plate_menu(PARAM_IDX, Collapse).is_empty());
    assert!(state.pane_is_collapsed(PARAM_IDX));
    state.dispatch_plate_menu(PARAM_IDX, Expand);
    assert!(!state.pane_is_collapsed(PARAM_IDX));
    assert_eq!(state.dispatch_plate_menu(PARAM_IDX, Detach), vec![PaneCommand::SpawnDetached(PARAM_IDX)]);
    state.dispatch_plate_menu(SPREADSHEET_IDX, FullWidth);
    assert!(state.spreadsheet_tucks_left && state.spreadsheet_tucks_right);
    state.dispatch_plate_menu(SPREADSHEET_IDX, BetweenPanes);
    assert!(!state.spreadsheet_tucks_left && !state.spreadsheet_tucks_right);
    assert_eq!(state.dispatch_plate_menu(PARAM_IDX, ShowTab(SPREADSHEET_IDX)),
        vec![PaneCommand::ShowDockTab(Dock::Right, SPREADSHEET_IDX)]);
    assert!(state.dispatch_plate_menu(PLAYBAR_IDX, AddTab(PARAM_IDX)).is_empty(), "the playbar is not docked");
    state.detached_panes[PLAYBAR_IDX] = true;
    assert!(state.dispatch_plate_menu(PLAYBAR_IDX, Reattach).is_empty());
    assert!(!state.pane_is_detached(PLAYBAR_IDX));
}

#[test]
fn a_click_routes_through_the_open_menu_only() {
    let mut state = State::new();
    // No menu: the press is not taken and nothing changes.
    assert!(!state.plate_menu_open(true));
    assert_eq!(state.handle_plate_menu_click(true, Some(0)), (false, vec![]));
    assert!(!state.pane_is_collapsed(PARAM_IDX));

    open_menu(&mut state, PARAM_IDX);
    assert!(state.plate_menu_open(true));
    assert!(!state.plate_menu_open(false), "the toolkit hid the menu");
    assert_eq!(state.handle_plate_menu_click(false, Some(0)), (false, vec![]));
    assert_eq!(state.plate_menu_slot, Some(PARAM_IDX), "a hidden menu is left alone");

    // A press beside the menu closes it and is not taken.
    assert_eq!(state.handle_plate_menu_click(true, None), (false, vec![]));
    assert_eq!(state.plate_menu_slot, None);
    assert!(state.plate_menu_actions.is_empty());

    // A press on row 0 collapses the plate and is taken; row 1 detaches.
    open_menu(&mut state, PARAM_IDX);
    assert_eq!(state.handle_plate_menu_click(true, Some(0)), (true, vec![]));
    assert!(state.pane_is_collapsed(PARAM_IDX));
    assert_eq!(state.plate_menu_slot, None);
    state.set_pane_collapsed(PARAM_IDX, false);
    open_menu(&mut state, PARAM_IDX);
    assert_eq!(
        state.handle_plate_menu_click(true, Some(1)),
        (true, vec![PaneCommand::SpawnDetached(PARAM_IDX)])
    );
    // A press below the last row is still taken, and only closes the menu.
    open_menu(&mut state, PARAM_IDX);
    assert_eq!(state.handle_plate_menu_click(true, Some(40)), (true, vec![]));
    assert_eq!(state.plate_menu_slot, None);
}

#[test]
fn every_menu_row_fits_its_plate() {
    let mut state = State::new();
    state.dock_tabs[0] = vec![NETWORK_PANEL_IDX, NETWORK_PANEL2_IDX];
    state.dock_fronts[0] = NETWORK_PANEL2_IDX;
    state.set_pane_collapsed(PLAYBAR_IDX, true);
    for idx in PLATE_SLOTS {
        let options = open_menu(&mut state, idx);
        let actions = state.plate_menu_actions.clone();
        assert_eq!(options.len(), actions.len());
        for (label, action) in options.iter().zip(actions.iter()) {
            assert_eq!(label == "-", *action == Separator, "{idx}: {label}");
            match action {
                Detach => assert!(state.plate_can_detach(idx)),
                Collapse => assert!(!state.pane_is_collapsed(idx)),
                Expand => assert!(state.pane_is_collapsed(idx)),
                CloseTab => assert_eq!(idx, NETWORK_PANEL2_IDX),
                FullWidth | BetweenPanes => assert_eq!(idx, SPREADSHEET_IDX),
                _ => {}
            }
        }
        assert_ne!(options.first().map(String::as_str), Some("-"));
        assert_ne!(options.last().map(String::as_str), Some("-"));
        state.close_plate_menu();
    }
}

#[test]
fn a_plate_without_a_corner_control_opens_no_menu() {
    let mut state = State::new();
    let before_slot = state.plate_menu_slot;
    let (l, a) = standard_rows(&state, PARAM_IDX);
    assert_eq!(state.open_plate_menu(PARAM_IDX, false, l, a), None);
    assert_eq!(state.plate_menu_slot, before_slot);
    assert!(state.plate_menu_actions.is_empty());
}

#[test]
fn the_top_plate_wins_a_corner_hit() {
    let mut hit = [false; WIDGET_COUNT];
    assert_eq!(plate_corner_at(&hit), None);
    hit[NETWORK_PANEL_IDX] = true;
    assert_eq!(plate_corner_at(&hit), Some(NETWORK_PANEL_IDX));
    hit[SPREADSHEET_IDX] = true;
    assert_eq!(plate_corner_at(&hit), Some(SPREADSHEET_IDX), "drawn later, on top");
    hit[NETWORK_PANEL2_IDX] = true;
    assert_eq!(plate_corner_at(&hit), Some(NETWORK_PANEL2_IDX));
    let mut only_viewport = [false; WIDGET_COUNT];
    only_viewport[VIEWPORT_IDX] = true;
    assert_eq!(plate_corner_at(&only_viewport), None, "the viewport carries no control");
}

#[test]
fn a_collapse_is_saved_state_too() {
    let mut state = State::new();
    state.mark_panes_saved();
    assert!(!state.has_unsaved_pane_changes());
    state.set_pane_collapsed(PARAM_IDX, true);
    assert!(state.has_unsaved_pane_changes(), "a collapse is saved state too");
    state.mark_panes_saved();
    assert!(!state.has_unsaved_pane_changes(), "saving clears it");
    state.set_pane_collapsed(PARAM_IDX, true);
    assert!(!state.has_unsaved_pane_changes(), "a second identical collapse changes nothing");
    state.set_pane_collapsed(PARAM_IDX, false);
    assert!(state.has_unsaved_pane_changes());
    state.set_pane_collapsed(PARAM_IDX, true);
    assert!(!state.has_unsaved_pane_changes(), "undone, it matches the save again");
    state.set_pane_collapsed(VIEWPORT_IDX, true);
    assert!(!state.has_unsaved_pane_changes(), "the viewport is no plate");
}
