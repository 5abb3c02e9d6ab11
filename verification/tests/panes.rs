use cce_designer::focus::get_next_visible_pane;
use cce_designer::node_tree::set_child_geometry_visible;
use cce_designer::slots::{LEFT_MENUBAR_IDX, PARAM_MENUBAR_IDX, RIGHT_MENUBAR_IDX, SPREADSHEET_MENUBAR_IDX, VIEWPORT_IDX};
use cce_designer::viewer_state::{source_for, ViewerSource};

#[test]
fn test_get_next_visible_pane() {
    // Without spreadsheet (3 panes: LEFT, RIGHT, PARAM)
    assert_eq!(get_next_visible_pane(LEFT_MENUBAR_IDX, true, true, true, false, false), RIGHT_MENUBAR_IDX);
    assert_eq!(get_next_visible_pane(RIGHT_MENUBAR_IDX, true, true, true, false, false), PARAM_MENUBAR_IDX);
    assert_eq!(get_next_visible_pane(PARAM_MENUBAR_IDX, true, true, true, false, false), LEFT_MENUBAR_IDX);

    // With spreadsheet (4 panes: LEFT, RIGHT, PARAM, SPREADSHEET)
    assert_eq!(get_next_visible_pane(LEFT_MENUBAR_IDX, true, true, true, true, false), RIGHT_MENUBAR_IDX);
    assert_eq!(get_next_visible_pane(RIGHT_MENUBAR_IDX, true, true, true, true, false), PARAM_MENUBAR_IDX);
    assert_eq!(get_next_visible_pane(PARAM_MENUBAR_IDX, true, true, true, true, false), SPREADSHEET_MENUBAR_IDX);
    assert_eq!(get_next_visible_pane(SPREADSHEET_MENUBAR_IDX, true, true, true, true, false), LEFT_MENUBAR_IDX);

    // Reverse cycling with shift key (without spreadsheet)
    assert_eq!(get_next_visible_pane(LEFT_MENUBAR_IDX, true, true, true, false, true), PARAM_MENUBAR_IDX);
    assert_eq!(get_next_visible_pane(PARAM_MENUBAR_IDX, true, true, true, false, true), RIGHT_MENUBAR_IDX);
    assert_eq!(get_next_visible_pane(RIGHT_MENUBAR_IDX, true, true, true, false, true), LEFT_MENUBAR_IDX);

    // Reverse cycling with shift key (with spreadsheet)
    assert_eq!(get_next_visible_pane(LEFT_MENUBAR_IDX, true, true, true, true, true), SPREADSHEET_MENUBAR_IDX);
    assert_eq!(get_next_visible_pane(SPREADSHEET_MENUBAR_IDX, true, true, true, true, true), PARAM_MENUBAR_IDX);
    assert_eq!(get_next_visible_pane(PARAM_MENUBAR_IDX, true, true, true, true, true), RIGHT_MENUBAR_IDX);
    assert_eq!(get_next_visible_pane(RIGHT_MENUBAR_IDX, true, true, true, true, true), LEFT_MENUBAR_IDX);
}

#[test]
fn focus_skips_hidden_panes_and_recovers_from_strays() {
    assert_eq!(get_next_visible_pane(LEFT_MENUBAR_IDX, true, false, true, false, false), PARAM_MENUBAR_IDX);
    assert_eq!(get_next_visible_pane(VIEWPORT_IDX, true, true, true, false, true), LEFT_MENUBAR_IDX);
    assert_eq!(get_next_visible_pane(VIEWPORT_IDX, false, false, false, false, false), VIEWPORT_IDX);
    assert_eq!(get_next_visible_pane(PARAM_MENUBAR_IDX, false, false, true, false, false), PARAM_MENUBAR_IDX);
}

/// Geometry visibility is exclusive per directory: enabling one node's
/// display turns every sibling's off, while disabling touches only that
/// node.
#[test]
fn test_geometry_visibility_is_exclusive_per_directory() {
    // Children a, b, c, all displayed.
    let mut dir = vec![true, true, true];

    // Enabling slot 1 clears its siblings, even ones already visible.
    set_child_geometry_visible(&mut dir, 1, true);
    assert_eq!(dir, [false, true, false]);

    // Disabling is not exclusive — only the named node changes.
    set_child_geometry_visible(&mut dir, 1, false);
    assert_eq!(dir, [false, false, false]);

    // Out-of-bounds is a no-op, never a panic or a sibling sweep.
    dir[2] = true;
    set_child_geometry_visible(&mut dir, 9, true);
    assert!(dir[2]);
}

/// Only node types with a source enter a viewer state, and each gets its
/// own.
#[test]
fn test_only_editable_node_types_enter_a_viewer_state() {
    assert_eq!(source_for("curve").map(|s| s.name()), Some("Curve Points"));
    assert_eq!(source_for("soft_transform").map(|s| s.name()), Some("Soft Transform"));
    assert!(source_for("sphere").is_none());
    assert!(source_for("boolean").is_none());
    // Types are matched case-insensitively, like every other node lookup.
    assert!(source_for("Curve").is_some());
    assert_eq!(source_for("SOFT_TRANSFORM"), Some(ViewerSource::SoftTransform));
}

#[test]
fn shift_tab_undoes_tab_from_every_shown_pane() {
    let shown = [LEFT_MENUBAR_IDX, RIGHT_MENUBAR_IDX, PARAM_MENUBAR_IDX, SPREADSHEET_MENUBAR_IDX];
    for (l, r, p, s) in [(true, true, true, true), (true, false, true, false), (false, false, false, true)] {
        let on = [l, r, p, s];
        for (k, &pane) in shown.iter().enumerate() {
            if !on[k] {
                continue;
            }
            for reverse in [false, true] {
                let next = get_next_visible_pane(pane, l, r, p, s, reverse);
                assert_eq!(get_next_visible_pane(next, l, r, p, s, !reverse), pane);
            }
        }
    }
}

#[test]
fn toggling_display_keeps_at_most_one_shown() {
    let mut flags = vec![false, true, false];
    set_child_geometry_visible(&mut flags, 2, false);
    assert_eq!(flags, vec![false, true, false]);
    set_child_geometry_visible(&mut flags, 0, true);
    assert_eq!(flags, vec![true, false, false]);
    set_child_geometry_visible(&mut flags, 9, true);
    assert_eq!(flags, vec![true, false, false], "a slot out of range changes nothing");
    set_child_geometry_visible(&mut flags, 0, false);
    assert_eq!(flags, vec![false, false, false]);
}
