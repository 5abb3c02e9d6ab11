//! What holds of the plate and pane operations across calls and states.

use vstd::prelude::*;
use crate::plate_corner::{
    MenuRows, PaneCommand, PlateMenuAction, detach_flag_of, detached_suffix, flag_owner,
    is_plate_slot, row_fits, rows_fit, standard_rows_fit, is_window_action, name_of, slot_of_name, add_tab_step, dock_rows, offers_add_tab, others, separated,
    separator_label, span_rows, tab_rows, title_of,
};
use crate::slots::{NETWORK_PANEL2_IDX, NETWORK_PANEL_IDX, PARAM_IDX, PLAYBAR_IDX, SPREADSHEET_IDX, WIDGET_COUNT};
use crate::state::PaneModel;
use crate::text::{ascii_lower, ascii_lowercase};

verus! {

/// Is this an engraved separator label?
pub open spec fn is_separator(l: Seq<char>) -> bool {
    l == separator_label()
}

/// No separator leads the menu, none ends it, and no two stand together.
pub open spec fn no_orphan_separators(labels: Seq<Seq<char>>) -> bool {
    &&& labels.len() > 0 ==> !is_separator(labels[0]) && !is_separator(labels.last())
    &&& forall|i: int|
        0 <= i < labels.len() - 1 ==> !(#[trigger] is_separator(labels[i]) && is_separator(
            labels[i + 1],
        ))
}

/// `m2` is `m1` with rows added at the bottom.
pub open spec fn extends(m2: MenuRows, m1: MenuRows) -> bool {
    &&& m1.labels.len() <= m2.labels.len()
    &&& m1.actions.len() <= m2.actions.len()
    &&& m2.labels.take(m1.labels.len() as int) == m1.labels
    &&& m2.actions.take(m1.actions.len() as int) == m1.actions
}

proof fn lemma_extends_refl(m: MenuRows)
    ensures
        extends(m, m),
{
    assert(m.labels.take(m.labels.len() as int) =~= m.labels);
    assert(m.actions.take(m.actions.len() as int) =~= m.actions);
}

proof fn lemma_extends_push(m2: MenuRows, m1: MenuRows, l: Seq<char>, a: PlateMenuAction)
    requires
        extends(m2, m1),
    ensures
        extends(m2.push(l, a), m1),
{
    assert(m2.push(l, a).labels.take(m1.labels.len() as int) =~= m2.labels.take(
        m1.labels.len() as int,
    ));
    assert(m2.push(l, a).actions.take(m1.actions.len() as int) =~= m2.actions.take(
        m1.actions.len() as int,
    ));
}

proof fn lemma_extends_separated(m2: MenuRows, m1: MenuRows)
    requires
        extends(m2, m1),
    ensures
        extends(separated(m2), m1),
{
    if m2.labels.len() > 0 && m2.labels.last() != separator_label() {
        lemma_extends_push(m2, m1, separator_label(), PlateMenuAction::Separator);
    }
}

proof fn lemma_extends_tab_rows(m: MenuRows, base: MenuRows, ts: Seq<usize>)
    requires
        extends(m, base),
    ensures
        extends(tab_rows(m, ts), base),
    decreases ts.len(),
{
    if ts.len() > 0 {
        lemma_extends_tab_rows(m, base, ts.drop_last());
        lemma_extends_push(
            tab_rows(m, ts.drop_last()),
            base,
            "Tab: "@ + title_of(ts.last()),
            PlateMenuAction::ShowTab(ts.last()),
        );
    }
}

proof fn lemma_extends_add_tab(
    model: PaneModel,
    d: crate::dock::Dock,
    idx: usize,
    st: (MenuRows, bool),
    other: usize,
    base: MenuRows,
)
    requires
        extends(st.0, base),
    ensures
        extends(add_tab_step(model, d, idx, st, other).0, base),
{
    if offers_add_tab(model, d, idx, other) {
        let m = if !st.1 {
            separated(st.0)
        } else {
            st.0
        };
        lemma_extends_separated(st.0, base);
        lemma_extends_push(m, base, "Add Tab: "@ + title_of(other), PlateMenuAction::AddTab(other));
    }
}

proof fn lemma_extends_dock_rows(model: PaneModel, m: MenuRows, d: crate::dock::Dock, idx: usize, base: MenuRows)
    requires
        extends(m, base),
    ensures
        extends(dock_rows(model, m, d, idx), base),
{
    let sw = others(model.tabs(d), idx);
    let m1 = if sw.len() > 0 {
        tab_rows(separated(m), sw)
    } else {
        m
    };
    if sw.len() > 0 {
        lemma_extends_separated(m, base);
        lemma_extends_tab_rows(separated(m), base, sw);
    }
    let s1 = add_tab_step(model, d, idx, (m1, false), NETWORK_PANEL_IDX);
    lemma_extends_add_tab(model, d, idx, (m1, false), NETWORK_PANEL_IDX, base);
    let s2 = add_tab_step(model, d, idx, s1, PARAM_IDX);
    lemma_extends_add_tab(model, d, idx, s1, PARAM_IDX, base);
    let s3 = add_tab_step(model, d, idx, s2, SPREADSHEET_IDX);
    lemma_extends_add_tab(model, d, idx, s2, SPREADSHEET_IDX, base);
    let s4 = add_tab_step(model, d, idx, s3, NETWORK_PANEL2_IDX);
    lemma_extends_add_tab(model, d, idx, s3, NETWORK_PANEL2_IDX, base);
    let s5 = if model.tabs(d).len() > 1 {
        let mm = if !s4.1 {
            separated(s4.0)
        } else {
            s4.0
        };
        (mm.push("Move To Own Plate"@, PlateMenuAction::SplitTab), true)
    } else {
        s4
    };
    if model.tabs(d).len() > 1 {
        lemma_extends_separated(s4.0, base);
        let mm = if !s4.1 {
            separated(s4.0)
        } else {
            s4.0
        };
        lemma_extends_push(mm, base, "Move To Own Plate"@, PlateMenuAction::SplitTab);
    }
    if idx == NETWORK_PANEL2_IDX {
        lemma_extends_separated(s5.0, base);
        let mm = if !s5.1 {
            separated(s5.0)
        } else {
            s5.0
        };
        lemma_extends_push(mm, base, "Close Tab"@, PlateMenuAction::CloseTab);
    }
}

/// The toolkit's standard rows come first, untouched: the plate menu only
/// appends the designer's rows after them.
pub proof fn standard_rows_lead_the_menu(model: PaneModel, idx: usize, standard: MenuRows)
    ensures
        extends(model.plate_menu(idx, standard), standard),
{
    lemma_extends_refl(standard);
    if !model.pane_is_detached(idx) {
        let m1 = if idx == SPREADSHEET_IDX && !model.collapsed[idx as int] {
            span_rows(standard, model.tucks_left, model.tucks_right)
        } else {
            standard
        };
        if idx == SPREADSHEET_IDX && !model.collapsed[idx as int] {
            lemma_extends_separated(standard, standard);
            let a = separated(standard);
            let b = if !(model.tucks_left && model.tucks_right) {
                a.push("Full Width"@, PlateMenuAction::FullWidth)
            } else {
                a
            };
            if !(model.tucks_left && model.tucks_right) {
                lemma_extends_push(a, standard, "Full Width"@, PlateMenuAction::FullWidth);
            }
            if model.tucks_left || model.tucks_right {
                lemma_extends_push(b, standard, "Between Panes"@, PlateMenuAction::BetweenPanes);
            }
        }
        match model.dock_of_pane(idx) {
            Some(d) => lemma_extends_dock_rows(model, m1, d, idx, standard),
            None => {},
        }
    }
}

/// A detached pane's menu is the toolkit's standard rows alone (for a
/// detached stub those offer Reattach, the only way back).
pub proof fn detached_menu_is_standard(model: PaneModel, idx: usize, standard: MenuRows)
    requires
        model.pane_is_detached(idx),
    ensures
        model.plate_menu(idx, standard) == standard,
{
}

proof fn lemma_clean_push(m: MenuRows, l: Seq<char>, a: PlateMenuAction)
    requires
        no_orphan_separators(m.labels),
        !is_separator(l),
    ensures
        no_orphan_separators(m.push(l, a).labels),
{
    let n = m.push(l, a).labels;
    assert forall|i: int| 0 <= i < n.len() - 1 implies !(#[trigger] is_separator(n[i]) && is_separator(n[i + 1])) by {
        if i + 1 < m.labels.len() {
            assert(n[i] == m.labels[i] && n[i + 1] == m.labels[i + 1]);
        } else {
            assert(n[i + 1] == l);
        }
    }
}

proof fn lemma_clean_separated_push(m: MenuRows, l: Seq<char>, a: PlateMenuAction)
    requires
        no_orphan_separators(m.labels),
        !is_separator(l),
    ensures
        no_orphan_separators(separated(m).push(l, a).labels),
{
    if m.labels.len() > 0 && m.labels.last() != separator_label() {
        let s = separated(m);
        let n = s.push(l, a).labels;
        assert(s.labels == m.labels.push(separator_label()));
        assert forall|i: int| 0 <= i < n.len() - 1 implies !(#[trigger] is_separator(n[i]) && is_separator(n[i + 1])) by {
            if i + 1 < m.labels.len() {
                assert(n[i] == m.labels[i] && n[i + 1] == m.labels[i + 1]);
            } else if i + 1 == m.labels.len() {
                assert(n[i] == m.labels.last());
            } else {
                assert(n[i + 1] == l);
            }
        }
        assert(n[0] == m.labels[0]);
    } else {
        lemma_clean_push(m, l, a);
    }
}

/// The labels the designer appends are never separators.
proof fn lemma_row_labels_are_not_separators(t: usize)
    ensures
        !is_separator("Full Width"@),
        !is_separator("Between Panes"@),
        !is_separator("Move To Own Plate"@),
        !is_separator("Close Tab"@),
        !is_separator("Tab: "@ + title_of(t)),
        !is_separator("Add Tab: "@ + title_of(t)),
{
    reveal_strlit("-");
    reveal_strlit("Full Width");
    reveal_strlit("Between Panes");
    reveal_strlit("Move To Own Plate");
    reveal_strlit("Close Tab");
    reveal_strlit("Tab: ");
    reveal_strlit("Add Tab: ");
    assert(separator_label().len() == 1);
    assert("Full Width"@.len() == 10);
    assert("Between Panes"@.len() == 13);
    assert("Move To Own Plate"@.len() == 17);
    assert("Close Tab"@.len() == 9);
    assert(("Tab: "@ + title_of(t)).len() >= 5);
    assert(("Add Tab: "@ + title_of(t)).len() >= 9);
}

proof fn lemma_clean_tab_rows(m: MenuRows, ts: Seq<usize>)
    requires
        no_orphan_separators(m.labels),
        ts.len() > 0,
    ensures
        no_orphan_separators(tab_rows(separated(m), ts).labels),
    decreases ts.len(),
{
    lemma_row_labels_are_not_separators(ts.last());
    let l = "Tab: "@ + title_of(ts.last());
    let a = PlateMenuAction::ShowTab(ts.last());
    if ts.len() == 1 {
        assert(tab_rows(separated(m), ts.drop_last()) == separated(m));
        lemma_clean_separated_push(m, l, a);
    } else {
        lemma_clean_tab_rows(m, ts.drop_last());
        lemma_clean_push(tab_rows(separated(m), ts.drop_last()), l, a);
    }
}

proof fn lemma_clean_group_row(m: MenuRows, begun: bool, l: Seq<char>, a: PlateMenuAction)
    requires
        no_orphan_separators(m.labels),
        !is_separator(l),
    ensures
        no_orphan_separators(
            (if !begun {
                separated(m)
            } else {
                m
            }).push(l, a).labels,
        ),
{
    if !begun {
        lemma_clean_separated_push(m, l, a);
    } else {
        lemma_clean_push(m, l, a);
    }
}

proof fn lemma_clean_add_tab(
    model: PaneModel,
    d: crate::dock::Dock,
    idx: usize,
    st: (MenuRows, bool),
    other: usize,
)
    requires
        no_orphan_separators(st.0.labels),
    ensures
        no_orphan_separators(add_tab_step(model, d, idx, st, other).0.labels),
{
    if offers_add_tab(model, d, idx, other) {
        lemma_row_labels_are_not_separators(other);
        lemma_clean_group_row(st.0, st.1, "Add Tab: "@ + title_of(other), PlateMenuAction::AddTab(other));
    }
}

proof fn lemma_clean_dock_rows(model: PaneModel, m: MenuRows, d: crate::dock::Dock, idx: usize)
    requires
        no_orphan_separators(m.labels),
    ensures
        no_orphan_separators(dock_rows(model, m, d, idx).labels),
{
    lemma_row_labels_are_not_separators(idx);
    let sw = others(model.tabs(d), idx);
    let m1 = if sw.len() > 0 {
        tab_rows(separated(m), sw)
    } else {
        m
    };
    if sw.len() > 0 {
        lemma_clean_tab_rows(m, sw);
    }
    let s1 = add_tab_step(model, d, idx, (m1, false), NETWORK_PANEL_IDX);
    lemma_clean_add_tab(model, d, idx, (m1, false), NETWORK_PANEL_IDX);
    let s2 = add_tab_step(model, d, idx, s1, PARAM_IDX);
    lemma_clean_add_tab(model, d, idx, s1, PARAM_IDX);
    let s3 = add_tab_step(model, d, idx, s2, SPREADSHEET_IDX);
    lemma_clean_add_tab(model, d, idx, s2, SPREADSHEET_IDX);
    let s4 = add_tab_step(model, d, idx, s3, NETWORK_PANEL2_IDX);
    lemma_clean_add_tab(model, d, idx, s3, NETWORK_PANEL2_IDX);
    if model.tabs(d).len() > 1 {
        lemma_clean_group_row(s4.0, s4.1, "Move To Own Plate"@, PlateMenuAction::SplitTab);
    }
    let s5 = if model.tabs(d).len() > 1 {
        let mm = if !s4.1 {
            separated(s4.0)
        } else {
            s4.0
        };
        (mm.push("Move To Own Plate"@, PlateMenuAction::SplitTab), true)
    } else {
        s4
    };
    if idx == NETWORK_PANEL2_IDX {
        lemma_clean_group_row(s5.0, s5.1, "Close Tab"@, PlateMenuAction::CloseTab);
    }
}

/// Separators are engraved lazily: when the toolkit's standard rows hold
/// none, no separator of the plate menu leads it, ends it, or stands next to
/// another, whatever groups contribute nothing.
pub proof fn menu_has_no_orphan_separators(model: PaneModel, idx: usize, standard: MenuRows)
    requires
        forall|i: int| 0 <= i < standard.labels.len() ==> !is_separator(#[trigger] standard.labels[i]),
    ensures
        no_orphan_separators(model.plate_menu(idx, standard).labels),
{
    lemma_row_labels_are_not_separators(idx);
    assert(no_orphan_separators(standard.labels));
    if !model.pane_is_detached(idx) {
        let m1 = if idx == SPREADSHEET_IDX && !model.collapsed[idx as int] {
            span_rows(standard, model.tucks_left, model.tucks_right)
        } else {
            standard
        };
        if idx == SPREADSHEET_IDX && !model.collapsed[idx as int] {
            let a = separated(standard);
            if !(model.tucks_left && model.tucks_right) {
                lemma_clean_separated_push(standard, "Full Width"@, PlateMenuAction::FullWidth);
                if model.tucks_left || model.tucks_right {
                    lemma_clean_push(
                        a.push("Full Width"@, PlateMenuAction::FullWidth),
                        "Between Panes"@,
                        PlateMenuAction::BetweenPanes,
                    );
                }
            } else {
                lemma_clean_separated_push(standard, "Between Panes"@, PlateMenuAction::BetweenPanes);
            }
        }
        match model.dock_of_pane(idx) {
            Some(d) => lemma_clean_dock_rows(model, m1, d, idx),
            None => {},
        }
    }
}

proof fn lemma_fit_push(model: PaneModel, idx: usize, m: MenuRows, l: Seq<char>, a: PlateMenuAction)
    requires
        rows_fit(model, idx, m),
        row_fits(model, idx, l, a),
    ensures
        rows_fit(model, idx, m.push(l, a)),
{
    let n = m.push(l, a);
    assert forall|k: int| 0 <= k < n.labels.len() implies #[trigger] row_fits(
        model,
        idx,
        n.labels[k],
        n.actions[k],
    ) by {
        if k < m.labels.len() {
            assert(n.labels[k] == m.labels[k] && n.actions[k] == m.actions[k]);
            assert(row_fits(model, idx, m.labels[k], m.actions[k]));
        }
    }
}

proof fn lemma_fit_separated(model: PaneModel, idx: usize, m: MenuRows)
    requires
        rows_fit(model, idx, m),
    ensures
        rows_fit(model, idx, separated(m)),
{
    if m.labels.len() > 0 && m.labels.last() != separator_label() {
        lemma_fit_push(model, idx, m, separator_label(), PlateMenuAction::Separator);
    }
}

proof fn lemma_others(tabs: Seq<usize>, idx: usize)
    ensures
        forall|k: int| 0 <= k < others(tabs, idx).len() ==> {
            &&& tabs.contains(#[trigger] others(tabs, idx)[k])
            &&& others(tabs, idx)[k] != idx
        },
    decreases tabs.len(),
{
    if tabs.len() > 0 {
        lemma_others(tabs.drop_last(), idx);
        let o = others(tabs, idx);
        let o1 = others(tabs.drop_last(), idx);
        assert forall|k: int| 0 <= k < o.len() implies tabs.contains(#[trigger] o[k]) && o[k] != idx by {
            if k < o1.len() {
                assert(o[k] == o1[k]);
                let i = choose|i: int| 0 <= i < tabs.drop_last().len() && tabs.drop_last()[i] == o1[k];
                assert(tabs[i] == o1[k]);
            } else {
                assert(tabs[tabs.len() - 1] == tabs.last());
            }
        }
    }
}

proof fn lemma_fit_tab_rows(model: PaneModel, idx: usize, m: MenuRows, ts: Seq<usize>)
    requires
        rows_fit(model, idx, m),
        model.dock_of_pane(idx) is Some,
        forall|k: int|
            0 <= k < ts.len() ==> #[trigger] ts[k] != idx && model.tabs(model.dock_of_pane(idx)->0).contains(
                ts[k],
            ),
    ensures
        rows_fit(model, idx, tab_rows(m, ts)),
    decreases ts.len(),
{
    if ts.len() > 0 {
        assert forall|k: int| 0 <= k < ts.drop_last().len() implies #[trigger] ts.drop_last()[k] != idx
            && model.tabs(model.dock_of_pane(idx)->0).contains(ts.drop_last()[k]) by {
            assert(ts.drop_last()[k] == ts[k]);
        }
        lemma_fit_tab_rows(model, idx, m, ts.drop_last());
        lemma_row_labels_are_not_separators(ts.last());
        assert(ts.last() == ts[ts.len() - 1]);
        lemma_fit_push(
            model,
            idx,
            tab_rows(m, ts.drop_last()),
            "Tab: "@ + title_of(ts.last()),
            PlateMenuAction::ShowTab(ts.last()),
        );
    }
}

proof fn lemma_fit_group_row(
    model: PaneModel,
    idx: usize,
    m: MenuRows,
    begun: bool,
    l: Seq<char>,
    a: PlateMenuAction,
)
    requires
        rows_fit(model, idx, m),
        row_fits(model, idx, l, a),
    ensures
        rows_fit(
            model,
            idx,
            (if !begun {
                separated(m)
            } else {
                m
            }).push(l, a),
        ),
{
    lemma_fit_separated(model, idx, m);
    if !begun {
        lemma_fit_push(model, idx, separated(m), l, a);
    } else {
        lemma_fit_push(model, idx, m, l, a);
    }
}

proof fn lemma_fit_add_tab(
    model: PaneModel,
    d: crate::dock::Dock,
    idx: usize,
    st: (MenuRows, bool),
    other: usize,
)
    requires
        rows_fit(model, idx, st.0),
        model.dock_of_pane(idx) == Some(d),
    ensures
        rows_fit(model, idx, add_tab_step(model, d, idx, st, other).0),
{
    if offers_add_tab(model, d, idx, other) {
        lemma_row_labels_are_not_separators(other);
        lemma_fit_group_row(model, idx, st.0, st.1, "Add Tab: "@ + title_of(other), PlateMenuAction::AddTab(other));
    }
}

proof fn lemma_fit_dock_rows(model: PaneModel, m: MenuRows, d: crate::dock::Dock, idx: usize)
    requires
        rows_fit(model, idx, m),
        model.dock_of_pane(idx) == Some(d),
    ensures
        rows_fit(model, idx, dock_rows(model, m, d, idx)),
{
    lemma_row_labels_are_not_separators(idx);
    let sw = others(model.tabs(d), idx);
    lemma_fit_separated(model, idx, m);
    lemma_others(model.tabs(d), idx);
    lemma_fit_tab_rows(model, idx, separated(m), sw);
    let m1 = if sw.len() > 0 {
        tab_rows(separated(m), sw)
    } else {
        m
    };
    let s1 = add_tab_step(model, d, idx, (m1, false), NETWORK_PANEL_IDX);
    lemma_fit_add_tab(model, d, idx, (m1, false), NETWORK_PANEL_IDX);
    let s2 = add_tab_step(model, d, idx, s1, PARAM_IDX);
    lemma_fit_add_tab(model, d, idx, s1, PARAM_IDX);
    let s3 = add_tab_step(model, d, idx, s2, SPREADSHEET_IDX);
    lemma_fit_add_tab(model, d, idx, s2, SPREADSHEET_IDX);
    let s4 = add_tab_step(model, d, idx, s3, NETWORK_PANEL2_IDX);
    lemma_fit_add_tab(model, d, idx, s3, NETWORK_PANEL2_IDX);
    if model.tabs(d).len() > 1 {
        lemma_fit_group_row(model, idx, s4.0, s4.1, "Move To Own Plate"@, PlateMenuAction::SplitTab);
    }
    let s5 = if model.tabs(d).len() > 1 {
        let mm = if !s4.1 {
            separated(s4.0)
        } else {
            s4.0
        };
        (mm.push("Move To Own Plate"@, PlateMenuAction::SplitTab), true)
    } else {
        s4
    };
    if idx == NETWORK_PANEL2_IDX {
        lemma_fit_group_row(model, idx, s5.0, s5.1, "Close Tab"@, PlateMenuAction::CloseTab);
    }
}

/// The corner menu is contextual, whatever the state: given standard rows
/// that fit the plate, every row of its menu fits it (a separator exactly
/// where the label is "-"; Detach only where detaching works; Collapse on
/// an expanded plate, Expand on a collapsed one; Reattach on a detached
/// pane; Close Tab only on the second network plate; the span rows only on
/// the spreadsheet), no separator is orphaned, and a detached pane offers
/// Reattach alone.
pub proof fn plate_menu_rows_fit(model: PaneModel, idx: usize, standard: MenuRows)
    requires
        standard_rows_fit(model, idx, standard),
    ensures
        rows_fit(model, idx, model.plate_menu(idx, standard)),
        no_orphan_separators(model.plate_menu(idx, standard).labels),
        model.pane_is_detached(idx) ==> model.plate_menu(idx, standard).actions == seq![
            PlateMenuAction::Reattach,
        ],
{
    assert forall|i: int| 0 <= i < standard.labels.len() implies !is_separator(
        #[trigger] standard.labels[i],
    ) by {
        assert(row_fits(model, idx, standard.labels[i], standard.actions[i]));
        assert(is_window_action(standard.actions[i]));
    }
    menu_has_no_orphan_separators(model, idx, standard);
    lemma_row_labels_are_not_separators(idx);
    if !model.pane_is_detached(idx) {
        let m1 = if idx == SPREADSHEET_IDX && !model.collapsed[idx as int] {
            span_rows(standard, model.tucks_left, model.tucks_right)
        } else {
            standard
        };
        if idx == SPREADSHEET_IDX && !model.collapsed[idx as int] {
            lemma_fit_separated(model, idx, standard);
            let a = separated(standard);
            let b = if !(model.tucks_left && model.tucks_right) {
                a.push("Full Width"@, PlateMenuAction::FullWidth)
            } else {
                a
            };
            if !(model.tucks_left && model.tucks_right) {
                lemma_fit_push(model, idx, a, "Full Width"@, PlateMenuAction::FullWidth);
            }
            if model.tucks_left || model.tucks_right {
                lemma_fit_push(model, idx, b, "Between Panes"@, PlateMenuAction::BetweenPanes);
            }
        }
        match model.dock_of_pane(idx) {
            Some(d) => lemma_fit_dock_rows(model, m1, d, idx),
            None => {},
        }
    }
}

proof fn lemma_lowercase_fixed(s: Seq<char>)
    requires
        forall|i: int| 0 <= i < s.len() ==> !(65 <= #[trigger] (s[i] as int) <= 90),
    ensures
        ascii_lowercase(s) == s,
{
    assert(ascii_lowercase(s) =~= s);
}

/// Folding to lower case twice is folding once.
proof fn lemma_lowercase_idempotent(s: Seq<char>)
    ensures
        ascii_lowercase(ascii_lowercase(s)) == ascii_lowercase(s),
{
    assert forall|i: int| 0 <= i < s.len() implies #[trigger] ascii_lower(ascii_lower(s[i]))
        == ascii_lower(s[i]) by {
        let c = s[i];
        if 65 <= c as int <= 90 {
            assert(ascii_lower(c) as int == c as int + 32);
        }
    }
    assert(ascii_lowercase(ascii_lowercase(s)) =~= ascii_lowercase(s));
}

/// A plate's external name leads back to it: `pane_slot_from_name` is the
/// inverse of `pane_name_from_slot`.
pub proof fn pane_name_round_trip(idx: usize)
    requires
        is_plate_slot(idx),
    ensures
        name_of(idx) is Some,
        slot_of_name(ascii_lowercase(name_of(idx)->0)) == Some(idx),
{
    reveal_strlit("network");
    reveal_strlit("parameters");
    reveal_strlit("params");
    reveal_strlit("spreadsheet");
    reveal_strlit("playbar");
    reveal_strlit("network2");
    let n = name_of(idx)->0;
    lemma_lowercase_fixed(n);
    assert("network"@.len() == 7);
    assert("network2"@.len() == 8);
    assert("parameters"@.len() == 10);
    assert("params"@.len() == 6);
    assert("spreadsheet"@.len() == 11);
    assert("playbar"@.len() == 7);
    assert("network"@[0] != "playbar"@[0]);
}

/// The lookup by name ignores ASCII case, and takes "params" for the
/// parameters pane.
pub proof fn pane_names_ignore_case(s: Seq<char>)
    ensures
        slot_of_name(ascii_lowercase(ascii_lowercase(s))) == slot_of_name(ascii_lowercase(s)),
        slot_of_name(ascii_lowercase("params"@)) == Some(PARAM_IDX),
        slot_of_name(ascii_lowercase("PARAMS"@)) == Some(PARAM_IDX),
{
    lemma_lowercase_idempotent(s);
    reveal_strlit("network");
    reveal_strlit("parameters");
    reveal_strlit("params");
    reveal_strlit("PARAMS");
    lemma_lowercase_fixed("params"@);
    assert(ascii_lowercase("PARAMS"@) =~= "params"@);
    assert("network"@.len() == 7);
    assert("parameters"@.len() == 10);
    assert("params"@.len() == 6);
}

/// The pane an argv flag asks for is the pane whose flag it is:
/// `pane_from_detach_flag` is the inverse of `pane_detach_flag`.
pub proof fn detach_flag_round_trip(idx: usize)
    requires
        detach_flag_of(idx) is Some,
    ensures
        flag_owner(detach_flag_of(idx)->0) == Some(idx),
{
    reveal_strlit("--detached-params");
    reveal_strlit("--detached-spreadsheet");
    reveal_strlit("--detached-playbar");
    assert("--detached-params"@.len() == 17);
    assert("--detached-spreadsheet"@.len() == 22);
    assert("--detached-playbar"@.len() == 18);
}

/// Every flag the lookup accepts is the flag of the pane it returns.
pub proof fn detach_flag_owner_has_the_flag(arg: Seq<char>)
    ensures
        flag_owner(arg) matches Some(i) ==> detach_flag_of(i) == Some(arg),
{
}

/// Collapsing a plate makes it a stub, and expanding it again restores the
/// collapse table it started from.
pub proof fn collapse_then_expand_restores(model: PaneModel, idx: usize)
    requires
        model.wf(),
        is_plate_slot(idx),
        !model.pane_is_collapsed(idx),
    ensures
        model.with_collapsed(idx, true).pane_is_collapsed(idx),
        model.with_collapsed(idx, true).pane_is_stubbed(idx),
        !model.with_collapsed(idx, true).with_collapsed(idx, false).pane_is_collapsed(idx),
        model.with_collapsed(idx, true).with_collapsed(idx, false).collapsed == model.collapsed,
{
    assert(model.with_collapsed(idx, true).with_collapsed(idx, false).collapsed =~= model.collapsed);
}

/// Detach is offered only where it works: never inside a detached window,
/// never twice for one pane, and one pane's detach does not block another's.
pub proof fn detach_is_offered_once(model: PaneModel, idx: usize, other: usize)
    requires
        model.wf(),
        detach_flag_of(idx) is Some,
        other != idx,
    ensures
        model.detached_pane is Some ==> !model.plate_can_detach(idx),
        model.is_detached_network ==> !model.plate_can_detach(idx),
        !model.with_spawned(idx).plate_can_detach(idx),
        model.plate_can_detach(other) ==> model.with_spawned(idx).plate_can_detach(other),
{
}

/// Reattaching a pane whose window was spawned undoes the detach: the pane
/// is back, its child window is killed and no longer held, and the detach
/// and child tables are what they were.
pub proof fn reattach_undoes_detach(model: PaneModel, idx: usize)
    requires
        model.wf(),
        detach_flag_of(idx) is Some,
        !model.detached[idx as int],
        !model.children[idx as int],
    ensures
        model.with_spawned(idx).pane_is_detached(idx),
        !model.with_spawned(idx).after_reattach(idx).pane_is_detached(idx),
        model.with_spawned(idx).after_reattach(idx).detached == model.detached,
        model.with_spawned(idx).after_reattach(idx).children == model.children,
        model.with_spawned(idx).reattach_commands(idx) == seq![PaneCommand::KillChild(idx)],
{
    let m1 = model.with_spawned(idx);
    assert(m1.after_reattach(idx).detached =~= model.detached);
    assert(m1.after_reattach(idx).children =~= model.children);
    assert(m1.reattach_commands(idx) =~= seq![PaneCommand::KillChild(idx)]);
}

/// A pane the poll takes back is no longer detached and holds no child; a
/// pane it does not take back keeps its flags.
pub proof fn poll_reclaims_exactly_the_exited(model: PaneModel, exited: Seq<bool>, i: usize)
    requires
        model.wf(),
        exited.len() == WIDGET_COUNT,
        is_plate_slot(i),
    ensures
        model.reclaims(exited, i) ==> !model.after_poll(exited).pane_is_detached(i)
            && !model.after_poll(exited).holds_child(i) && model.any_reclaimed(exited),
        !model.reclaims(exited, i) ==> model.after_poll(exited).pane_is_detached(i)
            == model.pane_is_detached(i) && model.after_poll(exited).holds_child(i)
            == model.holds_child(i),
{
}

/// A pane shows a stub label exactly when it is drawn as a stub, and a
/// detached stub never reads like a collapsed one.
pub proof fn stub_labels_tell_detached_from_collapsed(model: PaneModel, idx: usize)
    ensures
        (model.stub_label(idx) is Some) == model.pane_is_stubbed(idx),
        model.pane_is_detached(idx) ==> model.stub_label(idx) == Some(
            title_of(idx) + detached_suffix(),
        ),
        !model.pane_is_detached(idx) && model.pane_is_collapsed(idx) ==> model.stub_label(idx)
            == Some(title_of(idx)),
        title_of(idx) + detached_suffix() != title_of(idx),
{
    reveal_strlit(" \u{2014} detached");
    assert(detached_suffix().len() > 0);
    assert((title_of(idx) + detached_suffix()).len() != title_of(idx).len());
}

/// A click on a separator row dispatches nothing.
pub proof fn separator_rows_are_inert(model: PaneModel, idx: usize)
    ensures
        model.after_dispatch(idx, PlateMenuAction::Separator) == model,
        model.dispatch_commands(idx, PlateMenuAction::Separator) == Seq::<PaneCommand>::empty(),
{
}

/// Full width tucks the spreadsheet under both neighbours and
/// between-panes under neither, whatever came before; the span group then
/// offers only the way back.
pub proof fn full_width_round_trip(model: PaneModel)
    ensures
        model.with_full_width(true).tucks_left && model.with_full_width(true).tucks_right,
        !model.with_full_width(true).with_full_width(false).tucks_left,
        !model.with_full_width(true).with_full_width(false).tucks_right,
        span_rows(MenuRows { labels: seq![], actions: seq![] }, true, true).actions == seq![
            PlateMenuAction::BetweenPanes,
        ],
        span_rows(MenuRows { labels: seq![], actions: seq![] }, false, false).actions == seq![
            PlateMenuAction::FullWidth,
        ],
{
    let e = MenuRows { labels: seq![], actions: seq![] };
    assert(separated(e) == e);
    assert(span_rows(e, true, true).actions =~= seq![PlateMenuAction::BetweenPanes]);
    assert(span_rows(e, false, false).actions =~= seq![PlateMenuAction::FullWidth]);
}

/// A collapse is saved state: from a state that matches its last save,
/// collapsing or expanding a plate leaves the collapse unsaved, doing it a
/// second time changes nothing, and undoing it matches the save again.
pub proof fn collapse_is_saved_state(model: PaneModel, idx: usize, c: bool)
    requires
        model.wf(),
        is_plate_slot(idx),
        model.collapsed == model.saved_collapsed,
        model.collapsed[idx as int] != c,
    ensures
        ({
            let m1 = model.with_collapsed(idx, c);
            &&& m1.collapsed != m1.saved_collapsed
            &&& m1.with_collapsed(idx, c) == m1
            &&& m1.with_collapsed(idx, !c).collapsed == m1.with_collapsed(idx, !c).saved_collapsed
        }),
{
    let m1 = model.with_collapsed(idx, c);
    assert(m1.collapsed[idx as int] != m1.saved_collapsed[idx as int]);
    assert(m1.with_collapsed(idx, !c).collapsed =~= model.collapsed);
}

/// No Add Tab row offers a pane that lives in another window, the plate's
/// own pane, or a pane already tabbed into the plate's dock.
pub proof fn add_tab_rows_offer_only_free_panes(model: PaneModel, idx: usize, standard: MenuRows, k: int)
    requires
        standard_rows_fit(model, idx, standard),
        0 <= k < model.plate_menu(idx, standard).actions.len(),
    ensures
        model.plate_menu(idx, standard).actions[k] matches PlateMenuAction::AddTab(o) ==> {
            &&& o != idx
            &&& !model.pane_is_detached(o)
            &&& model.dock_of_pane(idx) is Some
            &&& !model.tabs(model.dock_of_pane(idx)->0).contains(o)
        },
{
    plate_menu_rows_fit(model, idx, standard);
    let m = model.plate_menu(idx, standard);
    assert(row_fits(model, idx, m.labels[k], m.actions[k]));
}

} // verus!
