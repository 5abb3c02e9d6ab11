//! The pane-arrangement part of the designer's state: which plates are
//! collapsed or detached, the detached windows, the dock tabs, the open
//! plate menu, and whether the layout has to be rebuilt.

use vstd::prelude::*;
use crate::dock::{Dock, DOCK_COUNT, NO_PANE, dock_index};
use crate::plate_corner::PlateMenuAction;
use crate::slots::{NETWORK_PANEL_IDX, PARAM_IDX, SPREADSHEET_IDX, WIDGET_COUNT};

verus! {

/// The pane-arrangement state. Per-slot tables are indexed by the `*_IDX`
/// slot numbers.
pub struct State {
    /// Plates drawn as their title stub.
    pub collapsed_panes: [bool; WIDGET_COUNT],
    /// The collapse table as the project was last saved with it: a plate's
    /// collapse is saved state, so a table that differs is unsaved.
    pub saved_collapsed_panes: [bool; WIDGET_COUNT],
    /// Plates handed out to a detached window of their own (the network's
    /// circular window is tracked apart, in `detached_circular_network`).
    pub detached_panes: [bool; WIDGET_COUNT],
    /// Plates for which a detached child window process is held.
    pub detached_children: [bool; WIDGET_COUNT],
    /// The network pane lives in the circular detached window.
    pub detached_circular_network: bool,
    /// This process IS the circular detached network window.
    pub is_detached_network: bool,
    /// This process is the detached window of this pane.
    pub detached_pane: Option<usize>,
    /// The plate whose corner menu is open.
    pub plate_menu_slot: Option<usize>,
    /// What each row of the open corner menu does, row for row.
    pub plate_menu_actions: Vec<PlateMenuAction>,
    /// The spreadsheet tucks under its left neighbour.
    pub spreadsheet_tucks_left: bool,
    /// The spreadsheet tucks under its right neighbour.
    pub spreadsheet_tucks_right: bool,
    /// The panes tabbed into each dock (`Left`, `Right`, `Bottom`).
    pub dock_tabs: [Vec<usize>; DOCK_COUNT],
    /// The pane each dock lays out (its front tab), or `NO_PANE`.
    pub dock_fronts: [usize; DOCK_COUNT],
    /// The layout has to be rebuilt and applied before the next frame.
    pub needs_layout: bool,
}

/// The mathematical model of [`State`]: every field, with the tables as
/// sequences.
pub struct PaneModel {
    pub collapsed: Seq<bool>,
    pub saved_collapsed: Seq<bool>,
    pub detached: Seq<bool>,
    pub children: Seq<bool>,
    pub circular: bool,
    pub is_detached_network: bool,
    pub detached_pane: Option<usize>,
    pub menu_slot: Option<usize>,
    pub menu_actions: Seq<PlateMenuAction>,
    pub tucks_left: bool,
    pub tucks_right: bool,
    pub dock_tabs: Seq<Seq<usize>>,
    pub dock_fronts: Seq<usize>,
    pub needs_layout: bool,
}

impl View for State {
    type V = PaneModel;

    open spec fn view(&self) -> PaneModel {
        PaneModel {
            collapsed: self.collapsed_panes@,
            saved_collapsed: self.saved_collapsed_panes@,
            detached: self.detached_panes@,
            children: self.detached_children@,
            circular: self.detached_circular_network,
            is_detached_network: self.is_detached_network,
            detached_pane: self.detached_pane,
            menu_slot: self.plate_menu_slot,
            menu_actions: self.plate_menu_actions@,
            tucks_left: self.spreadsheet_tucks_left,
            tucks_right: self.spreadsheet_tucks_right,
            dock_tabs: self.dock_tabs@.map_values(|v: Vec<usize>| v@),
            dock_fronts: self.dock_fronts@,
            needs_layout: self.needs_layout,
        }
    }
}

impl PaneModel {
    /// The tables have one entry per slot, and one per dock.
    pub open spec fn wf(self) -> bool {
        &&& self.collapsed.len() == WIDGET_COUNT
        &&& self.saved_collapsed.len() == WIDGET_COUNT
        &&& self.detached.len() == WIDGET_COUNT
        &&& self.children.len() == WIDGET_COUNT
        &&& self.dock_tabs.len() == DOCK_COUNT
        &&& self.dock_fronts.len() == DOCK_COUNT
    }

    /// The dock that lays `idx` out (holds it as its front tab), first of
    /// `Left`, `Right`, `Bottom`.
    pub open spec fn dock_of_pane(self, idx: usize) -> Option<Dock> {
        if idx == NO_PANE {
            None
        } else if self.dock_fronts[0] == idx {
            Some(Dock::Left)
        } else if self.dock_fronts[1] == idx {
            Some(Dock::Right)
        } else if self.dock_fronts[2] == idx {
            Some(Dock::Bottom)
        } else {
            None
        }
    }

    /// The panes tabbed into dock `d`.
    pub open spec fn tabs(self, d: Dock) -> Seq<usize> {
        self.dock_tabs[dock_index(d)]
    }
}

impl State {
    /// A fresh main window: nothing collapsed or detached, the network in the
    /// left dock, the parameters in the right, the spreadsheet in the bottom,
    /// and the second network editor unplaced.
    pub fn new() -> (s: State)
        ensures
            s@.wf(),
            forall|i: int| 0 <= i < WIDGET_COUNT ==> !s@.collapsed[i] && !s@.detached[i]
                && !s@.children[i],
            s@.saved_collapsed == s@.collapsed,
            !s@.circular,
            !s@.is_detached_network,
            s@.detached_pane is None,
            s@.menu_slot is None,
            s@.menu_actions.len() == 0,
            !s@.tucks_left,
            !s@.tucks_right,
            s@.dock_tabs == seq![seq![NETWORK_PANEL_IDX], seq![PARAM_IDX], seq![SPREADSHEET_IDX]],
            s@.dock_fronts == seq![NETWORK_PANEL_IDX, PARAM_IDX, SPREADSHEET_IDX],
            s@.needs_layout,
    {
        let none: [bool; WIDGET_COUNT] = [
            false, false, false, false, false, false, false, false, false, false, false,
            false, false, false, false, false, false, false, false, false, false,
        ];
        let mut left: Vec<usize> = Vec::new();
        left.push(NETWORK_PANEL_IDX);
        let mut right: Vec<usize> = Vec::new();
        right.push(PARAM_IDX);
        let mut bottom: Vec<usize> = Vec::new();
        bottom.push(SPREADSHEET_IDX);
        let s = State {
            collapsed_panes: none,
            saved_collapsed_panes: none,
            detached_panes: none,
            detached_children: none,
            detached_circular_network: false,
            is_detached_network: false,
            detached_pane: None,
            plate_menu_slot: None,
            plate_menu_actions: Vec::new(),
            spreadsheet_tucks_left: false,
            spreadsheet_tucks_right: false,
            dock_tabs: [left, right, bottom],
            dock_fronts: [NETWORK_PANEL_IDX, PARAM_IDX, SPREADSHEET_IDX],
            needs_layout: true,
        };
        assert(s.dock_tabs@[0]@ =~= seq![NETWORK_PANEL_IDX]);
        assert(s.dock_tabs@[1]@ =~= seq![PARAM_IDX]);
        assert(s.dock_tabs@[2]@ =~= seq![SPREADSHEET_IDX]);
        assert(s@.dock_tabs =~= seq![seq![NETWORK_PANEL_IDX], seq![PARAM_IDX], seq![SPREADSHEET_IDX]]);
        s
    }

    /// The project was saved: the collapse table saved is the current one.
    pub fn mark_panes_saved(&mut self)
        ensures
            final(self)@ == (PaneModel { saved_collapsed: old(self)@.collapsed, ..old(self)@ }),
    {
        self.saved_collapsed_panes = self.collapsed_panes;
    }

    /// Whether the plates' collapse differs from the last save: the panes'
    /// share of the title's unsaved-changes mark.
    pub fn has_unsaved_pane_changes(&self) -> (b: bool)
        ensures
            b == (self@.collapsed != self@.saved_collapsed),
    {
        let mut i: usize = 0;
        while i < WIDGET_COUNT
            invariant
                i <= WIDGET_COUNT,
                forall|j: int| 0 <= j < i ==> self.collapsed_panes@[j] == self.saved_collapsed_panes@[j],
            decreases WIDGET_COUNT - i,
        {
            if self.collapsed_panes[i] != self.saved_collapsed_panes[i] {
                assert(self@.collapsed[i as int] != self@.saved_collapsed[i as int]);
                return true;
            }
            i = i + 1;
        }
        assert(self@.collapsed =~= self@.saved_collapsed);
        false
    }

    /// The dock that lays `idx` out, if any.
    pub fn dock_of_pane(&self, idx: usize) -> (d: Option<Dock>)
        ensures
            d == self@.dock_of_pane(idx),
    {
        if idx == NO_PANE {
            None
        } else if self.dock_fronts[0] == idx {
            Some(Dock::Left)
        } else if self.dock_fronts[1] == idx {
            Some(Dock::Right)
        } else if self.dock_fronts[2] == idx {
            Some(Dock::Bottom)
        } else {
            None
        }
    }
}

} // verus!
