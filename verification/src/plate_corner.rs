//! The plates that carry a corner control, their names, titles and
//! detach flags, and the plate corner menu with the pane operations it
//! dispatches.

use vstd::prelude::*;
use crate::dock::{Dock, NO_PANE, dock_index};
use crate::slots::{
    BREADCRUMB2_IDX, BREADCRUMB_IDX, CONTENT2_IDX, CONTENT_IDX, NETWORK_PANEL2_IDX,
    NETWORK_PANEL_IDX, PARAM_IDX, PLAYBAR_IDX, SPREADSHEET_IDX, WIDGET_COUNT,
};
use crate::state::{PaneModel, State};
use crate::text::{ascii_lowercase, lower_eq, str_eq};

verus! {

/// The plates that carry a corner control, in draw order. The viewport is
/// absent: its plate is the window-spanning lip.
pub const PLATE_SLOTS: [usize; 5] = [
    NETWORK_PANEL_IDX,
    PARAM_IDX,
    SPREADSHEET_IDX,
    PLAYBAR_IDX,
    NETWORK_PANEL2_IDX,
];

/// The panes the tab rows offer: the dockable set.
pub const TAB_CANDIDATES: [usize; 4] = [
    NETWORK_PANEL_IDX,
    PARAM_IDX,
    SPREADSHEET_IDX,
    NETWORK_PANEL2_IDX,
];

/// Is `idx` one of [`PLATE_SLOTS`]?
pub open spec fn is_plate_slot(idx: usize) -> bool {
    ||| idx == NETWORK_PANEL_IDX
    ||| idx == PARAM_IDX
    ||| idx == SPREADSHEET_IDX
    ||| idx == PLAYBAR_IDX
    ||| idx == NETWORK_PANEL2_IDX
}

/// `PLATE_SLOTS.contains(&idx)`.
pub fn plate_slot(idx: usize) -> (b: bool)
    ensures
        b == is_plate_slot(idx),
        b ==> idx < WIDGET_COUNT,
{
    idx == NETWORK_PANEL_IDX || idx == PARAM_IDX || idx == SPREADSHEET_IDX || idx == PLAYBAR_IDX
        || idx == NETWORK_PANEL2_IDX
}

/// What the corner menu can do to its plate.
#[derive(Clone, Copy, Debug, PartialEq, Eq, Structural)]
pub enum PlateMenuAction {
    /// Shrink the plate to its title stub.
    Collapse,
    /// Restore a collapsed plate.
    Expand,
    /// Move the pane out into its own window.
    Detach,
    /// Take a detached pane back, closing the window that held it.
    Reattach,
    /// Spreadsheet: span the full window width, tucking under both neighbors.
    FullWidth,
    /// Spreadsheet: back to the strip between the network and params panes.
    BetweenPanes,
    /// Bring this dock's named tab to the front.
    ShowTab(usize),
    /// Pull the named pane out of its dock and tab it into this one, active.
    AddTab(usize),
    /// Move this pane out of its shared dock into the first empty one.
    SplitTab,
    /// Remove a closable pane (the second network editor) from the docks.
    CloseTab,
    /// A "-" row: engraved, inert, so a click on the line dispatches nothing.
    Separator,
}

/// The pane's display name.
pub open spec fn title_of(idx: usize) -> Seq<char> {
    if idx == NETWORK_PANEL_IDX {
        "Network"@
    } else if idx == PARAM_IDX {
        "Parameters"@
    } else if idx == SPREADSHEET_IDX {
        "Spreadsheet"@
    } else if idx == PLAYBAR_IDX {
        "Playbar"@
    } else if idx == NETWORK_PANEL2_IDX {
        "Network 2"@
    } else {
        "Pane"@
    }
}

/// The pane's display name: the stub's label, and what the menu is "about".
pub fn plate_title(idx: usize) -> (t: &'static str)
    ensures
        t@ == title_of(idx),
{
    if idx == NETWORK_PANEL_IDX {
        "Network"
    } else if idx == PARAM_IDX {
        "Parameters"
    } else if idx == SPREADSHEET_IDX {
        "Spreadsheet"
    } else if idx == PLAYBAR_IDX {
        "Playbar"
    } else if idx == NETWORK_PANEL2_IDX {
        "Network 2"
    } else {
        "Pane"
    }
}

/// The view of an optional string.
pub open spec fn opt_view(o: Option<&str>) -> Option<Seq<char>> {
    match o {
        Some(s) => Some(s@),
        None => None,
    }
}

/// The command-line flag that runs the pane as its own window.
pub open spec fn detach_flag_of(idx: usize) -> Option<Seq<char>> {
    if idx == PARAM_IDX {
        Some("--detached-params"@)
    } else if idx == SPREADSHEET_IDX {
        Some("--detached-spreadsheet"@)
    } else if idx == PLAYBAR_IDX {
        Some("--detached-playbar"@)
    } else {
        None
    }
}

/// The CLI flag that runs this pane as its own window, e.g.
/// `--detached-params`. The network is absent: its detached window is the
/// circular one, handled on its own.
pub fn pane_detach_flag(idx: usize) -> (f: Option<&'static str>)
    ensures
        opt_view(f) == detach_flag_of(idx),
{
    if idx == PARAM_IDX {
        Some("--detached-params")
    } else if idx == SPREADSHEET_IDX {
        Some("--detached-spreadsheet")
    } else if idx == PLAYBAR_IDX {
        Some("--detached-playbar")
    } else {
        None
    }
}

/// The stable external name of a plate pane.
pub open spec fn name_of(idx: usize) -> Option<Seq<char>> {
    if idx == NETWORK_PANEL_IDX {
        Some("network"@)
    } else if idx == PARAM_IDX {
        Some("parameters"@)
    } else if idx == SPREADSHEET_IDX {
        Some("spreadsheet"@)
    } else if idx == PLAYBAR_IDX {
        Some("playbar"@)
    } else if idx == NETWORK_PANEL2_IDX {
        Some("network2"@)
    } else {
        None
    }
}

/// The stable external name of a plate pane: the identity used by the pane
/// tools and by pane state persisted in project files.
pub fn pane_name_from_slot(idx: usize) -> (n: Option<&'static str>)
    ensures
        opt_view(n) == name_of(idx),
{
    if idx == NETWORK_PANEL_IDX {
        Some("network")
    } else if idx == PARAM_IDX {
        Some("parameters")
    } else if idx == SPREADSHEET_IDX {
        Some("spreadsheet")
    } else if idx == PLAYBAR_IDX {
        Some("playbar")
    } else if idx == NETWORK_PANEL2_IDX {
        Some("network2")
    } else {
        None
    }
}

/// The slot a lower-case pane name names, the "params" shorthand included.
pub open spec fn slot_of_name(s: Seq<char>) -> Option<usize> {
    if s == "network"@ {
        Some(NETWORK_PANEL_IDX)
    } else if s == "parameters"@ || s == "params"@ {
        Some(PARAM_IDX)
    } else if s == "spreadsheet"@ {
        Some(SPREADSHEET_IDX)
    } else if s == "playbar"@ {
        Some(PLAYBAR_IDX)
    } else if s == "network2"@ {
        Some(NETWORK_PANEL2_IDX)
    } else {
        None
    }
}

/// The inverse of [`pane_name_from_slot`], ignoring ASCII case and
/// accepting the "params" shorthand.
pub fn pane_slot_from_name(name: &str) -> (r: Option<usize>)
    ensures
        r == slot_of_name(ascii_lowercase(name@)),
{
    if lower_eq(name, "network") {
        Some(NETWORK_PANEL_IDX)
    } else if lower_eq(name, "parameters") || lower_eq(name, "params") {
        Some(PARAM_IDX)
    } else if lower_eq(name, "spreadsheet") {
        Some(SPREADSHEET_IDX)
    } else if lower_eq(name, "playbar") {
        Some(PLAYBAR_IDX)
    } else if lower_eq(name, "network2") {
        Some(NETWORK_PANEL2_IDX)
    } else {
        None
    }
}

/// The first plate, in [`PLATE_SLOTS`] order, whose detach flag is `arg`.
pub open spec fn flag_owner(arg: Seq<char>) -> Option<usize> {
    if detach_flag_of(NETWORK_PANEL_IDX) == Some(arg) {
        Some(NETWORK_PANEL_IDX)
    } else if detach_flag_of(PARAM_IDX) == Some(arg) {
        Some(PARAM_IDX)
    } else if detach_flag_of(SPREADSHEET_IDX) == Some(arg) {
        Some(SPREADSHEET_IDX)
    } else if detach_flag_of(PLAYBAR_IDX) == Some(arg) {
        Some(PLAYBAR_IDX)
    } else if detach_flag_of(NETWORK_PANEL2_IDX) == Some(arg) {
        Some(NETWORK_PANEL2_IDX)
    } else {
        None
    }
}

/// Is `arg` the detach flag of `idx`?
fn flag_is(idx: usize, arg: &str) -> (b: bool)
    ensures
        b == (detach_flag_of(idx) == Some(arg@)),
{
    match pane_detach_flag(idx) {
        Some(f) => str_eq(f, arg),
        None => false,
    }
}

/// The pane an argv entry asks for, if any: the inverse of
/// [`pane_detach_flag`], searched in [`PLATE_SLOTS`] order.
pub fn pane_from_detach_flag(arg: &str) -> (r: Option<usize>)
    ensures
        r == flag_owner(arg@),
{
    if flag_is(NETWORK_PANEL_IDX, arg) {
        Some(NETWORK_PANEL_IDX)
    } else if flag_is(PARAM_IDX, arg) {
        Some(PARAM_IDX)
    } else if flag_is(SPREADSHEET_IDX, arg) {
        Some(SPREADSHEET_IDX)
    } else if flag_is(PLAYBAR_IDX, arg) {
        Some(PLAYBAR_IDX)
    } else if flag_is(NETWORK_PANEL2_IDX, arg) {
        Some(NETWORK_PANEL2_IDX)
    } else {
        None
    }
}

/// The detached window's `app_id`.
pub open spec fn app_id_of(idx: usize) -> Seq<char> {
    if idx == PARAM_IDX {
        "cce-designer-params"@
    } else if idx == SPREADSHEET_IDX {
        "cce-designer-spreadsheet"@
    } else if idx == PLAYBAR_IDX {
        "cce-designer-playbar"@
    } else {
        "cce-designer"@
    }
}

/// The detached window's `app_id`, which the compositor keys window rules off.
pub fn pane_app_id(idx: usize) -> (a: &'static str)
    ensures
        a@ == app_id_of(idx),
{
    if idx == PARAM_IDX {
        "cce-designer-params"
    } else if idx == SPREADSHEET_IDX {
        "cce-designer-spreadsheet"
    } else if idx == PLAYBAR_IDX {
        "cce-designer-playbar"
    } else {
        "cce-designer"
    }
}

/// The slots that are the body of a plate and go dark with its stub.
pub open spec fn stub_bodies_of(idx: usize) -> Seq<usize> {
    if idx == NETWORK_PANEL_IDX {
        seq![CONTENT_IDX, BREADCRUMB_IDX]
    } else if idx == NETWORK_PANEL2_IDX {
        seq![CONTENT2_IDX, BREADCRUMB2_IDX]
    } else {
        seq![]
    }
}

/// The separate body slots a plate's stub takes with it: the network plates
/// own their graph and breadcrumb, which a stub has no room for.
pub fn stub_body_slots(idx: usize) -> (v: Vec<usize>)
    ensures
        v@ == stub_bodies_of(idx),
{
    let mut v: Vec<usize> = Vec::new();
    if idx == NETWORK_PANEL_IDX {
        v.push(CONTENT_IDX);
        v.push(BREADCRUMB_IDX);
    } else if idx == NETWORK_PANEL2_IDX {
        v.push(CONTENT2_IDX);
        v.push(BREADCRUMB2_IDX);
    }
    v
}

/// Work the plate operations leave to the application: process handling,
/// the circular network window, and the dock-tab machinery.
#[derive(Clone, Copy, Debug, PartialEq, Eq, Structural)]
pub enum PaneCommand {
    /// Kill and reap the detached child window process held for this pane.
    KillChild(usize),
    /// Toggle the circular detached network window (the network's own
    /// detach and reattach).
    ToggleCircularWindow,
    /// Save the shared project, then start this executable with the pane's
    /// [`pane_detach_flag`]; once the child runs, report it through
    /// [`State::detach_spawned`].
    SpawnDetached(usize),
    /// Bring the tab to the front of the dock.
    ShowDockTab(Dock, usize),
    /// Pull the pane into the dock as its active tab.
    AddDockTab(Dock, usize),
    /// Move the pane out of its shared dock into the first empty one.
    SplitDockTab(usize),
    /// Remove the closable pane from the docks.
    CloseDockTab(usize),
    /// Untick the circular detached-window item (menu 2, item 3) in the
    /// left menubar's menus and in the header's: the window is gone.
    UncheckCircularWindowItem,
}

/// What a detached pane's stub says after its title.
pub open spec fn detached_suffix() -> Seq<char> {
    " \u{2014} detached"@
}

impl PaneModel {
    /// `idx` is drawn as a collapsed stub.
    pub open spec fn pane_is_collapsed(self, idx: usize) -> bool {
        is_plate_slot(idx) && self.collapsed[idx as int]
    }

    /// `idx` lives in a detached window; the network's flag is the circular
    /// window's.
    pub open spec fn pane_is_detached(self, idx: usize) -> bool {
        if idx == NETWORK_PANEL_IDX {
            self.circular
        } else {
            is_plate_slot(idx) && self.detached[idx as int]
        }
    }

    /// `idx` is drawn as a stub: collapsed, or left behind by a detach.
    pub open spec fn pane_is_stubbed(self, idx: usize) -> bool {
        self.pane_is_detached(idx) || self.pane_is_collapsed(idx)
    }

    /// `idx` has somewhere to detach to: never from inside a detached window,
    /// never twice, and only where a detached window mode exists.
    pub open spec fn plate_can_detach(self, idx: usize) -> bool {
        if self.is_detached_network || self.detached_pane is Some {
            false
        } else if idx == NETWORK_PANEL_IDX {
            !self.circular
        } else {
            detach_flag_of(idx) is Some && !self.detached[idx as int]
        }
    }

    /// The label a stubbed pane shows.
    pub open spec fn stub_label(self, idx: usize) -> Option<Seq<char>> {
        if self.pane_is_detached(idx) {
            Some(title_of(idx) + detached_suffix())
        } else if self.pane_is_collapsed(idx) {
            Some(title_of(idx))
        } else {
            None
        }
    }

    /// After `set_pane_collapsed(idx, c)`.
    pub open spec fn with_collapsed(self, idx: usize, c: bool) -> PaneModel {
        if is_plate_slot(idx) && self.collapsed[idx as int] != c {
            PaneModel { collapsed: self.collapsed.update(idx as int, c), needs_layout: true, ..self }
        } else {
            self
        }
    }

    /// After `set_spreadsheet_full_width(full)`.
    pub open spec fn with_full_width(self, full: bool) -> PaneModel {
        PaneModel { tucks_left: full, tucks_right: full, needs_layout: true, ..self }
    }

    /// After the child window for `idx` has been started.
    pub open spec fn with_spawned(self, idx: usize) -> PaneModel {
        PaneModel {
            children: self.children.update(idx as int, true),
            detached: self.detached.update(idx as int, true),
            needs_layout: true,
            ..self
        }
    }

    /// What detaching `idx` asks of the application.
    pub open spec fn detach_commands(self, idx: usize) -> Seq<PaneCommand> {
        if idx == NETWORK_PANEL_IDX {
            seq![PaneCommand::ToggleCircularWindow]
        } else if detach_flag_of(idx) is Some {
            seq![PaneCommand::SpawnDetached(idx)]
        } else {
            seq![]
        }
    }

    /// A child window process is held for `idx`.
    pub open spec fn holds_child(self, idx: usize) -> bool {
        idx < WIDGET_COUNT && self.children[idx as int]
    }

    /// After the child handle of `idx` is dropped.
    pub open spec fn without_child(self, idx: usize) -> PaneModel {
        if self.holds_child(idx) {
            PaneModel { children: self.children.update(idx as int, false), ..self }
        } else {
            self
        }
    }

    /// After `reattach_plate(idx)`.
    pub open spec fn after_reattach(self, idx: usize) -> PaneModel {
        if !self.pane_is_detached(idx) {
            self
        } else if idx == NETWORK_PANEL_IDX {
            self.without_child(idx)
        } else {
            let m = self.without_child(idx);
            PaneModel { detached: m.detached.update(idx as int, false), needs_layout: true, ..m }
        }
    }

    /// What reattaching `idx` asks of the application.
    pub open spec fn reattach_commands(self, idx: usize) -> Seq<PaneCommand> {
        if !self.pane_is_detached(idx) {
            seq![]
        } else {
            let kill = if self.holds_child(idx) {
                seq![PaneCommand::KillChild(idx)]
            } else {
                seq![]
            };
            if idx == NETWORK_PANEL_IDX {
                kill.push(PaneCommand::ToggleCircularWindow)
            } else {
                kill
            }
        }
    }

    /// After `set_pane_detached(idx, detached)`.
    pub open spec fn after_set_detached(self, idx: usize, detached: bool) -> PaneModel {
        if detached {
            self
        } else {
            self.after_reattach(idx)
        }
    }

    /// What `set_pane_detached(idx, detached)` asks of the application.
    pub open spec fn set_detached_commands(self, idx: usize, detached: bool) -> Seq<PaneCommand> {
        if detached {
            if self.plate_can_detach(idx) {
                self.detach_commands(idx)
            } else {
                seq![]
            }
        } else {
            self.reattach_commands(idx)
        }
    }
}

impl State {
    /// Is `idx` drawn as a collapsed stub?
    pub fn pane_is_collapsed(&self, idx: usize) -> (b: bool)
        ensures
            b == self@.pane_is_collapsed(idx),
    {
        plate_slot(idx) && self.collapsed_panes[idx]
    }

    /// Is this pane living in a detached window? The network's flag is
    /// separate because its detached window is the circular one.
    pub fn pane_is_detached(&self, idx: usize) -> (b: bool)
        ensures
            b == self@.pane_is_detached(idx),
    {
        if idx == NETWORK_PANEL_IDX {
            return self.detached_circular_network;
        }
        plate_slot(idx) && self.detached_panes[idx]
    }

    /// Is this pane drawn as a stub rather than in full: collapsed, or left
    /// behind by a detach?
    pub fn pane_is_stubbed(&self, idx: usize) -> (b: bool)
        ensures
            b == self@.pane_is_stubbed(idx),
            b == (self@.pane_is_detached(idx) || self@.pane_is_collapsed(idx)),
    {
        self.pane_is_detached(idx) || self.pane_is_collapsed(idx)
    }

    /// Whether `idx` has somewhere to detach to. A detached window never
    /// offers to detach again, and a pane already handed out cannot be
    /// handed out twice.
    pub fn plate_can_detach(&self, idx: usize) -> (b: bool)
        ensures
            b == self@.plate_can_detach(idx),
    {
        if self.is_detached_network || self.detached_pane.is_some() {
            return false;
        }
        if idx == NETWORK_PANEL_IDX {
            !self.detached_circular_network
        } else {
            pane_detach_flag(idx).is_some() && !self.detached_panes[idx]
        }
    }

    /// The label a stubbed pane shows, or `None` when the pane is drawn in
    /// full. A detached stub says so; a collapsed one shows the bare title.
    pub fn pane_stub_label(&self, idx: usize) -> (l: Option<String>)
        ensures
            match l {
                Some(s) => self@.stub_label(idx) == Some(s@),
                None => self@.stub_label(idx) is None,
            },
    {
        if self.pane_is_detached(idx) {
            let mut s = String::new();
            s.append(plate_title(idx));
            s.append(" \u{2014} detached");
            Some(s)
        } else if self.pane_is_collapsed(idx) {
            let mut s = String::new();
            s.append(plate_title(idx));
            Some(s)
        } else {
            None
        }
    }

    /// Collapse or expand a plate. Anything but a plate, or a plate already
    /// in that state, is left alone.
    pub fn set_pane_collapsed(&mut self, idx: usize, collapsed: bool)
        ensures
            final(self)@ == old(self)@.with_collapsed(idx, collapsed),
    {
        if !plate_slot(idx) || self.collapsed_panes[idx] == collapsed {
            return;
        }
        self.collapsed_panes[idx] = collapsed;
        self.needs_layout = true;
    }

    /// Spreadsheet span: full width tucks it under both neighbours,
    /// between-panes clears both tucks.
    pub fn set_spreadsheet_full_width(&mut self, full: bool)
        ensures
            final(self)@ == old(self)@.with_full_width(full),
    {
        self.spreadsheet_tucks_left = full;
        self.spreadsheet_tucks_right = full;
        self.needs_layout = true;
    }

    /// What detaching `idx` takes: the network toggles its circular window;
    /// a pane with a detach flag is spawned into its own window (and only
    /// marked detached once that worked, through [`State::detach_spawned`]);
    /// any other pane has nowhere to go.
    pub fn detach_plate(&self, idx: usize) -> (cmds: Vec<PaneCommand>)
        ensures
            cmds@ == self@.detach_commands(idx),
    {
        let mut cmds: Vec<PaneCommand> = Vec::new();
        if idx == NETWORK_PANEL_IDX {
            cmds.push(PaneCommand::ToggleCircularWindow);
            return cmds;
        }
        if pane_detach_flag(idx).is_some() {
            cmds.push(PaneCommand::SpawnDetached(idx));
        }
        cmds
    }

    /// The child window for `idx` is running: hold it, and stop laying the
    /// pane out here.
    pub fn detach_spawned(&mut self, idx: usize)
        requires
            idx < WIDGET_COUNT,
        ensures
            final(self)@ == old(self)@.with_spawned(idx),
    {
        self.detached_children[idx] = true;
        self.detached_panes[idx] = true;
        self.needs_layout = true;
    }

    /// Drop the child window handle held for `idx`; whether there was one to
    /// kill and reap.
    pub fn close_detached_child(&mut self, idx: usize) -> (had: bool)
        ensures
            had == old(self)@.holds_child(idx),
            final(self)@ == old(self)@.without_child(idx),
    {
        if idx < WIDGET_COUNT && self.detached_children[idx] {
            self.detached_children[idx] = false;
            true
        } else {
            false
        }
    }

    /// Take a detached pane back and close the window that held it.
    pub fn reattach_plate(&mut self, idx: usize) -> (cmds: Vec<PaneCommand>)
        ensures
            final(self)@ == old(self)@.after_reattach(idx),
            cmds@ == old(self)@.reattach_commands(idx),
    {
        let mut cmds: Vec<PaneCommand> = Vec::new();
        if !self.pane_is_detached(idx) {
            return cmds;
        }
        if self.close_detached_child(idx) {
            cmds.push(PaneCommand::KillChild(idx));
        }
        if idx == NETWORK_PANEL_IDX {
            cmds.push(PaneCommand::ToggleCircularWindow);
            return cmds;
        }
        self.detached_panes[idx] = false;
        self.needs_layout = true;
        cmds
    }

    /// Detach or reattach a pane: the corner menu's two window actions.
    pub fn set_pane_detached(&mut self, idx: usize, detached: bool) -> (cmds: Vec<PaneCommand>)
        ensures
            final(self)@ == old(self)@.after_set_detached(idx, detached),
            cmds@ == old(self)@.set_detached_commands(idx, detached),
    {
        if detached {
            if self.plate_can_detach(idx) {
                self.detach_plate(idx)
            } else {
                Vec::new()
            }
        } else {
            self.reattach_plate(idx)
        }
    }
}

impl PaneModel {
    /// The poll takes `i` back: a detached plate whose held child window has
    /// `exited`.
    pub open spec fn reclaims(self, exited: Seq<bool>, i: usize) -> bool {
        &&& is_plate_slot(i)
        &&& self.pane_is_detached(i)
        &&& self.holds_child(i)
        &&& exited[i as int]
    }

    /// The poll takes some pane back.
    pub open spec fn any_reclaimed(self, exited: Seq<bool>) -> bool {
        ||| self.reclaims(exited, NETWORK_PANEL_IDX)
        ||| self.reclaims(exited, PARAM_IDX)
        ||| self.reclaims(exited, SPREADSHEET_IDX)
        ||| self.reclaims(exited, PLAYBAR_IDX)
        ||| self.reclaims(exited, NETWORK_PANEL2_IDX)
    }

    /// What the poll asks of the application: when the network's circular
    /// window is taken back, its menu item is unticked.
    pub open spec fn poll_commands(self, exited: Seq<bool>) -> Seq<PaneCommand> {
        if self.reclaims(exited, NETWORK_PANEL_IDX) {
            seq![PaneCommand::UncheckCircularWindowItem]
        } else {
            seq![]
        }
    }

    /// After `poll_detached_children(exited)`: every reclaimed pane drops its
    /// child handle and is no longer detached (the network through its
    /// circular flag), and the layout is rebuilt if anything came back.
    pub open spec fn after_poll(self, exited: Seq<bool>) -> PaneModel {
        PaneModel {
            children: Seq::new(
                self.children.len(),
                |i: int| self.children[i] && !self.reclaims(exited, i as usize),
            ),
            detached: Seq::new(
                self.detached.len(),
                |i: int|
                    self.detached[i] && !(self.reclaims(exited, i as usize) && i
                        != NETWORK_PANEL_IDX),
            ),
            circular: self.circular && !self.reclaims(exited, NETWORK_PANEL_IDX),
            needs_layout: self.needs_layout || self.any_reclaimed(exited),
            ..self
        }
    }

    /// One pane's share of the poll.
    pub open spec fn reclaim_step(self, exited: Seq<bool>, idx: usize) -> PaneModel {
        if self.reclaims(exited, idx) {
            if idx == NETWORK_PANEL_IDX {
                PaneModel {
                    children: self.children.update(idx as int, false),
                    circular: false,
                    needs_layout: true,
                    ..self
                }
            } else {
                PaneModel {
                    children: self.children.update(idx as int, false),
                    detached: self.detached.update(idx as int, false),
                    needs_layout: true,
                    ..self
                }
            }
        } else {
            self
        }
    }
}

impl State {
    /// One pane's share of the poll.
    fn reclaim_one(&mut self, idx: usize, exited: &[bool; WIDGET_COUNT]) -> (r: bool)
        requires
            is_plate_slot(idx),
        ensures
            r == old(self)@.reclaims(exited@, idx),
            final(self)@ == old(self)@.reclaim_step(exited@, idx),
    {
        if !self.pane_is_detached(idx) || !self.detached_children[idx] || !exited[idx] {
            return false;
        }
        self.detached_children[idx] = false;
        if idx == NETWORK_PANEL_IDX {
            self.detached_circular_network = false;
        } else {
            self.detached_panes[idx] = false;
        }
        self.needs_layout = true;
        true
    }

    /// Take back the panes whose detached window the user closed, so a
    /// closed window does not strand its pane as a dead stub. `exited[i]`
    /// says whether the child window held for slot `i` has exited; the
    /// result says whether any pane came back. When the network comes back,
    /// its circular flag is cleared and its menu item is to be unticked.
    pub fn poll_detached_children(&mut self, exited: &[bool; WIDGET_COUNT]) -> (r: (
        bool,
        Vec<PaneCommand>,
    ))
        ensures
            r.0 == old(self)@.any_reclaimed(exited@),
            final(self)@ == old(self)@.after_poll(exited@),
            r.1@ == old(self)@.poll_commands(exited@),
    {
        let ghost m0 = self@;
        let a = self.reclaim_one(NETWORK_PANEL_IDX, exited);
        let b = self.reclaim_one(PARAM_IDX, exited);
        let c = self.reclaim_one(SPREADSHEET_IDX, exited);
        let d = self.reclaim_one(PLAYBAR_IDX, exited);
        let e = self.reclaim_one(NETWORK_PANEL2_IDX, exited);
        proof {
            let target = m0.after_poll(exited@);
            assert(self@.children =~= target.children);
            assert(self@.detached =~= target.detached);
        }
        let mut cmds: Vec<PaneCommand> = Vec::new();
        if a {
            cmds.push(PaneCommand::UncheckCircularWindowItem);
        }
        proof {
            assert(cmds@ =~= m0.poll_commands(exited@));
        }
        (a || b || c || d || e, cmds)
    }
}

/// The plate on top among those whose corner control is hit: the last in
/// draw order ([`PLATE_SLOTS`]) with `hit` set.
pub open spec fn top_hit(hit: Seq<bool>) -> Option<usize> {
    if hit[NETWORK_PANEL2_IDX as int] {
        Some(NETWORK_PANEL2_IDX)
    } else if hit[PLAYBAR_IDX as int] {
        Some(PLAYBAR_IDX)
    } else if hit[SPREADSHEET_IDX as int] {
        Some(SPREADSHEET_IDX)
    } else if hit[PARAM_IDX as int] {
        Some(PARAM_IDX)
    } else if hit[NETWORK_PANEL_IDX as int] {
        Some(NETWORK_PANEL_IDX)
    } else {
        None
    }
}

/// The plate whose corner control is under the pointer. `hit[i]` says
/// whether plate `i` shows a control and the pointer is on it; plates are
/// searched in reverse draw order, so an overlapping pane's control wins,
/// matching what the user sees on top.
pub fn plate_corner_at(hit: &[bool; WIDGET_COUNT]) -> (r: Option<usize>)
    ensures
        r == top_hit(hit@),
{
    if hit[NETWORK_PANEL2_IDX] {
        Some(NETWORK_PANEL2_IDX)
    } else if hit[PLAYBAR_IDX] {
        Some(PLAYBAR_IDX)
    } else if hit[SPREADSHEET_IDX] {
        Some(SPREADSHEET_IDX)
    } else if hit[PARAM_IDX] {
        Some(PARAM_IDX)
    } else if hit[NETWORK_PANEL_IDX] {
        Some(NETWORK_PANEL_IDX)
    } else {
        None
    }
}

/// The rows of a plate menu: a label and an action for each.
pub struct MenuRows {
    pub labels: Seq<Seq<char>>,
    pub actions: Seq<PlateMenuAction>,
}

impl MenuRows {
    /// One more row at the bottom.
    pub open spec fn push(self, label: Seq<char>, action: PlateMenuAction) -> MenuRows {
        MenuRows { labels: self.labels.push(label), actions: self.actions.push(action) }
    }
}

/// The rows held in an option list and its action list.
pub open spec fn menu_of(options: Seq<String>, actions: Seq<PlateMenuAction>) -> MenuRows {
    MenuRows { labels: options.map_values(|s: String| s@), actions }
}

/// The label of an engraved separator row.
pub open spec fn separator_label() -> Seq<char> {
    "-"@
}

/// A separator at the bottom, unless the menu is empty or already ends in
/// one.
pub open spec fn separated(m: MenuRows) -> MenuRows {
    if m.labels.len() > 0 && m.labels.last() != separator_label() {
        m.push(separator_label(), PlateMenuAction::Separator)
    } else {
        m
    }
}

/// The spreadsheet's layout-span group: full width unless it already tucks
/// under both neighbours, between-panes if it tucks under either.
pub open spec fn span_rows(m: MenuRows, tucks_left: bool, tucks_right: bool) -> MenuRows {
    let m1 = separated(m);
    let m2 = if !(tucks_left && tucks_right) {
        m1.push("Full Width"@, PlateMenuAction::FullWidth)
    } else {
        m1
    };
    if tucks_left || tucks_right {
        m2.push("Between Panes"@, PlateMenuAction::BetweenPanes)
    } else {
        m2
    }
}

/// The tabs other than `idx`, in order.
pub open spec fn others(tabs: Seq<usize>, idx: usize) -> Seq<usize>
    decreases tabs.len(),
{
    if tabs.len() == 0 {
        seq![]
    } else if tabs.last() != idx {
        others(tabs.drop_last(), idx).push(tabs.last())
    } else {
        others(tabs.drop_last(), idx)
    }
}

/// A "Tab: ..." row for each of `ts`, in order.
pub open spec fn tab_rows(m: MenuRows, ts: Seq<usize>) -> MenuRows
    decreases ts.len(),
{
    if ts.len() == 0 {
        m
    } else {
        tab_rows(m, ts.drop_last()).push("Tab: "@ + title_of(ts.last()), PlateMenuAction::ShowTab(ts.last()))
    }
}

/// `other` can be pulled into dock `d` as a tab of `idx`'s plate.
pub open spec fn offers_add_tab(model: PaneModel, d: Dock, idx: usize, other: usize) -> bool {
    &&& other != idx
    &&& !model.tabs(d).contains(other)
    &&& !model.pane_is_detached(other)
}

/// The "Add Tab" row for `other`, with the group's separator before the
/// first one; the flag says whether the management group has begun.
pub open spec fn add_tab_step(
    model: PaneModel,
    d: Dock,
    idx: usize,
    st: (MenuRows, bool),
    other: usize,
) -> (MenuRows, bool) {
    if offers_add_tab(model, d, idx, other) {
        let m = if !st.1 {
            separated(st.0)
        } else {
            st.0
        };
        (m.push("Add Tab: "@ + title_of(other), PlateMenuAction::AddTab(other)), true)
    } else {
        st
    }
}

/// The tab rows of a docked plate: switching to the dock's other tabs,
/// pulling the other dockable panes in, splitting a shared dock, and
/// closing the closable pane.
pub open spec fn dock_rows(model: PaneModel, m: MenuRows, d: Dock, idx: usize) -> MenuRows {
    let sw = others(model.tabs(d), idx);
    let m1 = if sw.len() > 0 {
        tab_rows(separated(m), sw)
    } else {
        m
    };
    let s1 = add_tab_step(model, d, idx, (m1, false), NETWORK_PANEL_IDX);
    let s2 = add_tab_step(model, d, idx, s1, PARAM_IDX);
    let s3 = add_tab_step(model, d, idx, s2, SPREADSHEET_IDX);
    let s4 = add_tab_step(model, d, idx, s3, NETWORK_PANEL2_IDX);
    let s5 = if model.tabs(d).len() > 1 {
        let m = if !s4.1 {
            separated(s4.0)
        } else {
            s4.0
        };
        (m.push("Move To Own Plate"@, PlateMenuAction::SplitTab), true)
    } else {
        s4
    };
    if idx == NETWORK_PANEL2_IDX {
        let m = if !s5.1 {
            separated(s5.0)
        } else {
            s5.0
        };
        m.push("Close Tab"@, PlateMenuAction::CloseTab)
    } else {
        s5.0
    }
}

impl PaneModel {
    /// The corner menu of plate `idx`, after the toolkit's `standard` rows: a
    /// detached pane's menu is those rows alone; otherwise the spreadsheet's
    /// span group (when it is not collapsed) and, on a docked plate, the tab
    /// groups follow, each behind a separator.
    pub open spec fn plate_menu(self, idx: usize, standard: MenuRows) -> MenuRows {
        if self.pane_is_detached(idx) {
            standard
        } else {
            let m1 = if idx == SPREADSHEET_IDX && !self.collapsed[idx as int] {
                span_rows(standard, self.tucks_left, self.tucks_right)
            } else {
                standard
            };
            match self.dock_of_pane(idx) {
                Some(d) => dock_rows(self, m1, d, idx),
                None => m1,
            }
        }
    }

    /// After the corner menu of `idx` opens with these row actions.
    pub open spec fn with_menu(self, idx: usize, actions: Seq<PlateMenuAction>) -> PaneModel {
        PaneModel { menu_slot: Some(idx), menu_actions: actions, ..self }
    }
}

/// What a menu row of plate `idx` may be: a separator exactly when its
/// label is "-"; Detach only where detaching works; Collapse only on an
/// expanded plate and Expand only on a collapsed one; Reattach only on a
/// detached pane; Close Tab only on the second network plate; the span rows
/// only on the spreadsheet; a Tab row only for another tab of the plate's
/// dock; an Add Tab row only for another pane that is neither detached nor
/// already a tab of the plate's dock.
pub open spec fn row_fits(model: PaneModel, idx: usize, label: Seq<char>, action: PlateMenuAction) -> bool {
    &&& (label == separator_label()) == (action == PlateMenuAction::Separator)
    &&& action == PlateMenuAction::Detach ==> model.plate_can_detach(idx)
    &&& action == PlateMenuAction::Collapse ==> !model.pane_is_collapsed(idx)
    &&& action == PlateMenuAction::Expand ==> model.pane_is_collapsed(idx)
    &&& action == PlateMenuAction::Reattach ==> model.pane_is_detached(idx)
    &&& action == PlateMenuAction::CloseTab ==> idx == NETWORK_PANEL2_IDX
    &&& (action == PlateMenuAction::FullWidth || action == PlateMenuAction::BetweenPanes) ==> idx
        == SPREADSHEET_IDX
    &&& action matches PlateMenuAction::ShowTab(t) ==> {
        &&& t != idx
        &&& model.dock_of_pane(idx) is Some
        &&& model.tabs(model.dock_of_pane(idx)->0).contains(t)
    }
    &&& action matches PlateMenuAction::AddTab(o) ==> {
        &&& o != idx
        &&& !model.pane_is_detached(o)
        &&& model.dock_of_pane(idx) is Some
        &&& !model.tabs(model.dock_of_pane(idx)->0).contains(o)
    }
}

/// Every row of `m` fits plate `idx`, one action per label.
pub open spec fn rows_fit(model: PaneModel, idx: usize, m: MenuRows) -> bool {
    &&& m.labels.len() == m.actions.len()
    &&& forall|k: int|
        0 <= k < m.labels.len() ==> #[trigger] row_fits(model, idx, m.labels[k], m.actions[k])
}

/// One of the window actions the toolkit's standard rows carry.
pub open spec fn is_window_action(a: PlateMenuAction) -> bool {
    ||| a == PlateMenuAction::Collapse
    ||| a == PlateMenuAction::Expand
    ||| a == PlateMenuAction::Detach
    ||| a == PlateMenuAction::Reattach
}

/// What the toolkit's standard rows for plate `idx` are: window actions
/// that fit the plate, and Reattach alone for a detached pane.
pub open spec fn standard_rows_fit(model: PaneModel, idx: usize, m: MenuRows) -> bool {
    &&& rows_fit(model, idx, m)
    &&& forall|k: int| 0 <= k < m.actions.len() ==> is_window_action(#[trigger] m.actions[k])
    &&& model.pane_is_detached(idx) ==> m.actions == seq![PlateMenuAction::Reattach]
}

/// Add a row at the bottom of the menu.
fn push_row(
    options: &mut Vec<String>,
    actions: &mut Vec<PlateMenuAction>,
    label: String,
    action: PlateMenuAction,
)
    requires
        old(options)@.len() == old(actions)@.len(),
    ensures
        final(options)@.len() == final(actions)@.len(),
        menu_of(final(options)@, final(actions)@) == menu_of(old(options)@, old(actions)@).push(
            label@,
            action,
        ),
{
    let ghost l = label@;
    options.push(label);
    actions.push(action);
    proof {
        assert(final(options)@.map_values(|s: String| s@) =~= old(options)@.map_values(
            |s: String| s@,
        ).push(l));
    }
}

/// A row labelled with `prefix` followed by `title`.
fn titled(prefix: &str, title: &str) -> (s: String)
    ensures
        s@ == prefix@ + title@,
{
    let mut s = String::new();
    s.append(prefix);
    s.append(title);
    s
}

/// A row labelled `label`.
fn label_of(label: &str) -> (s: String)
    ensures
        s@ == label@,
{
    let mut s = String::new();
    s.append(label);
    proof {
        assert(s@ =~= label@);
    }
    s
}

/// Push a separator unless the menu is empty or already ends in one: group
/// boundaries are engraved lazily, so a group that contributes nothing
/// leaves no orphaned line.
fn separate(options: &mut Vec<String>, actions: &mut Vec<PlateMenuAction>)
    requires
        old(options)@.len() == old(actions)@.len(),
    ensures
        final(options)@.len() == final(actions)@.len(),
        menu_of(final(options)@, final(actions)@) == separated(menu_of(old(options)@, old(actions)@)),
{
    let n = options.len();
    if n > 0 && !str_eq(options[n - 1].as_str(), "-") {
        push_row(options, actions, label_of("-"), PlateMenuAction::Separator);
    }
}

/// Does `v` hold `x`?
fn vec_contains(v: &Vec<usize>, x: usize) -> (b: bool)
    ensures
        b == v@.contains(x),
{
    let mut i: usize = 0;
    while i < v.len()
        invariant
            i <= v@.len(),
            forall|j: int| 0 <= j < i ==> v@[j] != x,
        decreases v@.len() - i,
    {
        if v[i] == x {
            return true;
        }
        i = i + 1;
    }
    false
}

/// The tabs of `tabs` other than `idx`, in order.
fn others_of(tabs: &Vec<usize>, idx: usize) -> (r: Vec<usize>)
    ensures
        r@ == others(tabs@, idx),
{
    let mut r: Vec<usize> = Vec::new();
    let mut i: usize = 0;
    assert(tabs@.take(0) =~= seq![]);
    while i < tabs.len()
        invariant
            i <= tabs@.len(),
            r@ == others(tabs@.take(i as int), idx),
        decreases tabs@.len() - i,
    {
        assert(tabs@.take(i + 1).drop_last() =~= tabs@.take(i as int));
        if tabs[i] != idx {
            r.push(tabs[i]);
        }
        i = i + 1;
    }
    assert(tabs@.take(tabs@.len() as int) =~= tabs@);
    r
}

impl State {
    /// The "Add Tab" row for `other`, behind the management group's
    /// separator when it is the first row of the group.
    fn add_tab_row(
        &self,
        options: &mut Vec<String>,
        actions: &mut Vec<PlateMenuAction>,
        managed: bool,
        d: Dock,
        idx: usize,
        other: usize,
    ) -> (now_managed: bool)
        requires
            old(options)@.len() == old(actions)@.len(),
        ensures
            final(options)@.len() == final(actions)@.len(),
            (menu_of(final(options)@, final(actions)@), now_managed) == add_tab_step(
                self@,
                d,
                idx,
                (menu_of(old(options)@, old(actions)@), managed),
                other,
            ),
    {
        if other != idx && !vec_contains(&self.dock_tabs[d.index()], other)
            && !self.pane_is_detached(other) {
            if !managed {
                separate(options, actions);
            }
            push_row(options, actions, titled("Add Tab: ", plate_title(other)), PlateMenuAction::AddTab(other));
            true
        } else {
            managed
        }
    }
}

impl State {
    /// The tab groups of a plate docked in `d`.
    fn push_dock_rows(
        &self,
        options: &mut Vec<String>,
        actions: &mut Vec<PlateMenuAction>,
        d: Dock,
        idx: usize,
    )
        requires
            old(options)@.len() == old(actions)@.len(),
        ensures
            final(options)@.len() == final(actions)@.len(),
            menu_of(final(options)@, final(actions)@) == dock_rows(
                self@,
                menu_of(old(options)@, old(actions)@),
                d,
                idx,
            ),
    {
        let ghost m0 = menu_of(options@, actions@);
        let tabs = &self.dock_tabs[d.index()];
        assert(tabs@ == self@.tabs(d));
        let switch_rows = others_of(tabs, idx);
        if switch_rows.len() > 0 {
            separate(options, actions);
            let ghost m1 = menu_of(options@, actions@);
            let mut k: usize = 0;
            assert(switch_rows@.take(0) =~= seq![]);
            while k < switch_rows.len()
                invariant
                    k <= switch_rows@.len(),
                    options@.len() == actions@.len(),
                    menu_of(options@, actions@) == tab_rows(m1, switch_rows@.take(k as int)),
                decreases switch_rows@.len() - k,
            {
                let t = switch_rows[k];
                assert(switch_rows@.take(k + 1).drop_last() =~= switch_rows@.take(k as int));
                push_row(options, actions, titled("Tab: ", plate_title(t)), PlateMenuAction::ShowTab(t));
                k = k + 1;
            }
            assert(switch_rows@.take(switch_rows@.len() as int) =~= switch_rows@);
        }
        let mut managed = false;
        managed = self.add_tab_row(options, actions, managed, d, idx, NETWORK_PANEL_IDX);
        managed = self.add_tab_row(options, actions, managed, d, idx, PARAM_IDX);
        managed = self.add_tab_row(options, actions, managed, d, idx, SPREADSHEET_IDX);
        managed = self.add_tab_row(options, actions, managed, d, idx, NETWORK_PANEL2_IDX);
        if tabs.len() > 1 {
            if !managed {
                separate(options, actions);
                managed = true;
            }
            push_row(options, actions, label_of("Move To Own Plate"), PlateMenuAction::SplitTab);
        }
        if idx == NETWORK_PANEL2_IDX {
            if !managed {
                separate(options, actions);
            }
            push_row(options, actions, label_of("Close Tab"), PlateMenuAction::CloseTab);
        }
    }

    /// Open the corner menu of plate `idx` (anchoring it under the control is
    /// the caller's), after the toolkit's standard rows (`standard_labels`,
    /// `standard_actions`): the rows become the menu's actions, and their
    /// labels are returned for display. A slot that is not a plate, or a
    /// plate that shows no corner control now (`has_control`: it is hidden,
    /// or a circular plate too small to carry one), opens nothing and
    /// changes nothing.
    pub fn open_plate_menu(
        &mut self,
        idx: usize,
        has_control: bool,
        standard_labels: Vec<String>,
        standard_actions: Vec<PlateMenuAction>,
    ) -> (options: Option<Vec<String>>)
        requires
            standard_rows_fit(old(self)@, idx, menu_of(standard_labels@, standard_actions@)),
        ensures
            !(is_plate_slot(idx) && has_control) ==> options is None && final(self)@ == old(self)@,
            is_plate_slot(idx) ==> {
                let menu = old(self)@.plate_menu(
                    idx,
                    menu_of(standard_labels@, standard_actions@),
                );
                &&& rows_fit(old(self)@, idx, menu)
                &&& crate::laws::no_orphan_separators(menu.labels)
            },
            is_plate_slot(idx) && has_control ==> options is Some && {
                let menu = old(self)@.plate_menu(
                    idx,
                    menu_of(standard_labels@, standard_actions@),
                );
                &&& menu_of(options->0@, final(self)@.menu_actions) == menu
                &&& options->0@.len() == final(self)@.menu_actions.len()
                &&& final(self)@ == old(self)@.with_menu(idx, menu.actions)
            },
    {
        proof {
            crate::laws::plate_menu_rows_fit(self@, idx, menu_of(standard_labels@, standard_actions@));
        }
        if !plate_slot(idx) || !has_control {
            return None;
        }
        let mut options = standard_labels;
        let mut actions = standard_actions;
        if !self.pane_is_detached(idx) {
            if idx == SPREADSHEET_IDX && !self.collapsed_panes[idx] {
                separate(&mut options, &mut actions);
                if !(self.spreadsheet_tucks_left && self.spreadsheet_tucks_right) {
                    push_row(&mut options, &mut actions, label_of("Full Width"), PlateMenuAction::FullWidth);
                }
                if self.spreadsheet_tucks_left || self.spreadsheet_tucks_right {
                    push_row(&mut options, &mut actions, label_of("Between Panes"), PlateMenuAction::BetweenPanes);
                }
            }
            match self.dock_of_pane(idx) {
                Some(d) => self.push_dock_rows(&mut options, &mut actions, d, idx),
                None => {},
            }
        }
        self.plate_menu_slot = Some(idx);
        self.plate_menu_actions = actions;
        Some(options)
    }

    /// Close the corner menu.
    pub fn close_plate_menu(&mut self)
        ensures
            final(self)@ == (PaneModel { menu_slot: None, menu_actions: seq![], ..old(self)@ }),
    {
        self.plate_menu_slot = None;
        self.plate_menu_actions.clear();
    }
}

impl PaneModel {
    /// After the menu `action` is carried out on plate `idx`.
    pub open spec fn after_dispatch(self, idx: usize, action: PlateMenuAction) -> PaneModel {
        match action {
            PlateMenuAction::Collapse => self.with_collapsed(idx, true),
            PlateMenuAction::Expand => self.with_collapsed(idx, false),
            PlateMenuAction::Reattach => self.after_reattach(idx),
            PlateMenuAction::FullWidth => self.with_full_width(true),
            PlateMenuAction::BetweenPanes => self.with_full_width(false),
            _ => self,
        }
    }

    /// What the menu `action` on plate `idx` asks of the application. The
    /// tab actions act on the dock that lays the plate out, and do nothing
    /// when none does.
    pub open spec fn dispatch_commands(self, idx: usize, action: PlateMenuAction) -> Seq<
        PaneCommand,
    > {
        match action {
            PlateMenuAction::Detach => self.detach_commands(idx),
            PlateMenuAction::Reattach => self.reattach_commands(idx),
            PlateMenuAction::ShowTab(t) => match self.dock_of_pane(idx) {
                Some(d) => seq![PaneCommand::ShowDockTab(d, t)],
                None => seq![],
            },
            PlateMenuAction::AddTab(o) => match self.dock_of_pane(idx) {
                Some(d) => seq![PaneCommand::AddDockTab(d, o)],
                None => seq![],
            },
            PlateMenuAction::SplitTab => seq![PaneCommand::SplitDockTab(idx)],
            PlateMenuAction::CloseTab => seq![PaneCommand::CloseDockTab(idx)],
            _ => seq![],
        }
    }

    /// The menu closed.
    pub open spec fn menu_closed(self) -> PaneModel {
        PaneModel { menu_slot: None, menu_actions: seq![], ..self }
    }

    /// The plate and action under menu row `row`, if the menu is open and
    /// has that row.
    pub open spec fn picked(self, row: usize) -> Option<(usize, PlateMenuAction)> {
        match self.menu_slot {
            Some(i) => if row < self.menu_actions.len() {
                Some((i, self.menu_actions[row as int]))
            } else {
                None
            },
            None => None,
        }
    }
}

/// `seq![i]` where `flags[i]`, else nothing.
pub open spec fn keep_if(flags: Seq<bool>, i: usize) -> Seq<usize> {
    if flags[i as int] {
        seq![i]
    } else {
        seq![]
    }
}

/// The plates, in [`PLATE_SLOTS`] order, whose flag is set.
pub open spec fn plates_where(flags: Seq<bool>) -> Seq<usize> {
    keep_if(flags, NETWORK_PANEL_IDX) + keep_if(flags, PARAM_IDX) + keep_if(flags, SPREADSHEET_IDX)
        + keep_if(flags, PLAYBAR_IDX) + keep_if(flags, NETWORK_PANEL2_IDX)
}

/// How the detached-window arrangement lays the slots out.
#[derive(Debug, PartialEq, Eq)]
pub enum DetachedLayout {
    /// This process is the detached window of the pane: it claims the whole
    /// window (inside the detached margin) and every other slot goes dark.
    Window(usize),
    /// This is the main window: the plates it handed out keep a stub, which
    /// carries the corner control that is the only way back.
    Stubs(Vec<usize>),
}

/// Push `i` when its flag is set.
fn push_if(v: &mut Vec<usize>, flags: &[bool; WIDGET_COUNT], i: usize)
    requires
        i < WIDGET_COUNT,
    ensures
        final(v)@ == old(v)@ + keep_if(flags@, i),
{
    if flags[i] {
        v.push(i);
    }
    proof {
        assert(final(v)@ =~= old(v)@ + keep_if(flags@, i));
    }
}

/// The plates, in [`PLATE_SLOTS`] order, whose flag is set.
fn plates_flagged(flags: &[bool; WIDGET_COUNT]) -> (v: Vec<usize>)
    ensures
        v@ == plates_where(flags@),
{
    let mut v: Vec<usize> = Vec::new();
    push_if(&mut v, flags, NETWORK_PANEL_IDX);
    push_if(&mut v, flags, PARAM_IDX);
    push_if(&mut v, flags, SPREADSHEET_IDX);
    push_if(&mut v, flags, PLAYBAR_IDX);
    push_if(&mut v, flags, NETWORK_PANEL2_IDX);
    proof {
        assert(v@ =~= plates_where(flags@));
    }
    v
}

impl State {
    /// Carry out a corner-menu action on plate `idx`.
    pub fn dispatch_plate_menu(&mut self, idx: usize, action: PlateMenuAction) -> (cmds: Vec<
        PaneCommand,
    >)
        ensures
            final(self)@ == old(self)@.after_dispatch(idx, action),
            cmds@ == old(self)@.dispatch_commands(idx, action),
    {
        let mut cmds: Vec<PaneCommand> = Vec::new();
        match action {
            PlateMenuAction::Collapse => self.set_pane_collapsed(idx, true),
            PlateMenuAction::Expand => self.set_pane_collapsed(idx, false),
            PlateMenuAction::Detach => {
                cmds = self.detach_plate(idx);
            },
            PlateMenuAction::Reattach => {
                cmds = self.reattach_plate(idx);
            },
            PlateMenuAction::FullWidth => self.set_spreadsheet_full_width(true),
            PlateMenuAction::BetweenPanes => self.set_spreadsheet_full_width(false),
            PlateMenuAction::ShowTab(t) => {
                if let Some(d) = self.dock_of_pane(idx) {
                    cmds.push(PaneCommand::ShowDockTab(d, t));
                }
            },
            PlateMenuAction::AddTab(o) => {
                if let Some(d) = self.dock_of_pane(idx) {
                    cmds.push(PaneCommand::AddDockTab(d, o));
                }
            },
            PlateMenuAction::SplitTab => cmds.push(PaneCommand::SplitDockTab(idx)),
            PlateMenuAction::CloseTab => cmds.push(PaneCommand::CloseDockTab(idx)),
            PlateMenuAction::Separator => {},
        }
        proof {
            assert(cmds@ =~= old(self)@.dispatch_commands(idx, action));
        }
        cmds
    }

    /// A press landed on row `row` of the open corner menu: close the menu,
    /// then carry out what the row does. A row past the end, or no open
    /// menu, only closes it.
    pub fn pick_plate_menu_row(&mut self, row: usize) -> (cmds: Vec<PaneCommand>)
        ensures
            match old(self)@.picked(row) {
                Some(p) => {
                    &&& final(self)@ == old(self)@.menu_closed().after_dispatch(p.0, p.1)
                    &&& cmds@ == old(self)@.menu_closed().dispatch_commands(p.0, p.1)
                },
                None => final(self)@ == old(self)@.menu_closed() && cmds@ == Seq::<
                    PaneCommand,
                >::empty(),
            },
    {
        let picked: Option<(usize, PlateMenuAction)> = match self.plate_menu_slot {
            Some(i) => if row < self.plate_menu_actions.len() {
                Some((i, self.plate_menu_actions[row]))
            } else {
                None
            },
            None => None,
        };
        self.close_plate_menu();
        match picked {
            Some((idx, action)) => self.dispatch_plate_menu(idx, action),
            None => Vec::new(),
        }
    }

    /// Is the corner menu open? It is while the toolkit shows its context
    /// menu (`menu_visible`) and a plate owns it.
    pub fn plate_menu_open(&self, menu_visible: bool) -> (b: bool)
        ensures
            b == (menu_visible && self@.menu_slot is Some),
    {
        menu_visible && self.plate_menu_slot.is_some()
    }

    /// Route a left press while the corner menu may be open. `hit_row` is
    /// the menu row under the press, or `None` when the press missed the
    /// menu. With no open menu nothing happens and the press is not taken.
    /// A press on the menu picks its row and is taken; a press elsewhere
    /// closes the menu and is not taken.
    pub fn handle_plate_menu_click(&mut self, menu_visible: bool, hit_row: Option<usize>) -> (r: (
        bool,
        Vec<PaneCommand>,
    ))
        ensures
            !(menu_visible && old(self)@.menu_slot is Some) ==> {
                &&& final(self)@ == old(self)@
                &&& !r.0
                &&& r.1@ == Seq::<PaneCommand>::empty()
            },
            (menu_visible && old(self)@.menu_slot is Some) ==> match hit_row {
                Some(row) => {
                    &&& r.0
                    &&& match old(self)@.picked(row) {
                        Some(p) => {
                            &&& final(self)@ == old(self)@.menu_closed().after_dispatch(p.0, p.1)
                            &&& r.1@ == old(self)@.menu_closed().dispatch_commands(p.0, p.1)
                        },
                        None => final(self)@ == old(self)@.menu_closed() && r.1@ == Seq::<
                            PaneCommand,
                        >::empty(),
                    }
                },
                None => {
                    &&& final(self)@ == old(self)@.menu_closed()
                    &&& !r.0
                    &&& r.1@ == Seq::<PaneCommand>::empty()
                },
            },
    {
        if !self.plate_menu_open(menu_visible) {
            return (false, Vec::new());
        }
        match hit_row {
            Some(row) => {
                let cmds = self.pick_plate_menu_row(row);
                (true, cmds)
            },
            None => {
                self.close_plate_menu();
                (false, Vec::new())
            },
        }
    }

    /// The collapsed plates, in [`PLATE_SLOTS`] order: each is laid out as
    /// its stub (keep the plate's origin and width, take its height down to
    /// the stub, and hide its [`stub_body_slots`]).
    pub fn apply_collapsed_panes(&self) -> (stubs: Vec<usize>)
        ensures
            stubs@ == plates_where(self@.collapsed),
    {
        plates_flagged(&self.collapsed_panes)
    }

    /// The detached-window arrangement: in a detached window the pane claims
    /// it; in the main window every plate handed out keeps a stub.
    pub fn apply_detached_panes(&self) -> (layout: DetachedLayout)
        ensures
            match layout {
                DetachedLayout::Window(p) => self@.detached_pane == Some(p),
                DetachedLayout::Stubs(v) => self@.detached_pane is None && v@ == plates_where(
                    self@.detached,
                ),
            },
    {
        match self.detached_pane {
            Some(p) => DetachedLayout::Window(p),
            None => DetachedLayout::Stubs(plates_flagged(&self.detached_panes)),
        }
    }
}

} // verus!
