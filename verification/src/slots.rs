//! The widget roster: every slot of the window, numbered densely in
//! declaration order.

use vstd::prelude::*;

verus! {

pub const HEADER_IDX: usize = 0;
pub const CONTENT_IDX: usize = 1;
pub const SPLITTER1_IDX: usize = 2;
pub const VIEWPORT_IDX: usize = 3;
pub const SPLITTER2_IDX: usize = 4;
pub const PARAM_IDX: usize = 5;
pub const CANVAS_IDX: usize = 6;
pub const LEFT_MENUBAR_IDX: usize = 7;
pub const RIGHT_MENUBAR_IDX: usize = 8;
pub const PARAM_MENUBAR_IDX: usize = 9;
pub const STATUS_IDX: usize = 10;
pub const BREADCRUMB_IDX: usize = 11;
pub const SPREADSHEET_IDX: usize = 12;
pub const SPREADSHEET_MENUBAR_IDX: usize = 13;
pub const NETWORK_PANEL_IDX: usize = 14;
pub const PLAYBAR_IDX: usize = 15;
pub const NETWORK_PANEL2_IDX: usize = 16;
pub const CONTENT2_IDX: usize = 17;
pub const BREADCRUMB2_IDX: usize = 18;
pub const PAGE_IDX: usize = 19;
pub const DIALOG_IDX: usize = 20;

/// How many slots the window has; every `*_IDX` is below it.
pub const WIDGET_COUNT: usize = 21;

} // verus!
