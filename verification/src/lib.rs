use vstd::prelude::*;

pub mod slots;
pub mod text;
pub mod dock;
pub mod plate_corner;
pub mod state;
pub mod mold;
pub mod page;
pub mod laws;
pub mod focus;
pub mod node_tree;
pub mod viewer_state;
pub mod detail;
pub mod wrangle;
pub mod expr;
pub mod command;
pub mod layout;
pub mod playbar;

verus! {

} // verus!
