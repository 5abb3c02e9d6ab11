//! The display flags of a directory's child nodes: at most one child of a
//! directory shows its geometry.

use vstd::prelude::*;

verus! {

/// The display flags after `set_child_geometry_visible(slot, visible)`.
pub open spec fn displayed_after(flags: Seq<bool>, slot: int, visible: bool) -> Seq<bool> {
    if !(0 <= slot < flags.len()) {
        flags
    } else if visible {
        Seq::new(flags.len(), |i: int| i == slot)
    } else {
        flags.update(slot, false)
    }
}

/// Show or hide the geometry of the child in `slot`, given the display flags
/// of a directory's children. Showing is exclusive, a display flag rather
/// than a render flag: every sibling is turned off. Hiding touches only that
/// child. A slot out of range changes nothing.
pub fn set_child_geometry_visible(flags: &mut Vec<bool>, slot: usize, visible: bool)
    ensures
        final(flags)@ == displayed_after(old(flags)@, slot as int, visible),
{
    let n = flags.len();
    if slot >= n {
        return;
    }
    if visible {
        let mut i: usize = 0;
        while i < n
            invariant
                n == flags@.len(),
                slot < n,
                i <= n,
                forall|j: int| 0 <= j < i ==> flags@[j] == (j == slot),
            decreases n - i,
        {
            flags.set(i, i == slot);
            i = i + 1;
        }
        assert(flags@ =~= displayed_after(old(flags)@, slot as int, visible));
    } else {
        flags.set(slot, false);
    }
}

/// At most one of the flags is set.
pub open spec fn at_most_one(flags: Seq<bool>) -> bool {
    forall|i: int, j: int| 0 <= i < flags.len() && 0 <= j < flags.len() && flags[i] && flags[j] ==> i == j
}

/// Geometry display is exclusive per directory: whatever the toggle, a
/// directory that showed at most one child's geometry still does, and
/// showing a child leaves that child, and only it, shown.
pub proof fn geometry_display_stays_exclusive(flags: Seq<bool>, slot: int, visible: bool)
    requires
        at_most_one(flags),
    ensures
        at_most_one(displayed_after(flags, slot, visible)),
        visible && 0 <= slot < flags.len() ==> forall|i: int|
            0 <= i < flags.len() ==> #[trigger] displayed_after(flags, slot, visible)[i] == (i == slot),
{
}

} // verus!
