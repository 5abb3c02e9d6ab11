//! Keyboard focus cycling between the panes' menubars.

use vstd::prelude::*;
use crate::slots::{LEFT_MENUBAR_IDX, PARAM_MENUBAR_IDX, RIGHT_MENUBAR_IDX, SPREADSHEET_MENUBAR_IDX};

verus! {

/// `seq![idx]` when the pane is shown, else nothing.
pub open spec fn shown(idx: usize, on: bool) -> Seq<usize> {
    if on {
        seq![idx]
    } else {
        seq![]
    }
}

/// The menubars focus cycles through, in order: network, right, parameters,
/// spreadsheet, each only while its pane is shown.
pub open spec fn cycle_order(left: bool, right: bool, param: bool, spreadsheet: bool) -> Seq<usize> {
    shown(LEFT_MENUBAR_IDX, left) + shown(RIGHT_MENUBAR_IDX, right) + shown(PARAM_MENUBAR_IDX, param)
        + shown(SPREADSHEET_MENUBAR_IDX, spreadsheet)
}

/// The pane after (or, in `reverse`, before) `current` in the cycle,
/// wrapping at the ends. A `current` outside the cycle moves to its first
/// pane; with nothing shown, focus stays.
pub open spec fn next_in_cycle(order: Seq<usize>, current: usize, reverse: bool) -> usize {
    if order.len() == 0 {
        current
    } else if !order.contains(current) {
        order[0]
    } else {
        let p = order.index_of(current);
        if reverse {
            order[(p + order.len() - 1) % (order.len() as int)]
        } else {
            order[(p + 1) % (order.len() as int)]
        }
    }
}

/// The menubar that Tab (Shift+Tab in `reverse`) moves focus to from
/// `current`, among the shown panes.
pub fn get_next_visible_pane(
    current: usize,
    left: bool,
    right: bool,
    param: bool,
    spreadsheet: bool,
    reverse: bool,
) -> (next: usize)
    ensures
        next == next_in_cycle(cycle_order(left, right, param, spreadsheet), current, reverse),
{
    let ghost order = cycle_order(left, right, param, spreadsheet);
    let mut panes: Vec<usize> = Vec::new();
    if left {
        panes.push(LEFT_MENUBAR_IDX);
    }
    if right {
        panes.push(RIGHT_MENUBAR_IDX);
    }
    if param {
        panes.push(PARAM_MENUBAR_IDX);
    }
    if spreadsheet {
        panes.push(SPREADSHEET_MENUBAR_IDX);
    }
    assert(panes@ =~= order);
    let n = panes.len();
    if n == 0 {
        return current;
    }
    let mut p: usize = 0;
    while p < n && panes[p] != current
        invariant
            n == panes@.len(),
            p <= n,
            forall|j: int| 0 <= j < p ==> panes@[j] != current,
        decreases n - p,
    {
        p = p + 1;
    }
    if p == n {
        assert(!order.contains(current));
        return panes[0];
    }
    proof {
        assert(order.contains(current));
        let i = order.index_of(current);
        assert(0 <= i < n && order[i] == current);
        assert(forall|a: int, b: int| 0 <= a < b < n ==> panes@[a] != panes@[b]);
        assert(i == p);
    }
    if reverse {
        panes[(p + n - 1) % n]
    } else {
        panes[(p + 1) % n]
    }
}

/// Shift+Tab undoes Tab, and Tab undoes Shift+Tab: from any shown pane,
/// stepping one way and then the other comes back to it.
pub proof fn reverse_undoes_forward(
    left: bool,
    right: bool,
    param: bool,
    spreadsheet: bool,
    current: usize,
    reverse: bool,
)
    requires
        cycle_order(left, right, param, spreadsheet).contains(current),
    ensures
        ({
            let order = cycle_order(left, right, param, spreadsheet);
            next_in_cycle(order, next_in_cycle(order, current, reverse), !reverse) == current
        }),
{
    let order = cycle_order(left, right, param, spreadsheet);
    let n = order.len() as int;
    assert(forall|a: int, b: int| 0 <= a < b < n ==> order[a] != order[b]);
    let p = order.index_of(current);
    assert(0 <= p < n);
    assert((p + n - 1) % n == if p == 0 {
        n - 1
    } else {
        p - 1
    }) by (nonlinear_arith)
        requires
            0 <= p < n,
    ;
    assert((p + 1) % n == if p == n - 1 {
        0
    } else {
        p + 1
    }) by (nonlinear_arith)
        requires
            0 <= p < n,
    ;
    let q = if reverse {
        (p + n - 1) % n
    } else {
        (p + 1) % n
    };
    assert((q + 1) % n == if q == n - 1 {
        0
    } else {
        q + 1
    }) by (nonlinear_arith)
        requires
            0 <= q < n,
    ;
    assert((q + n - 1) % n == if q == 0 {
        n - 1
    } else {
        q - 1
    }) by (nonlinear_arith)
        requires
            0 <= q < n,
    ;
    let nx = order[q];
    assert(order.contains(nx));
    assert(order.index_of(nx) == q);
    if reverse {
        assert((q + 1) % n == p);
    } else {
        assert((q + n - 1) % n == p);
    }
}

} // verus!
