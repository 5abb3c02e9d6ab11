//! Auto-layout of a network level on its grid: rows are how far downstream
//! a node is, columns keep it under what it reads from.

use vstd::prelude::*;

verus! {

/// The largest grid coordinate a node may be given, either way.
pub const MAX_COORD: i64 = 0x1_0000_0000;

/// The most nodes one level arranges.
pub const MAX_NODES: usize = 0x10_0000;

/// One node of the level, as the arranger sees it.
pub struct LayoutNode {
    /// The node's name, which inputs refer to.
    pub name: String,
    /// The name of the node it reads from, if any.
    pub input: Option<String>,
    /// Its grid cell: column, row.
    pub position: (i64, i64),
    /// A pinned node never moves, and nothing is placed on its cell.
    pub pinned: bool,
}

/// A node, by value.
pub struct NodeView {
    pub name: Seq<char>,
    pub input: Option<Seq<char>>,
    pub position: (int, int),
    pub pinned: bool,
}

impl View for LayoutNode {
    type V = NodeView;

    open spec fn view(&self) -> NodeView {
        NodeView {
            name: self.name@,
            input: match self.input {
                Some(s) => Some(s@),
                None => None,
            },
            position: (self.position.0 as int, self.position.1 as int),
            pinned: self.pinned,
        }
    }
}

/// The nodes, by value.
pub open spec fn views(nodes: Seq<LayoutNode>) -> Seq<NodeView> {
    nodes.map_values(|n: LayoutNode| n@)
}

/// The first node from `j` on, other than `i`, named `target`.
pub open spec fn first_named(ns: Seq<NodeView>, target: Seq<char>, i: int, j: int) -> Option<int>
    decreases ns.len() - j,
{
    if j < 0 || j >= ns.len() {
        None
    } else if j != i && ns[j].name == target {
        Some(j)
    } else {
        first_named(ns, target, i, j + 1)
    }
}

/// The node `i` reads from: the first other node with its input's name. A
/// dangling name, or a node naming itself, is no edge.
pub open spec fn parent_of(ns: Seq<NodeView>, i: int) -> Option<int> {
    match ns[i].input {
        Some(t) => first_named(ns, t, i, 0),
        None => None,
    }
}

/// How far downstream `i` is: the steps up its chain of inputs to a node
/// that reads from nothing, taking at most `fuel` steps (a cyclic chain
/// stops there).
pub open spec fn depth_of(parents: Seq<Option<int>>, i: int, fuel: nat) -> nat
    decreases fuel,
{
    if fuel == 0 {
        0
    } else {
        match parents[i] {
            Some(p) => 1 + depth_of(parents, p, (fuel - 1) as nat),
            None => 0,
        }
    }
}

/// The first column from `col` on whose cell in `row` is not taken, looking
/// at most `fuel` cells along (one past every other node's cell is always
/// enough).
pub open spec fn slide(occ: Seq<(int, int)>, col: int, row: int, fuel: nat) -> int
    decreases fuel,
{
    if fuel == 0 {
        col
    } else if occ.contains((col, row)) {
        slide(occ, col + 1, row, (fuel - 1) as nat)
    } else {
        col
    }
}

/// The cells of the nodes as placement proceeds, and the cells taken.
pub struct Grid {
    pub cells: Seq<(int, int)>,
    pub occ: Seq<(int, int)>,
}

/// The pinned nodes' cells, in order.
pub open spec fn pinned_cells(ns: Seq<NodeView>, m: int) -> Seq<(int, int)>
    decreases m,
{
    if m <= 0 {
        seq![]
    } else if ns[m - 1].pinned {
        pinned_cells(ns, m - 1).push(ns[m - 1].position)
    } else {
        pinned_cells(ns, m - 1)
    }
}

/// Place node `i` if it is unpinned and at depth `d`: in row `d`, in the
/// column of the node it reads from as placed so far (its own column for a
/// root), slid right past taken cells.
pub open spec fn place(g: Grid, ns: Seq<NodeView>, parents: Seq<Option<int>>, d: int, i: int) -> Grid {
    if !ns[i].pinned && depth_of(parents, i, ns.len()) == d {
        let wish = match parents[i] {
            Some(p) => g.cells[p].0,
            None => g.cells[i].0,
        };
        let col = slide(g.occ, wish, d, (ns.len() + 1) as nat);
        Grid { cells: g.cells.update(i, (col, d)), occ: g.occ.push((col, d)) }
    } else {
        g
    }
}

/// The grid after every node of depth below `d`, and the first `i` nodes
/// of depth `d`, are placed.
pub open spec fn placed(ns: Seq<NodeView>, parents: Seq<Option<int>>, d: int, i: int) -> Grid
    decreases d, i,
{
    if d <= 0 && i <= 0 {
        Grid {
            cells: ns.map_values(|n: NodeView| n.position),
            occ: pinned_cells(ns, ns.len() as int),
        }
    } else if i <= 0 {
        placed(ns, parents, d - 1, ns.len() as int)
    } else if i > ns.len() {
        placed(ns, parents, d, ns.len() as int)
    } else {
        place(placed(ns, parents, d, i - 1), ns, parents, d, i - 1)
    }
}

/// The nodes' input edges.
pub open spec fn parents_of(ns: Seq<NodeView>) -> Seq<Option<int>> {
    Seq::new(ns.len(), |i: int| parent_of(ns, i))
}

/// Every node's final cell: depths run from 0 to the number of nodes.
pub open spec fn final_cells(ns: Seq<NodeView>) -> Seq<(int, int)> {
    placed(ns, parents_of(ns), ns.len() as int, ns.len() as int).cells
}

/// The nodes that moved, and where to, in order.
pub open spec fn moves_upto(ns: Seq<NodeView>, cells: Seq<(int, int)>, m: int) -> Seq<(int, (int, int))>
    decreases m,
{
    if m <= 0 {
        seq![]
    } else if !ns[m - 1].pinned && cells[m - 1] != ns[m - 1].position {
        moves_upto(ns, cells, m - 1).push((m - 1, cells[m - 1]))
    } else {
        moves_upto(ns, cells, m - 1)
    }
}

/// What `arrange` returns.
pub open spec fn arranged(ns: Seq<NodeView>) -> Seq<(int, (int, int))> {
    moves_upto(ns, final_cells(ns), ns.len() as int)
}

/// The view of the moves.
pub open spec fn moves_view(v: Seq<(usize, (i64, i64))>) -> Seq<(int, (int, int))> {
    v.map_values(|m: (usize, (i64, i64))| (m.0 as int, (m.1.0 as int, m.1.1 as int)))
}

/// The view of a parent table.
pub open spec fn parents_view(v: Seq<Option<usize>>) -> Seq<Option<int>> {
    v.map_values(
        |o: Option<usize>|
            match o {
                Some(p) => Some(p as int),
                None => None,
            },
    )
}

/// The view of a list of cells.
pub open spec fn cells_view(v: Seq<(i64, i64)>) -> Seq<(int, int)> {
    v.map_values(|c: (i64, i64)| (c.0 as int, c.1 as int))
}

/// The first node from `j` on, other than `i`, named `target`.
fn find_named(nodes: &Vec<LayoutNode>, target: &String, i: usize) -> (r: Option<usize>)
    ensures
        match r {
            Some(p) => first_named(views(nodes@), target@, i as int, 0) == Some(p as int),
            None => first_named(views(nodes@), target@, i as int, 0) is None,
        },
{
    let ghost ns = views(nodes@);
    let mut j: usize = 0;
    while j < nodes.len()
        invariant
            ns == views(nodes@),
            j <= nodes@.len(),
            first_named(ns, target@, i as int, 0) == first_named(ns, target@, i as int, j as int),
        decreases nodes@.len() - j,
    {
        if j != i && nodes[j].name == *target {
            return Some(j);
        }
        j = j + 1;
    }
    None
}

/// Does `occ` hold `c`?
fn occupied(occ: &Vec<(i64, i64)>, c: (i64, i64)) -> (b: bool)
    ensures
        b == cells_view(occ@).contains((c.0 as int, c.1 as int)),
{
    let ghost ov = cells_view(occ@);
    let mut k: usize = 0;
    while k < occ.len()
        invariant
            ov == cells_view(occ@),
            k <= occ@.len(),
            forall|m: int| 0 <= m < k ==> ov[m] != (c.0 as int, c.1 as int),
        decreases occ@.len() - k,
    {
        if occ[k].0 == c.0 && occ[k].1 == c.1 {
            assert(ov[k as int] == (c.0 as int, c.1 as int));
            return true;
        }
        k = k + 1;
    }
    false
}

proof fn lemma_first_named(ns: Seq<NodeView>, target: Seq<char>, i: int, j: int)
    requires
        0 <= j,
    ensures
        first_named(ns, target, i, j) matches Some(p) ==> j <= p < ns.len() && p != i,
    decreases ns.len() - j,
{
    if j < ns.len() && !(j != i && ns[j].name == target) {
        lemma_first_named(ns, target, i, j + 1);
    }
}

/// Every node's input edge.
fn parent_table(nodes: &Vec<LayoutNode>) -> (ps: Vec<Option<usize>>)
    ensures
        parents_view(ps@) == parents_of(views(nodes@)),
        ps@.len() == nodes@.len(),
        forall|k: int| 0 <= k < ps@.len() ==> (#[trigger] ps@[k] matches Some(p) ==> p < nodes@.len()),
{
    let ghost ns = views(nodes@);
    let mut ps: Vec<Option<usize>> = Vec::new();
    let mut i: usize = 0;
    while i < nodes.len()
        invariant
            ns == views(nodes@),
            i <= nodes@.len(),
            ps@.len() == i,
            parents_view(ps@) == parents_of(ns).take(i as int),
            forall|k: int| 0 <= k < ps@.len() ==> (#[trigger] ps@[k] matches Some(p) ==> p < nodes@.len()),
        decreases nodes@.len() - i,
    {
        let p = match &nodes[i].input {
            Some(t) => {
                proof {
                    lemma_first_named(ns, t@, i as int, 0);
                }
                find_named(nodes, t, i)
            },
            None => None,
        };
        ps.push(p);
        i = i + 1;
        assert(parents_view(ps@) =~= parents_of(ns).take(i as int));
    }
    assert(parents_of(ns).take(i as int) =~= parents_of(ns));
    ps
}

/// How far downstream node `i` is, taking at most `fuel` steps.
fn depth_exec(ps: &Vec<Option<usize>>, i: usize, fuel: usize) -> (d: usize)
    requires
        i < ps@.len(),
        forall|k: int| 0 <= k < ps@.len() ==> (#[trigger] ps@[k] matches Some(p) ==> p < ps@.len()),
    ensures
        d == depth_of(parents_view(ps@), i as int, fuel as nat),
        d <= fuel,
{
    let ghost pv = parents_view(ps@);
    let mut k = i;
    let mut steps: usize = 0;
    while steps < fuel && ps[k].is_some()
        invariant
            pv == parents_view(ps@),
            k < ps@.len(),
            steps <= fuel,
            forall|m: int| 0 <= m < ps@.len() ==> (#[trigger] ps@[m] matches Some(p) ==> p < ps@.len()),
            depth_of(pv, i as int, fuel as nat) == steps + depth_of(pv, k as int, (fuel - steps) as nat),
        decreases fuel - steps,
    {
        let p = ps[k].unwrap();
        assert(pv[k as int] == Some(p as int));
        k = p;
        steps = steps + 1;
    }
    steps
}

proof fn lemma_col_bound(n: int, k: int)
    requires
        0 <= n <= MAX_NODES,
        0 <= k <= (n + 2) * (n + 2),
    ensures
        MAX_COORD + (k + 1) * (n + 2) <= 0x7fff_ffff_ffff_ffff,
        (k + 1) * (n + 2) == k * (n + 2) + n + 2,
        0 <= k * (n + 2),
{
    assert(0 <= k * (n + 2)) by (nonlinear_arith)
        requires
            0 <= k,
            0 <= n,
    ;
    assert((k + 1) * (n + 2) == k * (n + 2) + n + 2) by (nonlinear_arith);
    assert((n + 2) * (n + 2) <= 0x100_0050_0000) by (nonlinear_arith)
        requires
            0 <= n <= 0x10_0000,
    ;
    assert((k + 1) * (n + 2) <= 0x4000_0000_0000_0000) by (nonlinear_arith)
        requires
            0 <= k + 1 <= 0x200_0000_0000,
            0 <= n + 2 <= 0x20_0000,
    ;
}

proof fn lemma_round_count(n: int, d: int)
    requires
        0 <= n,
        0 <= d <= n + 1,
    ensures
        (d + 1) * n == d * n + n,
        d * n + n <= (n + 2) * (n + 2),
        0 <= d * n,
{
    assert((d + 1) * n == d * n + n) by (nonlinear_arith);
    assert(d * n <= (n + 1) * n) by (nonlinear_arith)
        requires
            0 <= d <= n + 1,
            0 <= n,
    ;
    assert((n + 1) * n + n <= (n + 2) * (n + 2)) by (nonlinear_arith)
        requires
            0 <= n,
    ;
    assert(0 <= d * n) by (nonlinear_arith)
        requires
            0 <= d,
            0 <= n,
    ;
}

/// Lay a level out on its grid. Each unpinned node goes to the row of its
/// depth (how many inputs up to a node that reads from nothing), in the
/// column of the node it reads from as already placed (a root keeps its own
/// column, so independent chains keep their left-to-right order), slid right
/// past cells already taken; nodes are placed root rows first, in order
/// within a row. Pinned nodes never move, and nothing lands on their cells.
/// A dangling or self-naming input is no edge, and a cyclic chain of inputs
/// is cut off after as many steps as there are nodes. Returns the nodes that
/// moved, with their new cells, in order.
pub fn arrange(nodes: &Vec<LayoutNode>) -> (moves: Vec<(usize, (i64, i64))>)
    requires
        nodes@.len() <= MAX_NODES,
        forall|j: int|
            0 <= j < nodes@.len() ==> -MAX_COORD <= (#[trigger] nodes@[j]).position.0 <= MAX_COORD
                && -MAX_COORD <= nodes@[j].position.1 <= MAX_COORD,
    ensures
        moves_view(moves@) == arranged(views(nodes@)),
{
    let ghost ns = views(nodes@);
    let n = nodes.len();
    let ps = parent_table(nodes);
    let ghost pv = parents_view(ps@);
    let mut depths: Vec<usize> = Vec::new();
    let mut cells: Vec<(i64, i64)> = Vec::new();
    let mut occ: Vec<(i64, i64)> = Vec::new();
    let mut m: usize = 0;
    while m < n
        invariant
            n == nodes@.len(),
            n <= MAX_NODES,
            ns == views(nodes@),
            pv == parents_view(ps@),
            pv == parents_of(ns),
            ps@.len() == n,
            forall|k: int| 0 <= k < ps@.len() ==> (#[trigger] ps@[k] matches Some(p) ==> p < ps@.len()),
            forall|j: int|
                0 <= j < nodes@.len() ==> -MAX_COORD <= (#[trigger] nodes@[j]).position.0 <= MAX_COORD
                    && -MAX_COORD <= nodes@[j].position.1 <= MAX_COORD,
            m <= n,
            depths@.len() == m,
            cells@.len() == m,
            forall|j: int| 0 <= j < m ==> #[trigger] depths@[j] == depth_of(pv, j, n as nat),
            cells_view(cells@) == ns.map_values(|v: NodeView| v.position).take(m as int),
            cells_view(occ@) == pinned_cells(ns, m as int),
            forall|j: int| 0 <= j < m ==> -MAX_COORD <= (#[trigger] cells@[j]).0 <= MAX_COORD,
        decreases n - m,
    {
        depths.push(depth_exec(&ps, m, n));
        proof {
            assert(ns[m as int] == nodes@[m as int]@);
        }
        cells.push(nodes[m].position);
        if nodes[m].pinned {
            occ.push(nodes[m].position);
        }
        m = m + 1;
        assert(cells_view(cells@) =~= ns.map_values(|v: NodeView| v.position).take(m as int));
        assert(cells_view(occ@) =~= pinned_cells(ns, m as int));
    }
    assert(ns.map_values(|v: NodeView| v.position).take(n as int) =~= ns.map_values(
        |v: NodeView| v.position,
    ));
    let ghost mut k: int = 0;
    let mut d: usize = 0;
    while d <= n
        invariant
            n == nodes@.len(),
            n <= MAX_NODES,
            ns == views(nodes@),
            pv == parents_view(ps@),
            pv == parents_of(ns),
            ps@.len() == n,
            forall|q: int| 0 <= q < ps@.len() ==> (#[trigger] ps@[q] matches Some(p) ==> p < ps@.len()),
            depths@.len() == n,
            forall|j: int| 0 <= j < n ==> #[trigger] depths@[j] == depth_of(pv, j, n as nat),
            d <= n + 1,
            k == d * n,
            cells@.len() == n,
            cells_view(cells@) == placed(ns, pv, d as int, 0).cells,
            cells_view(occ@) == placed(ns, pv, d as int, 0).occ,
            forall|j: int|
                0 <= j < n ==> -MAX_COORD <= (#[trigger] cells@[j]).0 <= MAX_COORD + k * (n + 2),
        decreases n + 1 - d,
    {
        let mut i: usize = 0;
        proof {
            lemma_round_count(n as int, d as int);
        }
        while i < n
            invariant
                n == nodes@.len(),
                n <= MAX_NODES,
                ns == views(nodes@),
                pv == parents_view(ps@),
                ps@.len() == n,
                forall|q: int| 0 <= q < ps@.len() ==> (#[trigger] ps@[q] matches Some(p) ==> p < ps@.len()),
                depths@.len() == n,
                forall|j: int| 0 <= j < n ==> #[trigger] depths@[j] == depth_of(pv, j, n as nat),
                d <= n,
                i <= n,
                k == d * n + i,
                d * n + n <= (n + 2) * (n + 2),
                cells@.len() == n,
                cells_view(cells@) == placed(ns, pv, d as int, i as int).cells,
                cells_view(occ@) == placed(ns, pv, d as int, i as int).occ,
                forall|j: int|
                    0 <= j < n ==> -MAX_COORD <= (#[trigger] cells@[j]).0 <= MAX_COORD + k * (n + 2),
            decreases n - i,
        {
            let ghost g = placed(ns, pv, d as int, i as int);
            proof {
                lemma_col_bound(n as int, k);
            }
            if !nodes[i].pinned && depths[i] == d {
                let wish: i64 = match ps[i] {
                    Some(p) => cells[p].0,
                    None => cells[i].0,
                };
                let row: i64 = d as i64;
                let ghost ov = cells_view(occ@);
                let mut c: i64 = wish;
                let mut f: usize = n + 1;
                while f > 0 && occupied(&occ, (c, row))
                    invariant
                        ov == cells_view(occ@),
                        f <= n + 1,
                        c == wish + (n + 1 - f),
                        -MAX_COORD <= wish <= MAX_COORD + k * (n + 2),
                        MAX_COORD + (k + 1) * (n + 2) <= 0x7fff_ffff_ffff_ffff,
                        (k + 1) * (n + 2) == k * (n + 2) + n + 2,
                        row == d,
                        slide(ov, wish as int, d as int, (n + 1) as nat) == slide(ov, c as int, d as int, f as nat),
                    decreases f,
                {
                    c = c + 1;
                    f = f - 1;
                }
                cells.set(i, (c, row));
                occ.push((c, row));
                proof {
                    assert(cells_view(cells@) =~= g.cells.update(i as int, (c as int, d as int)));
                    assert(cells_view(occ@) =~= g.occ.push((c as int, d as int)));
                }
            }
            i = i + 1;
            proof {
                k = k + 1;
                assert(k * (n + 2) == (k - 1) * (n + 2) + n + 2);
            }
        }
        d = d + 1;
    }
    assert(placed(ns, pv, (n + 1) as int, 0) == placed(ns, pv, n as int, n as int));
    let mut moves: Vec<(usize, (i64, i64))> = Vec::new();
    let mut j: usize = 0;
    while j < n
        invariant
            n == nodes@.len(),
            ns == views(nodes@),
            cells_view(cells@) == final_cells(ns),
            cells@.len() == n,
            j <= n,
            moves_view(moves@) == moves_upto(ns, final_cells(ns), j as int),
        decreases n - j,
    {
        let c = cells[j];
        let pos = nodes[j].position;
        proof {
            assert(ns[j as int] == nodes@[j as int]@);
            assert(cells_view(cells@)[j as int] == (c.0 as int, c.1 as int));
        }
        if !nodes[j].pinned && !(c.0 == pos.0 && c.1 == pos.1) {
            moves.push((j, c));
            assert(moves_view(moves@) =~= moves_upto(ns, final_cells(ns), j + 1));
        }
        j = j + 1;
    }
    moves
}


/// Where `slide` stops: on a free cell, or after finding every cell it
/// passed taken.
proof fn lemma_slide_shape(occ: Seq<(int, int)>, col: int, row: int, fuel: nat)
    ensures
        !occ.contains((slide(occ, col, row, fuel), row)) || forall|s: int|
            0 <= s < fuel ==> occ.contains((#[trigger] (col + s), row)),
    decreases fuel,
{
    if fuel > 0 && occ.contains((col, row)) {
        lemma_slide_shape(occ, col + 1, row, (fuel - 1) as nat);
        if occ.contains((slide(occ, col, row, fuel), row)) {
            assert forall|s: int| 0 <= s < fuel implies occ.contains((#[trigger] (col + s), row)) by {
                if s > 0 {
                    assert(occ.contains(((col + 1) + (s - 1), row)));
                }
            }
        }
    }
}

/// With more looks than taken cells, `slide` stops on a free cell.
proof fn lemma_slide_free(occ: Seq<(int, int)>, col: int, row: int, fuel: nat)
    requires
        fuel > occ.len(),
    ensures
        !occ.contains((slide(occ, col, row, fuel), row)),
{
    lemma_slide_shape(occ, col, row, fuel);
    if occ.contains((slide(occ, col, row, fuel), row)) {
        let f = |x: int| (x, row);
        let xs = vstd::set_lib::set_int_range(col, col + fuel);
        let ys = xs.map(f);
        vstd::set_lib::lemma_int_range(col, col + fuel);
        assert(vstd::relations::injective_on(f, xs));
        vstd::set_lib::lemma_map_size(xs, ys, f);
        assert forall|c: (int, int)| ys.contains(c) implies occ.to_set().contains(c) by {
            let x = choose|x: int| xs.contains(x) && f(x) == c;
            assert(occ.contains((col + (x - col), row)));
        }
        vstd::seq_lib::seq_to_set_is_finite(occ);
        vstd::set_lib::lemma_len_subset(ys, occ.to_set());
        occ.lemma_cardinality_of_set();
    }
}

/// How far downstream node `j` is, in a level of `ns.len()` nodes.
pub open spec fn depth_in(ns: Seq<NodeView>, ps: Seq<Option<int>>, j: int) -> nat {
    depth_of(ps, j, ns.len() as nat)
}

/// Is unpinned node `j` placed once every node of depth below `d`, and the
/// first `i` nodes of depth `d`, are?
spec fn done_by(ns: Seq<NodeView>, ps: Seq<Option<int>>, d: int, i: int, j: int) -> bool {
    !ns[j].pinned && (depth_in(ns, ps, j) < d || (depth_in(ns, ps, j) == d && j < i))
}

/// How many of the first `m` nodes are placed by then.
spec fn done_count(ns: Seq<NodeView>, ps: Seq<Option<int>>, d: int, i: int, m: int) -> nat
    decreases m,
{
    if m <= 0 {
        0
    } else {
        done_count(ns, ps, d, i, m - 1) + if done_by(ns, ps, d, i, m - 1) {
            1nat
        } else {
            0nat
        }
    }
}

proof fn lemma_depth_bound(ps: Seq<Option<int>>, i: int, fuel: nat)
    ensures
        depth_of(ps, i, fuel) <= fuel,
    decreases fuel,
{
    if fuel > 0 {
        if let Some(p) = ps[i] {
            lemma_depth_bound(ps, p, (fuel - 1) as nat);
        }
    }
}

proof fn lemma_count_same(
    ns: Seq<NodeView>,
    ps: Seq<Option<int>>,
    d1: int,
    i1: int,
    d2: int,
    i2: int,
    m: int,
)
    requires
        forall|j: int| 0 <= j < m ==> done_by(ns, ps, d1, i1, j) == done_by(ns, ps, d2, i2, j),
    ensures
        done_count(ns, ps, d1, i1, m) == done_count(ns, ps, d2, i2, m),
    decreases m,
{
    if m > 0 {
        lemma_count_same(ns, ps, d1, i1, d2, i2, m - 1);
    }
}

proof fn lemma_count_step(ns: Seq<NodeView>, ps: Seq<Option<int>>, d: int, i: int, m: int)
    requires
        0 < i,
        i <= m,
    ensures
        done_count(ns, ps, d, i, m) == done_count(ns, ps, d, i - 1, m) + if !ns[i - 1].pinned
            && depth_in(ns, ps, i - 1) == d {
            1nat
        } else {
            0nat
        },
    decreases m,
{
    if m > i {
        lemma_count_step(ns, ps, d, i, m - 1);
    } else {
        lemma_count_same(ns, ps, d, i, d, i - 1, m - 1);
    }
}

proof fn lemma_count_bound(ns: Seq<NodeView>, ps: Seq<Option<int>>, d: int, i: int, m: int)
    requires
        0 <= m <= ns.len(),
    ensures
        pinned_cells(ns, m).len() + done_count(ns, ps, d, i, m) <= m,
    decreases m,
{
    if m > 0 {
        lemma_count_bound(ns, ps, d, i, m - 1);
    }
}

proof fn lemma_pinned_cells_hold(ns: Seq<NodeView>, m: int, j: int)
    requires
        0 <= j < m <= ns.len(),
        ns[j].pinned,
    ensures
        pinned_cells(ns, m).contains(ns[j].position),
    decreases m,
{
    if j < m - 1 {
        lemma_pinned_cells_hold(ns, m - 1, j);
        if ns[m - 1].pinned {
            assert(pinned_cells(ns, m) == pinned_cells(ns, m - 1).push(ns[m - 1].position));
            vstd::seq_lib::lemma_seq_contains_after_push(
                pinned_cells(ns, m - 1),
                ns[m - 1].position,
                ns[j].position,
            );
        }
    } else {
        assert(pinned_cells(ns, m)[pinned_cells(ns, m).len() - 1] == ns[j].position);
    }
}

/// What holds of the grid at each stage of placement.
spec fn stage_ok(ns: Seq<NodeView>, ps: Seq<Option<int>>, d: int, i: int, g: Grid) -> bool {
    let n = ns.len() as int;
    let pins = pinned_cells(ns, n);
    &&& g.cells.len() == n
    &&& g.occ.len() == pins.len() + done_count(ns, ps, d, i, n)
    &&& forall|q: int| 0 <= q < pins.len() ==> g.occ[q] == pins[q]
    &&& forall|j: int|
        0 <= j < n && #[trigger] done_by(ns, ps, d, i, j) ==> {
            &&& g.cells[j].1 == depth_in(ns, ps, j)
            &&& g.occ.contains(g.cells[j])
        }
    &&& forall|j: int| 0 <= j < n && !#[trigger] done_by(ns, ps, d, i, j) ==> g.cells[j] == ns[j].position
    &&& forall|j1: int, j2: int|
        0 <= j1 < n && 0 <= j2 < n && j1 != j2 && #[trigger] done_by(ns, ps, d, i, j1)
            && #[trigger] done_by(ns, ps, d, i, j2) ==> g.cells[j1] != g.cells[j2]
    &&& forall|j: int| 0 <= j < n && #[trigger] done_by(ns, ps, d, i, j) ==> !pins.contains(g.cells[j])
}

proof fn lemma_count_none(ns: Seq<NodeView>, ps: Seq<Option<int>>, d: int, i: int, m: int)
    requires
        forall|j: int| 0 <= j < m ==> !done_by(ns, ps, d, i, j),
    ensures
        done_count(ns, ps, d, i, m) == 0,
    decreases m,
{
    if m > 0 {
        lemma_count_none(ns, ps, d, i, m - 1);
    }
}

/// Placement keeps [`stage_ok`] from its start to every stage.
proof fn lemma_stage(ns: Seq<NodeView>, ps: Seq<Option<int>>, d: int, i: int)
    requires
        0 <= d,
        0 <= i <= ns.len(),
    ensures
        stage_ok(ns, ps, d, i, placed(ns, ps, d, i)),
    decreases d, i,
{
    let n = ns.len() as int;
    let pins = pinned_cells(ns, n);
    if d <= 0 && i <= 0 {
        assert forall|j: int| 0 <= j < n implies !done_by(ns, ps, d, i, j) by {}
        lemma_count_none(ns, ps, d, i, n);
    } else if i <= 0 {
        lemma_stage(ns, ps, d - 1, n);
        assert forall|j: int| 0 <= j < n implies done_by(ns, ps, d, i, j) == done_by(
            ns,
            ps,
            d - 1,
            n,
            j,
        ) by {}
        lemma_count_same(ns, ps, d, i, d - 1, n, n);
    } else {
        lemma_stage(ns, ps, d, i - 1);
        let g = placed(ns, ps, d, i - 1);
        let k = i - 1;
        lemma_count_step(ns, ps, d, i, n);
        assert(placed(ns, ps, d, i) == place(g, ns, ps, d, k));
        if !ns[k].pinned && depth_in(ns, ps, k) == d {
            lemma_count_bound(ns, ps, d, i - 1, n);
            let wish = match ps[k] {
                Some(p) => g.cells[p].0,
                None => g.cells[k].0,
            };
            let col = slide(g.occ, wish, d, (n + 1) as nat);
            let c = (col, d);
            lemma_slide_free(g.occ, wish, d, (n + 1) as nat);
            let g2 = Grid { cells: g.cells.update(k, c), occ: g.occ.push(c) };
            assert(placed(ns, ps, d, i) == g2);
            if pins.contains(c) {
                let q = choose|q: int| 0 <= q < pins.len() && pins[q] == c;
                assert(g.occ[q] == c);
                assert(false);
            }
            assert forall|j: int| 0 <= j < n implies #[trigger] done_by(ns, ps, d, i, j) == (
            done_by(ns, ps, d, i - 1, j) || j == k) by {}
            assert forall|j: int| 0 <= j < n && #[trigger] done_by(ns, ps, d, i, j) implies {
                &&& g2.cells[j].1 == depth_in(ns, ps, j)
                &&& g2.occ.contains(g2.cells[j])
            } by {
                if j != k {
                    assert(done_by(ns, ps, d, i - 1, j));
                    assert(g.occ.contains(g.cells[j]));
                }
                vstd::seq_lib::lemma_seq_contains_after_push(g.occ, c, g2.cells[j]);
            }
            assert forall|j1: int, j2: int|
                0 <= j1 < n && 0 <= j2 < n && j1 != j2 && #[trigger] done_by(ns, ps, d, i, j1)
                    && #[trigger] done_by(ns, ps, d, i, j2) implies g2.cells[j1] != g2.cells[j2] by {
                if j1 == k {
                    assert(done_by(ns, ps, d, i - 1, j2));
                    assert(g.occ.contains(g.cells[j2]));
                } else if j2 == k {
                    assert(done_by(ns, ps, d, i - 1, j1));
                    assert(g.occ.contains(g.cells[j1]));
                } else {
                    assert(done_by(ns, ps, d, i - 1, j1));
                    assert(done_by(ns, ps, d, i - 1, j2));
                }
            }
            assert forall|j: int| 0 <= j < n && #[trigger] done_by(ns, ps, d, i, j) implies !pins.contains(
                g2.cells[j],
            ) by {
                if j != k {
                    assert(done_by(ns, ps, d, i - 1, j));
                }
            }
            assert forall|j: int| 0 <= j < n && !#[trigger] done_by(ns, ps, d, i, j) implies g2.cells[j]
                == ns[j].position by {
                assert(!done_by(ns, ps, d, i - 1, j));
            }
        } else {
            assert forall|j: int| 0 <= j < n implies #[trigger] done_by(ns, ps, d, i, j) == done_by(
                ns,
                ps,
                d,
                i - 1,
                j,
            ) by {}
        }
    }
}

proof fn lemma_moves(ns: Seq<NodeView>, cells: Seq<(int, int)>, m: int)
    requires
        m <= ns.len(),
    ensures
        forall|k: int|
            0 <= k < moves_upto(ns, cells, m).len() ==> {
                let (i, c) = #[trigger] moves_upto(ns, cells, m)[k];
                &&& 0 <= i < m
                &&& !ns[i].pinned
                &&& c == cells[i]
                &&& c != ns[i].position
            },
    decreases m,
{
    if m > 0 {
        lemma_moves(ns, cells, m - 1);
    }
}

/// The final grid is the last stage of placement.
proof fn lemma_final(ns: Seq<NodeView>)
    ensures
        stage_ok(ns, parents_of(ns), ns.len() as int, ns.len() as int, placed(
            ns,
            parents_of(ns),
            ns.len() as int,
            ns.len() as int,
        )),
        forall|j: int|
            0 <= j < ns.len() ==> (#[trigger] done_by(
                ns,
                parents_of(ns),
                ns.len() as int,
                ns.len() as int,
                j,
            ) <==> !ns[j].pinned),
{
    let n = ns.len() as int;
    let ps = parents_of(ns);
    lemma_stage(ns, ps, n, n);
    assert forall|j: int| 0 <= j < n implies (#[trigger] done_by(ns, ps, n, n, j) <==> !ns[j].pinned) by {
        lemma_depth_bound(ps, j, n as nat);
    }
}

/// Pinned nodes never move: every move is of an unpinned node of the
/// level, to a cell other than its own.
pub proof fn arrange_leaves_pinned_nodes_alone(ns: Seq<NodeView>)
    ensures
        forall|k: int|
            0 <= k < arranged(ns).len() ==> {
                let (i, c) = #[trigger] arranged(ns)[k];
                &&& 0 <= i < ns.len()
                &&& !ns[i].pinned
                &&& c != ns[i].position
                &&& c == final_cells(ns)[i]
            },
{
    lemma_moves(ns, final_cells(ns), ns.len() as int);
}

/// Rows are how far downstream a node is: every node that moves lands in
/// the row of its depth.
pub proof fn arrange_rows_are_depths(ns: Seq<NodeView>)
    ensures
        forall|k: int|
            0 <= k < arranged(ns).len() ==> (#[trigger] arranged(ns)[k]).1.1 == depth_in(
                ns,
                parents_of(ns),
                arranged(ns)[k].0,
            ),
{
    let n = ns.len() as int;
    lemma_moves(ns, final_cells(ns), n);
    lemma_final(ns);
    assert forall|k: int| 0 <= k < arranged(ns).len() implies (#[trigger] arranged(ns)[k]).1.1
        == depth_in(ns, parents_of(ns), arranged(ns)[k].0) by {
        let i = arranged(ns)[k].0;
        assert(done_by(ns, parents_of(ns), n, n, i));
    }
}

/// Nothing overwrites: once laid out (each node on its final cell, which
/// is where it was for a node that does not move) no unpinned node shares a
/// cell with any other node, pinned or not, and pinned nodes stay where they
/// are.
pub proof fn arrange_never_overwrites(ns: Seq<NodeView>)
    ensures
        final_cells(ns).len() == ns.len(),
        forall|j: int| 0 <= j < ns.len() && ns[j].pinned ==> #[trigger] final_cells(ns)[j] == ns[j].position,
        forall|j1: int, j2: int|
            0 <= j1 < ns.len() && 0 <= j2 < ns.len() && j1 != j2 && !ns[j1].pinned ==> #[trigger] final_cells(
                ns,
            )[j1] != #[trigger] final_cells(ns)[j2],
{
    let n = ns.len() as int;
    let ps = parents_of(ns);
    lemma_final(ns);
    let g = placed(ns, ps, n, n);
    assert forall|j: int| 0 <= j < n && ns[j].pinned implies #[trigger] final_cells(ns)[j]
        == ns[j].position by {
        assert(!done_by(ns, ps, n, n, j));
    }
    assert forall|j1: int, j2: int|
        0 <= j1 < n && 0 <= j2 < n && j1 != j2 && !ns[j1].pinned implies #[trigger] final_cells(
            ns,
        )[j1] != #[trigger] final_cells(ns)[j2] by {
        assert(done_by(ns, ps, n, n, j1));
        if ns[j2].pinned {
            assert(!done_by(ns, ps, n, n, j2));
            lemma_pinned_cells_hold(ns, n, j2);
        } else {
            assert(done_by(ns, ps, n, n, j2));
        }
    }
}

} // verus!
