//! The 2D page context: which nodes belong to it, and how its text and
//! toggle parameters read.

use vstd::prelude::*;
use crate::text::{ascii_lowercase, lower_eq, str_eq, trimmed, trimmed_eq, trimmed_lower_eq};

verus! {

/// Where a run of text sits horizontally in the box it is given.
#[derive(Clone, Copy, Debug, PartialEq, Eq, Structural)]
pub enum HAlign {
    Left,
    Center,
    Right,
}

/// Where a run of text sits vertically in the box it is given.
#[derive(Clone, Copy, Debug, PartialEq, Eq, Structural)]
pub enum VAlign {
    Top,
    Middle,
    Bottom,
}

/// The node types of the page context, in lower case.
pub open spec fn is_page_type(s: Seq<char>) -> bool {
    ||| s == "page"@
    ||| s == "page_grid"@
    ||| s == "page_border"@
    ||| s == "page_text"@
}

/// Whether a node belongs to the page context rather than the geometry
/// graph (ASCII case ignored).
pub fn is_page_node(node_type: &str) -> (b: bool)
    ensures
        b == is_page_type(ascii_lowercase(node_type@)),
{
    lower_eq(node_type, "page") || lower_eq(node_type, "page_grid") || lower_eq(
        node_type,
        "page_border",
    ) || lower_eq(node_type, "page_text")
}

/// The lower-case spellings a toggle parameter reads as on.
pub open spec fn is_on_spelling(s: Seq<char>) -> bool {
    ||| s == "true"@
    ||| s == "1"@
    ||| s == "on"@
}

/// Whether a toggle parameter's value reads as on: "true", "1" or "on",
/// ignoring surrounding white space and ASCII case.
pub fn toggle_of(value: &str) -> (b: bool)
    ensures
        b == is_on_spelling(ascii_lowercase(trimmed(value@))),
{
    trimmed_lower_eq(value, "true") || trimmed_lower_eq(value, "1") || trimmed_lower_eq(value, "on")
}

/// The horizontal alignment a text node's parameter names; centred unless
/// it says exactly "Left" or "Right".
pub open spec fn halign_named(s: Seq<char>) -> HAlign {
    if s == "Left"@ {
        HAlign::Left
    } else if s == "Right"@ {
        HAlign::Right
    } else {
        HAlign::Center
    }
}

/// The vertical alignment a text node's parameter names; top unless it
/// says exactly "Middle" or "Bottom".
pub open spec fn valign_named(s: Seq<char>) -> VAlign {
    if s == "Middle"@ {
        VAlign::Middle
    } else if s == "Bottom"@ {
        VAlign::Bottom
    } else {
        VAlign::Top
    }
}

impl HAlign {
    /// The alignment a text node's "Horizontal" parameter names.
    pub fn from_param(s: &str) -> (a: HAlign)
        ensures
            a == halign_named(s@),
    {
        if str_eq(s, "Left") {
            HAlign::Left
        } else if str_eq(s, "Right") {
            HAlign::Right
        } else {
            HAlign::Center
        }
    }
}

impl VAlign {
    /// The alignment a text node's "Vertical" parameter names.
    pub fn from_param(s: &str) -> (a: VAlign)
        ensures
            a == valign_named(s@),
    {
        if str_eq(s, "Middle") {
            VAlign::Middle
        } else if str_eq(s, "Bottom") {
            VAlign::Bottom
        } else {
            VAlign::Top
        }
    }
}

/// Whether a page's "Orientation" parameter asks for landscape: the same
/// sheet turned, its axes swapped (ASCII case ignored).
pub fn is_landscape(orientation: &str) -> (b: bool)
    ensures
        b == (ascii_lowercase(orientation@) == "landscape"@),
{
    lower_eq(orientation, "landscape")
}

/// What a node does in the page context.
#[derive(Clone, Copy, Debug, PartialEq, Eq, Structural)]
pub enum PageKind {
    /// A blank sheet: the bottom of every page chain.
    Sheet,
    /// Passes its input through (it belongs to neither context).
    Export,
    /// Rules a grid over its input.
    Grid,
    /// Draws a border round its input.
    Border,
    /// Sets text on its input.
    Text,
}

/// The kind a lower-case node type names, if it is one of the page
/// context's (or Export, which passes through).
pub open spec fn kind_named(s: Seq<char>) -> Option<PageKind> {
    if s == "page"@ {
        Some(PageKind::Sheet)
    } else if s == "export"@ {
        Some(PageKind::Export)
    } else if s == "page_grid"@ {
        Some(PageKind::Grid)
    } else if s == "page_border"@ {
        Some(PageKind::Border)
    } else if s == "page_text"@ {
        Some(PageKind::Text)
    } else {
        None
    }
}

/// The page kind of a node type, ASCII case ignored.
pub fn page_kind(node_type: &str) -> (k: Option<PageKind>)
    ensures
        k == kind_named(ascii_lowercase(node_type@)),
{
    if lower_eq(node_type, "page") {
        Some(PageKind::Sheet)
    } else if lower_eq(node_type, "export") {
        Some(PageKind::Export)
    } else if lower_eq(node_type, "page_grid") {
        Some(PageKind::Grid)
    } else if lower_eq(node_type, "page_border") {
        Some(PageKind::Border)
    } else if lower_eq(node_type, "page_text") {
        Some(PageKind::Text)
    } else {
        None
    }
}

/// A node as page resolution reads it.
pub struct PageNode {
    /// Its id, which guards a chain against cycles.
    pub id: String,
    /// Its name, which inputs refer to.
    pub name: String,
    /// Its node type.
    pub node_type: String,
    /// Its "Input" parameter: the name of the node it composites onto.
    pub input: String,
    /// Whether it is shown at its level.
    pub visible: bool,
}

/// A page node, by value.
pub struct PageNodeView {
    pub id: Seq<char>,
    pub name: Seq<char>,
    pub node_type: Seq<char>,
    pub input: Seq<char>,
    pub visible: bool,
}

impl View for PageNode {
    type V = PageNodeView;

    open spec fn view(&self) -> PageNodeView {
        PageNodeView {
            id: self.id@,
            name: self.name@,
            node_type: self.node_type@,
            input: self.input@,
            visible: self.visible,
        }
    }
}

/// The nodes, by value.
pub open spec fn page_views(nodes: Seq<PageNode>) -> Seq<PageNodeView> {
    nodes.map_values(|n: PageNode| n@)
}

/// The page kind of node `t`.
pub open spec fn kind_at(ns: Seq<PageNodeView>, t: int) -> Option<PageKind> {
    kind_named(ascii_lowercase(ns[t].node_type))
}

/// The first node from `j` on named `target`.
pub open spec fn named_from(ns: Seq<PageNodeView>, target: Seq<char>, j: int) -> Option<int>
    decreases ns.len() - j,
{
    if j < 0 || j >= ns.len() {
        None
    } else if ns[j].name == target {
        Some(j)
    } else {
        named_from(ns, target, j + 1)
    }
}

/// The chain that composes node `t`'s page, having passed the ids in
/// `visited`: the sheet at the bottom first, `t` last. A node seen before,
/// an input naming no node, a node outside the page context, or a chain
/// with no sheet at its bottom gives nothing. `fuel` bounds the walk; as
/// many steps as there are nodes is always enough, since each step passes
/// an id not seen before.
pub open spec fn chain_from(ns: Seq<PageNodeView>, t: int, visited: Seq<Seq<char>>, fuel: nat) -> Option<
    Seq<int>,
>
    decreases fuel,
{
    if fuel == 0 || visited.contains(ns[t].id) {
        None
    } else if kind_at(ns, t) == Some(PageKind::Sheet) {
        Some(seq![t])
    } else {
        match named_from(ns, trimmed(ns[t].input), 0) {
            None => None,
            Some(p) => match chain_from(ns, p, visited.push(ns[t].id), (fuel - 1) as nat) {
                None => None,
                Some(c) => if kind_at(ns, t) is Some {
                    Some(c.push(t))
                } else {
                    None
                },
            },
        }
    }
}

/// The chain that composes node `t`'s page, from a fresh walk.
pub open spec fn page_chain_of(ns: Seq<PageNodeView>, t: int) -> Option<Seq<int>> {
    chain_from(ns, t, seq![], ns.len())
}

/// The chain, by value.
pub open spec fn chain_view(r: Option<Vec<usize>>) -> Option<Seq<int>> {
    match r {
        Some(v) => Some(v@.map_values(|i: usize| i as int)),
        None => None,
    }
}

/// The ids, by value.
pub open spec fn ids_view(v: Seq<String>) -> Seq<Seq<char>> {
    v.map_values(|s: String| s@)
}

/// A chain found from some node on, with the nodes passed on the way there
/// (in walking order) put back on top of it.
pub open spec fn rejoin(o: Option<Seq<int>>, path: Seq<int>) -> Option<Seq<int>> {
    match o {
        Some(c) => Some(c + path.reverse()),
        None => None,
    }
}

/// The first node named `target`, the input's name trimmed.
fn input_node(nodes: &Vec<PageNode>, input: &String) -> (r: Option<usize>)
    ensures
        match r {
            Some(p) => named_from(page_views(nodes@), trimmed(input@), 0) == Some(p as int),
            None => named_from(page_views(nodes@), trimmed(input@), 0) is None,
        },
{
    let ghost ns = page_views(nodes@);
    let mut j: usize = 0;
    while j < nodes.len()
        invariant
            ns == page_views(nodes@),
            j <= nodes@.len(),
            named_from(ns, trimmed(input@), 0) == named_from(ns, trimmed(input@), j as int),
        decreases nodes@.len() - j,
    {
        if trimmed_eq(input.as_str(), nodes[j].name.as_str()) {
            proof {
                assert(ns[j as int].name == nodes@[j as int].name@);
            }
            return Some(j);
        }
        proof {
            assert(ns[j as int].name == nodes@[j as int].name@);
        }
        j = j + 1;
    }
    None
}

proof fn lemma_named_from(ns: Seq<PageNodeView>, target: Seq<char>, j: int)
    requires
        0 <= j,
    ensures
        named_from(ns, target, j) matches Some(p) ==> j <= p < ns.len(),
    decreases ns.len() - j,
{
    if j < ns.len() && ns[j].name != target {
        lemma_named_from(ns, target, j + 1);
    }
}

/// Is `id` among `ids`?
fn seen(ids: &Vec<String>, id: &String) -> (b: bool)
    ensures
        b == ids_view(ids@).contains(id@),
{
    let ghost iv = ids_view(ids@);
    let mut k: usize = 0;
    while k < ids.len()
        invariant
            iv == ids_view(ids@),
            k <= ids@.len(),
            forall|m: int| 0 <= m < k ==> iv[m] != id@,
        decreases ids@.len() - k,
    {
        if str_eq(ids[k].as_str(), id.as_str()) {
            assert(iv[k as int] == id@);
            return true;
        }
        k = k + 1;
    }
    false
}

/// The chain of nodes that composes the page node `target` describes: the
/// sheet at its bottom first, `target` last, each node compositing onto
/// the one before it. The walk follows "Input" names (trimmed, first node of
/// that name) and guards cycles by node id; it gives nothing for a node
/// seen twice, an input that names no node, a node outside the page
/// context, or a chain with no sheet at its bottom.
pub fn page_chain(nodes: &Vec<PageNode>, target: usize) -> (r: Option<Vec<usize>>)
    requires
        target < nodes@.len(),
    ensures
        chain_view(r) == page_chain_of(page_views(nodes@), target as int),
        r matches Some(v) ==> forall|k: int| 0 <= k < v@.len() ==> #[trigger] v@[k] < nodes@.len(),
{
    let ghost ns = page_views(nodes@);
    let n = nodes.len();
    let mut visited: Vec<String> = Vec::new();
    let mut path: Vec<usize> = Vec::new();
    let mut cur: usize = target;
    let mut steps: usize = 0;
    proof {
        assert(path@.map_values(|i: usize| i as int).reverse() =~= Seq::<int>::empty());
        assert(ids_view(visited@) =~= Seq::<Seq<char>>::empty());
    }
    while steps < n
        invariant
            ns == page_views(nodes@),
            n == nodes@.len(),
            steps <= n,
            cur < n,
            forall|k: int| 0 <= k < path@.len() ==> #[trigger] path@[k] < n,
            page_chain_of(ns, target as int) == rejoin(
                chain_from(ns, cur as int, ids_view(visited@), (n - steps) as nat),
                path@.map_values(|i: usize| i as int),
            ),
        decreases n - steps,
    {
        proof {
            assert(ns[cur as int].id == nodes@[cur as int].id@);
            assert(ns[cur as int].node_type == nodes@[cur as int].node_type@);
            assert(ns[cur as int].input == nodes@[cur as int].input@);
        }
        if seen(&visited, &nodes[cur].id) {
            return None;
        }
        let kind = page_kind(nodes[cur].node_type.as_str());
        match kind {
            Some(PageKind::Sheet) => {
                let mut out: Vec<usize> = Vec::new();
                out.push(cur);
                let mut k: usize = path.len();
                let ghost pv = path@.map_values(|i: usize| i as int);
                while k > 0
                    invariant
                        k <= path@.len(),
                        pv == path@.map_values(|i: usize| i as int),
                        cur < n,
                        forall|q: int| 0 <= q < path@.len() ==> #[trigger] path@[q] < n,
                        out@.map_values(|i: usize| i as int) == seq![cur as int] + pv.reverse().take(
                            (path@.len() - k) as int,
                        ),
                        forall|q: int| 0 <= q < out@.len() ==> #[trigger] out@[q] < n,
                    decreases k,
                {
                    let ghost before = out@.map_values(|i: usize| i as int);
                    out.push(path[k - 1]);
                    k = k - 1;
                    proof {
                        let len = path@.len() as int;
                        assert(pv.reverse()[len - k - 1] == pv[k as int]);
                        assert(pv.reverse().take(len - k) =~= pv.reverse().take(len - k - 1).push(
                            pv[k as int],
                        ));
                        assert(out@.map_values(|i: usize| i as int) =~= before.push(pv[k as int]));
                        assert(out@.map_values(|i: usize| i as int) =~= seq![cur as int]
                            + pv.reverse().take(len - k));
                    }
                }
                proof {
                    assert(pv.reverse().take(path@.len() as int) =~= pv.reverse());
                }
                return Some(out);
            },
            None => {
                return None;
            },
            Some(_) => {},
        }
        let next = input_node(nodes, &nodes[cur].input);
        match next {
            None => {
                return None;
            },
            Some(p) => {
                proof {
                    lemma_named_from(ns, trimmed(ns[cur as int].input), 0);
                    let pv = path@.map_values(|i: usize| i as int);
                    assert(pv.push(cur as int).reverse() =~= seq![cur as int] + pv.reverse());
                }
                let ghost vis0 = ids_view(visited@);
                let ghost c0 = cur as int;
                visited.push(nodes[cur].id.clone());
                path.push(cur);
                cur = p;
                steps = steps + 1;
                proof {
                    assert(ids_view(visited@) =~= vis0.push(ns[c0].id));
                }
            },
        }
    }
    None
}

/// Is the node a visible node of the page context?
pub open spec fn shows_page(v: PageNodeView) -> bool {
    v.visible && is_page_type(ascii_lowercase(v.node_type))
}

/// Among the first `m` children (indices into `ns`), the last that shows a
/// page.
pub open spec fn last_shown(ns: Seq<PageNodeView>, level: Seq<usize>, m: int) -> Option<int>
    decreases m,
{
    if m <= 0 {
        None
    } else if shows_page(ns[level[m - 1] as int]) {
        Some(level[m - 1] as int)
    } else {
        last_shown(ns, level, m - 1)
    }
}

/// The chain of the page a network level displays, if it displays one:
/// the last visible page node among the level's children (`level`, indices
/// into `nodes`), the one most recently added, resolved as [`page_chain`]
/// does.
pub fn displayed_page(nodes: &Vec<PageNode>, level: &Vec<usize>) -> (r: Option<Vec<usize>>)
    requires
        forall|k: int| 0 <= k < level@.len() ==> #[trigger] level@[k] < nodes@.len(),
    ensures
        chain_view(r) == match last_shown(page_views(nodes@), level@, level@.len() as int) {
            Some(t) => page_chain_of(page_views(nodes@), t),
            None => None,
        },
{
    let ghost ns = page_views(nodes@);
    let mut k: usize = level.len();
    while k > 0
        invariant
            ns == page_views(nodes@),
            k <= level@.len(),
            forall|q: int| 0 <= q < level@.len() ==> #[trigger] level@[q] < nodes@.len(),
            last_shown(ns, level@, level@.len() as int) == last_shown(ns, level@, k as int),
        decreases k,
    {
        let t = level[k - 1];
        proof {
            assert(ns[t as int] == nodes@[t as int]@);
        }
        if nodes[t].visible && is_page_node(nodes[t].node_type.as_str()) {
            return page_chain(nodes, t);
        }
        k = k - 1;
    }
    None
}

/// A named sheet size.
#[derive(Clone, Copy, Debug, PartialEq, Eq, Structural)]
pub enum PagePreset {
    Letter,
    A4,
    Legal,
    Tabloid,
}

/// The sheet a lower-case preset name names.
pub open spec fn preset_named(s: Seq<char>) -> Option<PagePreset> {
    if s == "letter"@ {
        Some(PagePreset::Letter)
    } else if s == "a4"@ {
        Some(PagePreset::A4)
    } else if s == "legal"@ {
        Some(PagePreset::Legal)
    } else if s == "tabloid"@ {
        Some(PagePreset::Tabloid)
    } else {
        None
    }
}

impl PagePreset {
    /// The named sheet a page's "Preset" parameter asks for, ignoring
    /// surrounding white space and ASCII case; anything else names none,
    /// and the page's own width and height apply.
    pub fn parse(name: &str) -> (p: Option<PagePreset>)
        ensures
            p == preset_named(ascii_lowercase(trimmed(name@))),
    {
        if trimmed_lower_eq(name, "letter") {
            Some(PagePreset::Letter)
        } else if trimmed_lower_eq(name, "a4") {
            Some(PagePreset::A4)
        } else if trimmed_lower_eq(name, "legal") {
            Some(PagePreset::Legal)
        } else if trimmed_lower_eq(name, "tabloid") {
            Some(PagePreset::Tabloid)
        } else {
            None
        }
    }
}

/// What a page chain is: a sheet at the bottom, `t` on top, each node above
/// the sheet a page-context node compositing onto the first node named by
/// its trimmed input, and no id twice nor among `visited`.
pub open spec fn is_chain_to(ns: Seq<PageNodeView>, c: Seq<int>, t: int, visited: Seq<Seq<char>>) -> bool {
    &&& c.len() >= 1
    &&& c.last() == t
    &&& forall|k: int| 0 <= k < c.len() ==> 0 <= #[trigger] c[k] < ns.len()
    &&& kind_at(ns, c[0]) == Some(PageKind::Sheet)
    &&& forall|k: int|
        0 < k < c.len() ==> {
            &&& kind_at(ns, #[trigger] c[k]) is Some
            &&& kind_at(ns, c[k]) != Some(PageKind::Sheet)
            &&& named_from(ns, trimmed(ns[c[k]].input), 0) == Some(c[k - 1])
        }
    &&& forall|k: int| 0 <= k < c.len() ==> !visited.contains(ns[#[trigger] c[k]].id)
    &&& forall|k1: int, k2: int|
        0 <= k1 < k2 < c.len() ==> ns[#[trigger] c[k1]].id != ns[#[trigger] c[k2]].id
}

proof fn lemma_chain_shape(ns: Seq<PageNodeView>, t: int, visited: Seq<Seq<char>>, fuel: nat)
    requires
        0 <= t < ns.len(),
    ensures
        chain_from(ns, t, visited, fuel) matches Some(c) ==> is_chain_to(ns, c, t, visited),
    decreases fuel,
{
    if fuel > 0 && !visited.contains(ns[t].id) && kind_at(ns, t) != Some(PageKind::Sheet) {
        if let Some(p) = named_from(ns, trimmed(ns[t].input), 0) {
            lemma_named_from(ns, trimmed(ns[t].input), 0);
            let v2 = visited.push(ns[t].id);
            lemma_chain_shape(ns, p, v2, (fuel - 1) as nat);
            if let Some(c) = chain_from(ns, p, v2, (fuel - 1) as nat) {
                if kind_at(ns, t) is Some {
                    let c2 = c.push(t);
                    assert forall|k: int| 0 <= k < c.len() implies !visited.contains(
                        ns[#[trigger] c[k]].id,
                    ) && ns[c[k]].id != ns[t].id by {
                        assert(!v2.contains(ns[c[k]].id));
                        vstd::seq_lib::lemma_seq_contains_after_push(visited, ns[t].id, ns[c[k]].id);
                        if ns[c[k]].id == ns[t].id {
                            assert(v2[visited.len() as int] == ns[t].id);
                        }
                    }
                    assert forall|k1: int, k2: int| 0 <= k1 < k2 < c2.len() implies ns[
                    #[trigger] c2[k1]].id != ns[#[trigger] c2[k2]].id by {
                        if k2 == c.len() {
                            assert(c2[k1] == c[k1]);
                        } else {
                            assert(c2[k1] == c[k1] && c2[k2] == c[k2]);
                        }
                    }
                    assert forall|k: int| 0 <= k < c2.len() implies !visited.contains(
                        ns[#[trigger] c2[k]].id,
                    ) by {
                        if k < c.len() {
                            assert(c2[k] == c[k]);
                        }
                    }
                    assert forall|k: int| 0 < k < c2.len() implies {
                        &&& kind_at(ns, #[trigger] c2[k]) is Some
                        &&& kind_at(ns, c2[k]) != Some(PageKind::Sheet)
                        &&& named_from(ns, trimmed(ns[c2[k]].input), 0) == Some(c2[k - 1])
                    } by {
                        if k < c.len() {
                            assert(c2[k] == c[k] && c2[k - 1] == c[k - 1]);
                        } else {
                            assert(c2[k - 1] == c.last());
                        }
                    }
                    assert forall|k: int| 0 <= k < c2.len() implies 0 <= #[trigger] c2[k] < ns.len() by {
                        if k < c.len() {
                            assert(c2[k] == c[k]);
                        }
                    }
                }
            }
        }
    }
}

/// A resolved page is a true chain: its sheet at the bottom, the node asked
/// for on top, each node between compositing onto the node its input names,
/// and no node id met twice (so no cycle is ever followed).
pub proof fn page_chain_is_a_chain(ns: Seq<PageNodeView>, t: int)
    requires
        0 <= t < ns.len(),
    ensures
        page_chain_of(ns, t) matches Some(c) ==> is_chain_to(ns, c, t, seq![]),
{
    lemma_chain_shape(ns, t, seq![], ns.len());
}

proof fn lemma_chain_complete(ns: Seq<PageNodeView>, c: Seq<int>, visited: Seq<Seq<char>>, fuel: nat)
    requires
        is_chain_to(ns, c, c.last(), visited),
        fuel >= c.len(),
    ensures
        chain_from(ns, c.last(), visited, fuel) == Some(c),
    decreases c.len(),
{
    let t = c.last();
    assert(!visited.contains(ns[c[c.len() - 1]].id));
    if c.len() == 1 {
        assert(c =~= seq![t]);
    } else {
        let c1 = c.drop_last();
        let v2 = visited.push(ns[t].id);
        assert(named_from(ns, trimmed(ns[c[c.len() - 1]].input), 0) == Some(c[c.len() - 2]));
        assert forall|k: int| 0 <= k < c1.len() implies !v2.contains(ns[#[trigger] c1[k]].id) by {
            assert(c1[k] == c[k]);
            assert(!visited.contains(ns[c[k]].id));
            assert(ns[c[k]].id != ns[c[c.len() - 1]].id);
            vstd::seq_lib::lemma_seq_contains_after_push(visited, ns[t].id, ns[c1[k]].id);
        }
        assert forall|k1: int, k2: int| 0 <= k1 < k2 < c1.len() implies ns[#[trigger] c1[k1]].id
            != ns[#[trigger] c1[k2]].id by {
            assert(c1[k1] == c[k1] && c1[k2] == c[k2]);
        }
        assert forall|k: int| 0 < k < c1.len() implies {
            &&& kind_at(ns, #[trigger] c1[k]) is Some
            &&& kind_at(ns, c1[k]) != Some(PageKind::Sheet)
            &&& named_from(ns, trimmed(ns[c1[k]].input), 0) == Some(c1[k - 1])
        } by {
            assert(c1[k] == c[k] && c1[k - 1] == c[k - 1]);
        }
        assert forall|k: int| 0 <= k < c1.len() implies 0 <= #[trigger] c1[k] < ns.len() by {
            assert(c1[k] == c[k]);
        }
        assert(c1.last() == c[c.len() - 2]);
        lemma_chain_complete(ns, c1, v2, (fuel - 1) as nat);
        assert(kind_at(ns, c[c.len() - 1]) is Some);
        assert(c1.push(t) =~= c);
    }
}

/// A chain meets no node twice, so it is no longer than the level.
proof fn lemma_chain_len(ns: Seq<PageNodeView>, c: Seq<int>, t: int, visited: Seq<Seq<char>>)
    requires
        is_chain_to(ns, c, t, visited),
    ensures
        c.len() <= ns.len(),
{
    assert(c.no_duplicates()) by {
        assert forall|i: int, j: int| 0 <= i < c.len() && 0 <= j < c.len() && i != j implies c[i]
            != c[j] by {
            if i < j {
                assert(ns[c[i]].id != ns[c[j]].id);
            } else {
                assert(ns[c[j]].id != ns[c[i]].id);
            }
        }
    }
    c.unique_seq_to_set();
    let r = vstd::set_lib::set_int_range(0, ns.len() as int);
    vstd::set_lib::lemma_int_range(0, ns.len() as int);
    assert(c.to_set().subset_of(r));
    vstd::set_lib::lemma_len_subset(c.to_set(), r);
}

/// Resolution is exact: the chain it gives is the one true chain, when
/// one exists, however long, so bounding the walk never cuts a page off.
pub proof fn every_chain_resolves(ns: Seq<PageNodeView>, c: Seq<int>, t: int)
    requires
        is_chain_to(ns, c, t, seq![]),
    ensures
        page_chain_of(ns, t) == Some(c),
{
    lemma_chain_len(ns, c, t, seq![]);
    lemma_chain_complete(ns, c, seq![], ns.len());
}

/// No node of the chain `c` has the id `id`.
pub open spec fn free_of(ns: Seq<PageNodeView>, c: Seq<int>, id: Seq<char>) -> bool {
    forall|k: int| 0 <= k < c.len() ==> ns[#[trigger] c[k]].id != id
}

/// A compositing node (an Export, a grid, a border, text) adds itself to
/// its input's chain: its page is the page its input resolves to, with it
/// on top, and nothing when the input resolves to nothing or when that
/// chain already meets the node's id (a cycle). So an Export passes the
/// page reaching it through.
pub proof fn a_composite_tops_its_inputs_chain(ns: Seq<PageNodeView>, t: int, p: int)
    requires
        0 <= t < ns.len(),
        kind_at(ns, t) is Some,
        kind_at(ns, t) != Some(PageKind::Sheet),
        named_from(ns, trimmed(ns[t].input), 0) == Some(p),
    ensures
        page_chain_of(ns, t) == match page_chain_of(ns, p) {
            Some(c) => if free_of(ns, c, ns[t].id) {
                Some(c.push(t))
            } else {
                None
            },
            None => None,
        },
{
    lemma_named_from(ns, trimmed(ns[t].input), 0);
    page_chain_is_a_chain(ns, p);
    page_chain_is_a_chain(ns, t);
    let e: Seq<Seq<char>> = seq![];
    if let Some(c2) = page_chain_of(ns, t) {
        let n2 = c2.len();
        assert(n2 >= 2) by {
            if n2 == 1 {
                assert(c2[0] == t);
            }
        }
        let c1 = c2.drop_last();
        assert(named_from(ns, trimmed(ns[c2[n2 - 1]].input), 0) == Some(c2[n2 - 2]));
        assert forall|k: int| 0 <= k < c1.len() implies 0 <= #[trigger] c1[k] < ns.len() by {
            assert(c1[k] == c2[k]);
        }
        assert forall|k: int| 0 < k < c1.len() implies {
            &&& kind_at(ns, #[trigger] c1[k]) is Some
            &&& kind_at(ns, c1[k]) != Some(PageKind::Sheet)
            &&& named_from(ns, trimmed(ns[c1[k]].input), 0) == Some(c1[k - 1])
        } by {
            assert(c1[k] == c2[k] && c1[k - 1] == c2[k - 1]);
        }
        assert forall|k: int| 0 <= k < c1.len() implies !e.contains(ns[#[trigger] c1[k]].id) by {}
        assert forall|k1: int, k2: int| 0 <= k1 < k2 < c1.len() implies ns[#[trigger] c1[k1]].id
            != ns[#[trigger] c1[k2]].id by {
            assert(c1[k1] == c2[k1] && c1[k2] == c2[k2]);
        }
        assert(c1[0] == c2[0]);
        assert(is_chain_to(ns, c1, p, e));
        every_chain_resolves(ns, c1, p);
        assert forall|k: int| 0 <= k < c1.len() implies ns[#[trigger] c1[k]].id != ns[t].id by {
            assert(c1[k] == c2[k]);
            assert(ns[c2[k]].id != ns[c2[n2 - 1]].id);
        }
        assert(c1.push(t) =~= c2);
    } else {
        if let Some(c) = page_chain_of(ns, p) {
            if free_of(ns, c, ns[t].id) {
                let c2 = c.push(t);
                assert forall|k: int| 0 <= k < c2.len() implies 0 <= #[trigger] c2[k] < ns.len() by {
                    if k < c.len() {
                        assert(c2[k] == c[k]);
                    }
                }
                assert forall|k: int| 0 < k < c2.len() implies {
                    &&& kind_at(ns, #[trigger] c2[k]) is Some
                    &&& kind_at(ns, c2[k]) != Some(PageKind::Sheet)
                    &&& named_from(ns, trimmed(ns[c2[k]].input), 0) == Some(c2[k - 1])
                } by {
                    if k < c.len() {
                        assert(c2[k] == c[k] && c2[k - 1] == c[k - 1]);
                    } else {
                        assert(c2[k - 1] == c.last());
                    }
                }
                assert forall|k: int| 0 <= k < c2.len() implies !e.contains(ns[#[trigger] c2[k]].id) by {}
                assert forall|k1: int, k2: int| 0 <= k1 < k2 < c2.len() implies ns[#[trigger] c2[k1]].id
                    != ns[#[trigger] c2[k2]].id by {
                    if k2 < c.len() {
                        assert(c2[k1] == c[k1] && c2[k2] == c[k2]);
                    } else {
                        assert(c2[k1] == c[k1]);
                    }
                }
                assert(c2[0] == c[0]);
                assert(is_chain_to(ns, c2, t, e));
                every_chain_resolves(ns, c2, t);
            }
        }
    }
}

} // verus!
