use vstd::prelude::*;

use id_arena::{Arena, ArenaBehavior, DefaultArenaBehavior};

use crate::scope::{NormalizedForest, RegionTree};

verus! {

/// The largest channel value: channels are thousandths.
pub const CHANNEL_MAX: u16 = 1000;

/// The largest green channel that a derived colour can have.
pub const GREEN_MAX: u16 = 700;

/// Every channel of the synthetic root's grey.
pub const ROOT_SHADE: u16 = 600;

/// The label of the synthetic root.
pub const ROOT_LABEL: &'static str = "root";

/// `a * b / d` rounded to the nearest integer, halves rounded up.
pub open spec fn rounded_ratio(a: int, b: int, d: int) -> int {
    (2 * a * b + d) / (2 * d)
}

/// The width of a region of length `len` on a window of length `n`, laid out
/// over `full_width` units.
pub open spec fn span_width(len: int, full_width: int, n: int) -> int {
    rounded_ratio(full_width, len, n)
}

/// A node's temperature, in thousandths: its width relative to its parent's,
/// clamped to `[0, 1000]`, and zero under a parent of width zero.
pub open spec fn temperature(width: int, parent_width: int) -> int {
    if parent_width <= 0 {
        0
    } else if rounded_ratio(CHANNEL_MAX as int, width, parent_width) > CHANNEL_MAX {
        CHANNEL_MAX as int
    } else {
        rounded_ratio(CHANNEL_MAX as int, width, parent_width)
    }
}

/// The colour of a node is red by its temperature, blue by the rest, and has
/// some green up to `GREEN_MAX`.
pub open spec fn derived_color(c: Color, width: int, parent_width: int) -> bool {
    &&& c.red == temperature(width, parent_width)
    &&& c.blue == CHANNEL_MAX - c.red
    &&& c.green <= GREEN_MAX
}

/// The neutral grey of the synthetic root.
pub open spec fn is_root_color(c: Color) -> bool {
    c.red == ROOT_SHADE && c.green == ROOT_SHADE && c.blue == ROOT_SHADE
}

/// The root's grey is never a derived colour.
pub proof fn lemma_root_color_distinct(c: Color, width: int, parent_width: int)
    requires
        derived_color(c, width, parent_width),
    ensures
        !is_root_color(c),
{
}

/// Redness grows, and blueness shrinks, with a node's width against the same
/// parent.
pub proof fn lemma_temperature_monotone(w1: int, w2: int, parent_width: int)
    requires
        0 <= w1 <= w2,
    ensures
        0 <= temperature(w1, parent_width) <= temperature(w2, parent_width) <= CHANNEL_MAX,
{
    if parent_width > 0 {
        lemma_rounded_ratio_monotone(CHANNEL_MAX as int, w1, w2, parent_width);
        lemma_rounded_ratio_nonneg(CHANNEL_MAX as int, w1, parent_width);
    }
}

pub proof fn lemma_rounded_ratio_nonneg(a: int, b: int, d: int)
    requires
        0 <= a,
        0 <= b,
        0 < d,
    ensures
        0 <= rounded_ratio(a, b, d),
{
    assert(0 <= a * b) by (nonlinear_arith)
        requires
            0 <= a,
            0 <= b,
    ;
    vstd::arithmetic::div_mod::lemma_div_is_ordered(0, 2 * a * b + d, 2 * d);
}

pub proof fn lemma_rounded_ratio_monotone(a: int, b1: int, b2: int, d: int)
    requires
        0 <= a,
        b1 <= b2,
        0 < d,
    ensures
        rounded_ratio(a, b1, d) <= rounded_ratio(a, b2, d),
{
    assert(2 * a * b1 <= 2 * a * b2) by (nonlinear_arith)
        requires
            0 <= a,
            b1 <= b2,
    ;
    vstd::arithmetic::div_mod::lemma_div_is_ordered(2 * a * b1 + d, 2 * a * b2 + d, 2 * d);
}

/// Scaling by `d / d` gives the value back.
pub proof fn lemma_rounded_ratio_whole(a: int, d: int)
    requires
        0 < d,
    ensures
        rounded_ratio(a, d, d) == a,
{
    assert(2 * a * d + d == a * (2 * d) + d) by (nonlinear_arith);
    vstd::arithmetic::div_mod::lemma_fundamental_div_mod_converse(2 * a * d + d, 2 * d, a, d);
}

/// The rounded value is within half a unit of the exact ratio.
pub proof fn lemma_rounded_ratio_close(a: int, b: int, d: int)
    requires
        0 < d,
    ensures
        -d < 2 * (d * rounded_ratio(a, b, d) - a * b) <= d,
{
    let x = 2 * a * b + d;
    let q = x / (2 * d);
    vstd::arithmetic::div_mod::lemma_fundamental_div_mod(x, 2 * d);
    assert(0 <= x % (2 * d) < 2 * d);
    assert(2 * a * b == 2 * (a * b)) by (nonlinear_arith);
    assert(2 * (d * q) == (2 * d) * q) by (nonlinear_arith);
}

/// No region wider than its window is laid out wider than the budget.
pub proof fn lemma_span_width_bounds(len: int, full_width: int, n: int)
    requires
        0 <= len <= n,
        0 < n,
        0 <= full_width,
    ensures
        0 <= span_width(len, full_width, n) <= full_width,
{
    lemma_rounded_ratio_nonneg(full_width, len, n);
    lemma_rounded_ratio_monotone(full_width, len, n, n);
    lemma_rounded_ratio_whole(full_width, n);
}

/// A colour whose channels are thousandths, each in `0..=1000`.
#[derive(Debug, Clone, Copy, PartialEq, Eq, Structural)]
pub struct Color {
    pub red: u16,
    pub green: u16,
    pub blue: u16,
}

/// The display attributes of one node.
#[derive(Debug, Clone)]
pub struct Scope {
    pub width: u16,
    pub desc: String,
    pub color: Color,
}

/// The position of a node in its arena.
#[derive(Debug, Clone, Copy, PartialEq, Eq, Structural, Hash)]
pub struct NodeId(pub usize);

/// One arena entry: its attributes and the ids of its children, in order.
#[derive(Debug, Clone)]
pub struct TreeProfile {
    pub data: Scope,
    pub children: Vec<NodeId>,
}

/// Every child id points to an earlier node, no wider than its parent.
pub open spec fn arena_wf(nodes: Seq<TreeProfile>) -> bool {
    forall|i: int, j: int|
        #![trigger nodes[i].children[j]]
        0 <= i < nodes.len() && 0 <= j < nodes[i].children.len() ==> {
            &&& nodes[i].children[j].0 < i
            &&& nodes[nodes[i].children[j].0 as int].data.width <= nodes[i].data.width
        }
}

/// Node `id` of `nodes`, with the subtree under it, is what region `r` becomes
/// under a parent of width `parent_width`, on a window of length `n` laid out
/// over `full_width` units.
pub open spec fn node_of(
    nodes: Seq<TreeProfile>,
    id: int,
    r: RegionTree<u64>,
    parent_width: int,
    full_width: int,
    n: int,
) -> bool
    decreases r,
{
    &&& 0 <= id < nodes.len()
    &&& nodes[id].data.width == span_width(r.end - r.start, full_width, n)
    &&& nodes[id].data.desc@ == r.desc@
    &&& derived_color(nodes[id].data.color, nodes[id].data.width as int, parent_width)
    &&& nodes[id].children.len() == r.regions.len()
    &&& forall|i: int|
        #![trigger r.regions[i]]
        0 <= i < r.regions.len() ==> node_of(
            nodes,
            nodes[id].children[i].0 as int,
            r.regions[i],
            nodes[id].data.width as int,
            full_width,
            n,
        )
}

/// `nodes` is the arena built from `forest` over `full_width` units: a
/// well-formed arena whose last node, `root`, is the synthetic grey root of
/// width `full_width` above one node per top-level region, in order.
pub open spec fn profile_of(
    nodes: Seq<TreeProfile>,
    root: NodeId,
    forest: NormalizedForest,
    full_width: int,
) -> bool {
    &&& arena_wf(nodes)
    &&& root.0 == nodes.len() - 1
    &&& nodes[root.0 as int].data.width == full_width
    &&& nodes[root.0 as int].data.desc@ == ROOT_LABEL@
    &&& is_root_color(nodes[root.0 as int].data.color)
    &&& nodes[root.0 as int].children.len() == forest.regions.len()
    &&& forall|i: int|
        #![trigger forest.regions[i]]
        0 <= i < forest.regions.len() ==> node_of(
            nodes,
            nodes[root.0 as int].children[i].0 as int,
            forest.regions[i],
            full_width,
            full_width,
            forest.normalization as int,
        )
}

/// Allocating more nodes keeps what a node stands for.
pub proof fn lemma_node_of_extend(
    nodes: Seq<TreeProfile>,
    more: Seq<TreeProfile>,
    id: int,
    r: RegionTree<u64>,
    parent_width: int,
    full_width: int,
    n: int,
)
    requires
        node_of(nodes, id, r, parent_width, full_width, n),
        nodes.len() <= more.len(),
        more.subrange(0, nodes.len() as int) == nodes,
    ensures
        node_of(more, id, r, parent_width, full_width, n),
    decreases r,
{
    assert(more[id] == nodes[id]);
    assert forall|i: int| 0 <= i < r.regions.len() implies node_of(
        more,
        more[id].children[i].0 as int,
        #[trigger] r.regions[i],
        more[id].data.width as int,
        full_width,
        n,
    ) by {
        lemma_node_of_extend(
            nodes,
            more,
            nodes[id].children[i].0 as int,
            r.regions[i],
            nodes[id].data.width as int,
            full_width,
            n,
        );
    }
}

/// The store of all nodes of one profile, addressed by `NodeId`.
///
/// It holds an id_arena::Arena out of Verus's sight: that arena's methods
/// hand out ids through its `ArenaBehavior` trait, which Verus cannot read.
/// The arena's contents are named by `arena_nodes`.
#[verifier::external_body]
pub struct ProfileArena {
    nodes: Arena<TreeProfile>,
    arena_id: u32,
}

/// The nodes that an arena holds, in allocation order.
pub uninterp spec fn arena_nodes(a: ProfileArena) -> Seq<TreeProfile>;

impl ProfileArena {
    /// Relies on id_arena::Arena::new: a fresh arena holds no items. The
    /// arena's own id is read, by Arena::next_id and
    /// DefaultArenaBehavior::arena_id, from the id it would hand out next.
    #[verifier::external_body]
    pub(crate) fn new() -> (r: ProfileArena)
        ensures
            arena_nodes(r) == Seq::<TreeProfile>::empty(),
    {
        let nodes = Arena::<TreeProfile>::new();
        let arena_id = DefaultArenaBehavior::<TreeProfile>::arena_id(nodes.next_id());
        ProfileArena { nodes, arena_id }
    }

    /// Relies on id_arena::Arena::alloc: the item is pushed at the end, and
    /// its id carries the index it was stored at.
    #[verifier::external_body]
    pub(crate) fn push_node(&mut self, node: TreeProfile) -> (r: NodeId)
        ensures
            arena_nodes(*final(self)) == arena_nodes(*old(self)).push(node),
            r.0 == arena_nodes(*old(self)).len(),
    {
        NodeId(self.nodes.alloc(node).index())
    }

    /// Relies on id_arena::Arena::len: the number of items allocated.
    #[verifier::external_body]
    pub(crate) fn count(&self) -> (r: usize)
        ensures
            r == arena_nodes(*self).len(),
    {
        self.nodes.len()
    }

    /// Relies on indexing an id_arena::Arena with an id of that arena: the
    /// item stored at the id's index.
    #[verifier::external_body]
    pub(crate) fn item(&self, id: NodeId) -> (r: &TreeProfile)
        requires
            id.0 < arena_nodes(*self).len(),
        ensures
            *r == arena_nodes(*self)[id.0 as int],
    {
        &self.nodes[DefaultArenaBehavior::<TreeProfile>::new_id(self.arena_id, id.0)]
    }

    /// The number of nodes.
    pub fn len(&self) -> (r: usize)
        ensures
            r == arena_nodes(*self).len(),
    {
        self.count()
    }

    /// The node with this id, if the arena holds one.
    pub fn get(&self, id: NodeId) -> (r: Option<&TreeProfile>)
        ensures
            id.0 < arena_nodes(*self).len() ==> r == Some(&arena_nodes(*self)[id.0 as int]),
            id.0 >= arena_nodes(*self).len() ==> r is None,
    {
        if id.0 < self.count() {
            Some(self.item(id))
        } else {
            None
        }
    }
}

} // verus!
