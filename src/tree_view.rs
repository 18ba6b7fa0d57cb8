use vstd::prelude::*;

use crate::error::ProfileError;
use crate::tree_profile::{
    NodeId, ProfileArena, Scope, TreeProfile, arena_nodes, arena_wf,
    lemma_rounded_ratio_close, lemma_rounded_ratio_nonneg, lemma_rounded_ratio_whole, rounded_ratio,
};

verus! {

broadcast use vstd::std_specs::vec::axiom_vec_index_decreases;

/// The event raised when a node of a zoom view is picked.
#[derive(Debug, Clone, Copy, PartialEq, Eq, Structural)]
pub struct SubProfile(pub NodeId);

/// A detached, rescaled copy of an arena subtree.
#[derive(Debug)]
pub struct TreeView {
    pub profile_tree: NodeId,
    pub data: Scope,
    pub children: Vec<TreeView>,
}

/// A width rescaled so that `base` becomes `full_width`, rounded to whole
/// units.
pub open spec fn zoom_width(width: int, full_width: int, base: int) -> int {
    rounded_ratio(width, full_width, base)
}

/// `v` is the zoom of arena node `id` and its subtree, scaled so that `base`
/// becomes `full_width`: same ids, labels, colours and shape, every width
/// rescaled.
pub open spec fn view_of(v: TreeView, nodes: Seq<TreeProfile>, id: int, full_width: int, base: int) -> bool
    decreases v,
{
    &&& 0 <= id < nodes.len()
    &&& v.profile_tree.0 == id
    &&& v.data.width == zoom_width(nodes[id].data.width as int, full_width, base)
    &&& v.data.desc@ == nodes[id].data.desc@
    &&& v.data.color == nodes[id].data.color
    &&& v.children.len() == nodes[id].children.len()
    &&& forall|i: int|
        #![trigger v.children[i]]
        0 <= i < v.children.len() ==> view_of(
            v.children[i],
            nodes,
            nodes[id].children[i].0 as int,
            full_width,
            base,
        )
}

/// Every node of `v` is exactly as wide as the arena node it copies.
pub open spec fn keeps_widths(v: TreeView, nodes: Seq<TreeProfile>) -> bool
    decreases v,
{
    &&& v.data.width == nodes[v.profile_tree.0 as int].data.width
    &&& forall|i: int|
        #![trigger v.children[i]]
        0 <= i < v.children.len() ==> keeps_widths(v.children[i], nodes)
}

/// Every node of `v` is within half a unit of its arena node's width scaled
/// by `full_width / base`.
pub open spec fn scaled_within_half(v: TreeView, nodes: Seq<TreeProfile>, full_width: int, base: int) -> bool
    decreases v,
{
    &&& -base < 2 * (base * v.data.width - nodes[v.profile_tree.0 as int].data.width * full_width) <= base
    &&& forall|i: int|
        #![trigger v.children[i]]
        0 <= i < v.children.len() ==> scaled_within_half(v.children[i], nodes, full_width, base)
}

/// `a` and `b` agree at every node: ids, widths, labels, colours and shape.
pub open spec fn same_view(a: TreeView, b: TreeView) -> bool
    decreases a,
{
    &&& a.profile_tree == b.profile_tree
    &&& a.data.width == b.data.width
    &&& a.data.desc@ == b.data.desc@
    &&& a.data.color == b.data.color
    &&& a.children.len() == b.children.len()
    &&& forall|i: int|
        #![trigger a.children[i]]
        0 <= i < a.children.len() ==> same_view(a.children[i], b.children[i])
}

/// Zooming into a node to its own width changes no width: the zoom is the
/// identity on sizes.
pub proof fn lemma_zoom_identity(v: TreeView, nodes: Seq<TreeProfile>, id: int, width: int)
    requires
        view_of(v, nodes, id, width, width),
        0 < width,
    ensures
        keeps_widths(v, nodes),
    decreases v,
{
    lemma_rounded_ratio_whole(nodes[id].data.width as int, width);
    assert forall|i: int| 0 <= i < v.children.len() implies keeps_widths(
        #[trigger] v.children[i],
        nodes,
    ) by {
        lemma_zoom_identity(v.children[i], nodes, nodes[id].children[i].0 as int, width);
    }
}

/// A zoom scales every width by `full_width / base`, up to half a unit of
/// rounding per node.
pub proof fn lemma_zoom_scales(v: TreeView, nodes: Seq<TreeProfile>, id: int, full_width: int, base: int)
    requires
        view_of(v, nodes, id, full_width, base),
        0 < base,
    ensures
        scaled_within_half(v, nodes, full_width, base),
    decreases v,
{
    lemma_rounded_ratio_close(nodes[id].data.width as int, full_width, base);
    assert(nodes[id].data.width * full_width == nodes[id].data.width as int * full_width);
    assert forall|i: int| 0 <= i < v.children.len() implies scaled_within_half(
        #[trigger] v.children[i],
        nodes,
        full_width,
        base,
    ) by {
        lemma_zoom_scales(v.children[i], nodes, nodes[id].children[i].0 as int, full_width, base);
    }
}

/// Two zooms of the same node of the same arena, at the same scale, agree at
/// every node.
pub proof fn lemma_zoom_deterministic(
    a: TreeView,
    b: TreeView,
    nodes: Seq<TreeProfile>,
    id: int,
    full_width: int,
    base: int,
)
    requires
        view_of(a, nodes, id, full_width, base),
        view_of(b, nodes, id, full_width, base),
    ensures
        same_view(a, b),
    decreases a,
{
    assert forall|i: int| 0 <= i < a.children.len() implies same_view(
        #[trigger] a.children[i],
        b.children[i],
    ) by {
        lemma_zoom_deterministic(
            a.children[i],
            b.children[i],
            nodes,
            nodes[id].children[i].0 as int,
            full_width,
            base,
        );
    }
}

/// Scaling a width no larger than `base` gives at most `full_width`.
proof fn lemma_zoom_width_bound(width: int, full_width: int, base: int)
    requires
        0 <= width <= base,
        0 <= full_width,
        0 < base,
    ensures
        0 <= zoom_width(width, full_width, base) <= full_width,
{
    lemma_rounded_ratio_nonneg(width, full_width, base);
    assert(2 * width * full_width <= 2 * full_width * base) by (nonlinear_arith)
        requires
            0 <= width <= base,
            0 <= full_width,
    ;
    vstd::arithmetic::div_mod::lemma_div_is_ordered(
        2 * width * full_width + base,
        2 * full_width * base + base,
        2 * base,
    );
    lemma_rounded_ratio_whole(full_width, base);
}

impl TreeView {
    /// Copies the subtree under `tree`, every width scaled so that `base`
    /// becomes `full_width`.
    pub fn renormalized_tree(tree: NodeId, nodes: &ProfileArena, full_width: u16, base: u16) -> (r:
        TreeView)
        requires
            arena_wf(arena_nodes(*nodes)),
            tree.0 < arena_nodes(*nodes).len(),
            0 < base,
            arena_nodes(*nodes)[tree.0 as int].data.width <= base,
        ensures
            view_of(r, arena_nodes(*nodes), tree.0 as int, full_width as int, base as int),
        decreases tree.0,
    {
        let node = nodes.item(tree);
        let w = node.data.width as u64;
        proof {
            lemma_zoom_width_bound(w as int, full_width as int, base as int);
        }
        assert(2 * w * (full_width as u64) <= 2 * 0xffff * 0xffff) by (nonlinear_arith)
            requires
                w <= 0xffff,
                full_width <= 0xffff,
        ;
        let width = ((2 * w * (full_width as u64) + base as u64) / (2 * base as u64)) as u16;
        let mut children: Vec<TreeView> = Vec::new();
        let mut i: usize = 0;
        while i < node.children.len()
            invariant
                arena_wf(arena_nodes(*nodes)),
                tree.0 < arena_nodes(*nodes).len(),
                *node == arena_nodes(*nodes)[tree.0 as int],
                0 < base,
                node.data.width <= base,
                i <= node.children.len(),
                children.len() == i,
                forall|k: int|
                    #![trigger children[k]]
                    0 <= k < i ==> view_of(
                        children[k],
                        arena_nodes(*nodes),
                        node.children[k].0 as int,
                        full_width as int,
                        base as int,
                    ),
            decreases node.children.len() - i,
        {
            let child = node.children[i];
            assert(arena_nodes(*nodes)[tree.0 as int].children[i as int] == child);
            let v = TreeView::renormalized_tree(child, nodes, full_width, base);
            children.push(v);
            i = i + 1;
        }
        TreeView {
            profile_tree: tree,
            data: Scope { width, desc: node.data.desc.clone(), color: node.data.color },
            children,
        }
    }

    /// The zoom view rooted at `tree`, rescaled so that its root is
    /// `full_width` wide.
    ///
    /// Fails with `UnknownNodeId` for an id outside the arena, and with
    /// `ZeroWidthNode` for a node of width zero.
    pub fn from_tree_profile(tree: NodeId, nodes: &ProfileArena, full_width: u16) -> (r: Result<
        TreeView,
        ProfileError,
    >)
        requires
            arena_wf(arena_nodes(*nodes)),
        ensures
            tree.0 >= arena_nodes(*nodes).len() ==> r == Err::<TreeView, ProfileError>(
                ProfileError::UnknownNodeId,
            ),
            tree.0 < arena_nodes(*nodes).len() && arena_nodes(*nodes)[tree.0 as int].data.width == 0
                ==> r == Err::<TreeView, ProfileError>(ProfileError::ZeroWidthNode),
            tree.0 < arena_nodes(*nodes).len() && arena_nodes(*nodes)[tree.0 as int].data.width > 0
                ==> (r matches Ok(v) && view_of(
                v,
                arena_nodes(*nodes),
                tree.0 as int,
                full_width as int,
                arena_nodes(*nodes)[tree.0 as int].data.width as int,
            )),
    {
        if tree.0 >= nodes.count() {
            return Err(ProfileError::UnknownNodeId);
        }
        let base = nodes.item(tree).data.width;
        if base == 0 {
            return Err(ProfileError::ZeroWidthNode);
        }
        Ok(TreeView::renormalized_tree(tree, nodes, full_width, base))
    }
}

} // verus!
