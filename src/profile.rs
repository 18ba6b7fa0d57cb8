use vstd::prelude::*;

use rand::Rng;

use crate::error::ProfileError;
use crate::scope::{NormalizedForest, RegionTree, normalized_from, region_within};
use crate::span::{RawSpan, forest_wf, window_end, window_start};
use crate::tree_view::{TreeView, lemma_zoom_deterministic, same_view, view_of};
use crate::MAX_UNITS;
use crate::tree_profile::{
    CHANNEL_MAX, Color, GREEN_MAX, NodeId, ProfileArena, ROOT_SHADE, Scope, TreeProfile,
    arena_nodes, arena_wf, lemma_node_of_extend, lemma_rounded_ratio_monotone, lemma_rounded_ratio_whole,
    lemma_span_width_bounds, node_of, profile_of, span_width, temperature, ROOT_LABEL,
};

verus! {

broadcast use vstd::std_specs::vec::axiom_vec_index_decreases;

/// Relies on rand's thread_rng and Rng::gen_range(low, high): a value drawn
/// from `low..high`, which must not be empty.
#[verifier::external_body]
fn random_below(high: u16) -> (r: u16)
    requires
        0 < high,
    ensures
        r < high,
{
    rand::thread_rng().gen_range(0, high)
}

/// The width of a region, rounded to whole units.
fn region_width(region: &RegionTree<u64>, full_width: u16, normalization: u64) -> (w: u16)
    requires
        0 < normalization,
        region.start <= region.end,
        region.end - region.start <= normalization,
    ensures
        w == span_width(region.end - region.start, full_width as int, normalization as int),
        w <= full_width,
{
    let len = (region.end - region.start) as u128;
    let n = normalization as u128;
    let w = full_width as u128;
    assert(2 * w * len <= 2 * 0xffffu128 * 0xffff_ffff_ffff_ffffu128) by (nonlinear_arith)
        requires
            w <= 0xffff,
            len <= 0xffff_ffff_ffff_ffff,
    ;
    proof {
        lemma_span_width_bounds(len as int, w as int, n as int);
    }
    ((2 * w * len + n) / (2 * n)) as u16
}

/// The red channel of a node of `width` under a parent of `parent_width`.
fn heat(width: u16, parent_width: u16) -> (t: u16)
    ensures
        t == temperature(width as int, parent_width as int),
{
    if parent_width == 0 {
        0
    } else {
        assert(2 * (CHANNEL_MAX as u64) * (width as u64) <= 2 * 1000 * 0xffff) by (nonlinear_arith)
            requires
                width <= 0xffff,
                CHANNEL_MAX == 1000,
        ;
        let r = (2 * (CHANNEL_MAX as u64) * (width as u64) + parent_width as u64) / (2
            * parent_width as u64);
        if r > CHANNEL_MAX as u64 {
            CHANNEL_MAX
        } else {
            r as u16
        }
    }
}

/// Allocates one node per region, children before their parent, and returns
/// the ids of the top regions in order.
fn from_regions(
    regions: &Vec<RegionTree<u64>>,
    parent_width: u16,
    full_width: u16,
    normalization: u64,
    lo: Ghost<int>,
    hi: Ghost<int>,
    nodes: &mut ProfileArena,
) -> (ids: Vec<NodeId>)
    requires
        0 < normalization,
        0 <= lo@ <= hi@ <= lo@ + normalization,
        parent_width == span_width(hi@ - lo@, full_width as int, normalization as int),
        forall|i: int| 0 <= i < regions.len() ==> region_within(#[trigger] regions[i], lo@, hi@),
        arena_wf(arena_nodes(*old(nodes))),
    ensures
        arena_wf(arena_nodes(*final(nodes))),
        arena_nodes(*old(nodes)).len() <= arena_nodes(*final(nodes)).len(),
        arena_nodes(*final(nodes)).subrange(0, arena_nodes(*old(nodes)).len() as int)
            == arena_nodes(*old(nodes)),
        ids.len() == regions.len(),
        forall|i: int|
            0 <= i < regions.len() ==> node_of(
                arena_nodes(*final(nodes)),
                ids[i].0 as int,
                #[trigger] regions[i],
                parent_width as int,
                full_width as int,
                normalization as int,
            ),
        forall|i: int|
            0 <= i < regions.len() ==> arena_nodes(*final(nodes))[#[trigger] ids[i].0 as int].data.width
                <= parent_width,
    decreases regions,
{
    let ghost first = arena_nodes(*nodes);
    let mut ids: Vec<NodeId> = Vec::new();
    let mut i: usize = 0;
    while i < regions.len()
        invariant
            0 < normalization,
            0 <= lo@ <= hi@ <= lo@ + normalization,
            parent_width == span_width(hi@ - lo@, full_width as int, normalization as int),
            forall|k: int| 0 <= k < regions.len() ==> region_within(#[trigger] regions[k], lo@, hi@),
            i <= regions.len(),
            arena_wf(arena_nodes(*nodes)),
            first.len() <= arena_nodes(*nodes).len(),
            arena_nodes(*nodes).subrange(0, first.len() as int) == first,
            ids.len() == i,
            forall|k: int|
                0 <= k < i ==> node_of(
                    arena_nodes(*nodes),
                    ids[k].0 as int,
                    #[trigger] regions[k],
                    parent_width as int,
                    full_width as int,
                    normalization as int,
                ),
            forall|k: int|
                0 <= k < i ==> arena_nodes(*nodes)[#[trigger] ids[k].0 as int].data.width
                    <= parent_width,
        decreases regions.len() - i,
    {
        let region = &regions[i];
        assert(region_within(regions[i as int], lo@, hi@));
        let width = region_width(region, full_width, normalization);
        proof {
            lemma_rounded_ratio_monotone(
                full_width as int,
                region.end - region.start,
                hi@ - lo@,
                normalization as int,
            );
        }
        let red = heat(width, parent_width);
        let green = random_below(GREEN_MAX + 1);
        let ghost before = arena_nodes(*nodes);
        let children = from_regions(
            &region.regions,
            width,
            full_width,
            normalization,
            Ghost(region.start as int),
            Ghost(region.end as int),
            nodes,
        );
        let ghost mid = arena_nodes(*nodes);
        let node = TreeProfile {
            data: Scope {
                width,
                desc: region.desc.clone(),
                color: Color { red, green, blue: CHANNEL_MAX - red },
            },
            children,
        };
        let id = nodes.push_node(node);
        let ghost after = arena_nodes(*nodes);
        proof {
            assert(after.subrange(0, mid.len() as int) =~= mid);
            assert(after.subrange(0, first.len() as int) =~= first) by {
                assert(mid.subrange(0, before.len() as int) == before);
                assert forall|k: int| 0 <= k < first.len() implies after[k] == first[k] by {
                    assert(after[k] == mid[k]);
                    assert(mid[k] == before[k]);
                    assert(before[k] == first[k]);
                }
            }
            assert(after.subrange(0, before.len() as int) =~= before) by {
                assert forall|k: int| 0 <= k < before.len() implies after[k] == before[k] by {
                    assert(after[k] == mid[k]);
                }
            }
            assert(after[id.0 as int] == node);
            assert forall|a: int, b: int|
                0 <= a < after.len() && 0 <= b < after[a].children.len() implies {
                &&& (#[trigger] after[a].children[b]).0 < a
                &&& after[after[a].children[b].0 as int].data.width <= after[a].data.width
            } by {
                if a < mid.len() {
                    assert(after[a] == mid[a]);
                    assert(mid[a].children[b] == after[a].children[b]);
                    assert(after[after[a].children[b].0 as int] == mid[mid[a].children[b].0 as int]);
                } else {
                    assert(a == id.0);
                    assert(node_of(mid, node.children[b].0 as int, region.regions[b], width as int, full_width as int, normalization as int));
                    assert(after[node.children[b].0 as int] == mid[node.children[b].0 as int]);
                }
            }
            assert forall|k: int| 0 <= k < i implies node_of(
                after,
                ids[k].0 as int,
                #[trigger] regions[k],
                parent_width as int,
                full_width as int,
                normalization as int,
            ) && after[ids[k].0 as int].data.width <= parent_width by {
                assert(node_of(
                    before,
                    ids[k].0 as int,
                    regions[k],
                    parent_width as int,
                    full_width as int,
                    normalization as int,
                ));
                assert(after.subrange(0, before.len() as int)[ids[k].0 as int] == after[ids[k].0 as int]);
                lemma_node_of_extend(
                    before,
                    after,
                    ids[k].0 as int,
                    regions[k],
                    parent_width as int,
                    full_width as int,
                    normalization as int,
                );
            }
            assert forall|k: int| 0 <= k < region.regions.len() implies node_of(
                after,
                node.children[k].0 as int,
                #[trigger] region.regions[k],
                width as int,
                full_width as int,
                normalization as int,
            ) by {
                lemma_node_of_extend(
                    mid,
                    after,
                    node.children[k].0 as int,
                    region.regions[k],
                    width as int,
                    full_width as int,
                    normalization as int,
                );
            }
            assert(node_of(
                after,
                id.0 as int,
                regions[i as int],
                parent_width as int,
                full_width as int,
                normalization as int,
            ));
        }
        let ghost old_ids = ids@;
        ids.push(id);
        proof {
            assert forall|k: int| 0 <= k < i + 1 implies after[#[trigger] ids[k].0 as int].data.width
                <= parent_width by {
                if k < i {
                    assert(ids[k] == old_ids[k]);
                    assert(region_within(regions[k], lo@, hi@));
                }
            }
        }
        i = i + 1;
    }
    ids
}

/// Materializes a normalized forest as an arena laid out over `full_width`
/// units, and returns it with the id of its synthetic root.
///
/// An empty forest is rejected with `EmptyForest`.
pub fn build(forest: &NormalizedForest, full_width: u16) -> (r: Result<
    (ProfileArena, NodeId),
    ProfileError,
>)
    requires
        forest.wf(),
    ensures
        forest.regions.len() == 0 ==> r == Err::<(ProfileArena, NodeId), ProfileError>(
            ProfileError::EmptyForest,
        ),
        forest.regions.len() > 0 ==> (r matches Ok((arena, root)) && profile_of(
            arena_nodes(arena),
            root,
            *forest,
            full_width as int,
        )),
{
    if forest.regions.len() == 0 {
        return Err(ProfileError::EmptyForest);
    }
    let mut nodes = ProfileArena::new();
    proof {
        lemma_rounded_ratio_whole(full_width as int, forest.normalization as int);
    }
    let tree = from_regions(
        &forest.regions,
        full_width,
        full_width,
        forest.normalization,
        Ghost(0),
        Ghost(forest.normalization as int),
        &mut nodes,
    );
    let ghost mid = arena_nodes(nodes);
    let root_node = TreeProfile {
        data: Scope {
            width: full_width,
            desc: String::from_str(ROOT_LABEL),
            color: Color { red: ROOT_SHADE, green: ROOT_SHADE, blue: ROOT_SHADE },
        },
        children: tree,
    };
    let root = nodes.push_node(root_node);
    proof {
        let after = arena_nodes(nodes);
        assert(after.subrange(0, mid.len() as int) =~= mid);
        assert(after[root.0 as int] == root_node);
        assert forall|a: int, b: int|
            0 <= a < after.len() && 0 <= b < after[a].children.len() implies {
            &&& (#[trigger] after[a].children[b]).0 < a
            &&& after[after[a].children[b].0 as int].data.width <= after[a].data.width
        } by {
            if a < mid.len() {
                assert(after[a] == mid[a]);
                assert(after[after[a].children[b].0 as int] == mid[mid[a].children[b].0 as int]);
            } else {
                assert(node_of(
                    mid,
                    root_node.children[b].0 as int,
                    forest.regions[b],
                    full_width as int,
                    full_width as int,
                    forest.normalization as int,
                ));
                assert(after[root_node.children[b].0 as int] == mid[root_node.children[b].0 as int]);
            }
        }
        assert forall|k: int| 0 <= k < forest.regions.len() implies node_of(
            after,
            root_node.children[k].0 as int,
            #[trigger] forest.regions[k],
            full_width as int,
            full_width as int,
            forest.normalization as int,
        ) by {
            lemma_node_of_extend(
                mid,
                after,
                root_node.children[k].0 as int,
                forest.regions[k],
                full_width as int,
                full_width as int,
                forest.normalization as int,
            );
        }
    }
    Ok((nodes, root))
}

/// A loaded profile: its arena, and the selected node with its zoom view.
pub struct Profile {
    root: NodeId,
    nodes: ProfileArena,
    selected: NodeId,
    profile_view: TreeView,
}

impl Profile {
    pub closed spec fn spec_root(&self) -> NodeId {
        self.root
    }

    pub closed spec fn spec_nodes(&self) -> Seq<TreeProfile> {
        arena_nodes(self.nodes)
    }

    pub closed spec fn spec_selected(&self) -> NodeId {
        self.selected
    }

    pub closed spec fn spec_view(&self) -> TreeView {
        self.profile_view
    }

    /// The arena is well formed with a root of full width, the selected node
    /// has positive width, and the view is its zoom to full width.
    pub open spec fn wf(&self) -> bool {
        &&& arena_wf(self.spec_nodes())
        &&& self.spec_root().0 < self.spec_nodes().len()
        &&& self.spec_nodes()[self.spec_root().0 as int].data.width == MAX_UNITS
        &&& self.spec_selected().0 < self.spec_nodes().len()
        &&& self.spec_nodes()[self.spec_selected().0 as int].data.width > 0
        &&& view_of(
            self.spec_view(),
            self.spec_nodes(),
            self.spec_selected().0 as int,
            MAX_UNITS as int,
            self.spec_nodes()[self.spec_selected().0 as int].data.width as int,
        )
    }

    /// Loads a profile from a forest of spans, laid out over `MAX_UNITS`,
    /// with its root selected.
    ///
    /// Fails with `EmptyForest` for no spans and `DegenerateWindow` for a
    /// window of length zero.
    pub fn new(spans: &Vec<RawSpan>) -> (r: Result<Profile, ProfileError>)
        requires
            forest_wf(spans@),
        ensures
            spans.len() == 0 ==> r == Err::<Profile, ProfileError>(ProfileError::EmptyForest),
            spans.len() > 0 && window_start(spans@) == window_end(spans@) ==> r == Err::<
                Profile,
                ProfileError,
            >(ProfileError::DegenerateWindow),
            spans.len() > 0 && window_start(spans@) < window_end(spans@) ==> (r matches Ok(p) && {
                &&& p.wf()
                &&& p.spec_selected() == p.spec_root()
                &&& exists|f: NormalizedForest|
                    normalized_from(f, spans@) && #[trigger] profile_of(
                        p.spec_nodes(),
                        p.spec_root(),
                        f,
                        MAX_UNITS as int,
                    )
            }),
    {
        let regions = match RegionTree::from_flame(spans) {
            Ok(f) => f,
            Err(e) => {
                return Err(e);
            },
        };
        let (nodes, root) = match build(&regions, MAX_UNITS) {
            Ok(built) => built,
            Err(e) => {
                return Err(e);
            },
        };
        let profile_view = match TreeView::from_tree_profile(root, &nodes, MAX_UNITS) {
            Ok(v) => v,
            Err(e) => {
                return Err(e);
            },
        };
        Ok(Profile { root, nodes, selected: root, profile_view })
    }

    /// Selects a node and rebuilds the zoom view at it; the arena is left as
    /// it is.
    ///
    /// An id outside the arena fails with `UnknownNodeId`, a node of width
    /// zero with `ZeroWidthNode`; either way the selection stays as it was.
    pub fn select(&mut self, id: NodeId) -> (r: Result<(), ProfileError>)
        requires
            old(self).wf(),
        ensures
            final(self).wf(),
            final(self).spec_nodes() == old(self).spec_nodes(),
            final(self).spec_root() == old(self).spec_root(),
            id.0 >= old(self).spec_nodes().len() ==> r == Err::<(), ProfileError>(
                ProfileError::UnknownNodeId,
            ),
            id.0 < old(self).spec_nodes().len() && old(self).spec_nodes()[id.0 as int].data.width
                == 0 ==> r == Err::<(), ProfileError>(ProfileError::ZeroWidthNode),
            r is Err ==> final(self).spec_selected() == old(self).spec_selected()
                && final(self).spec_view() == old(self).spec_view(),
            r is Ok ==> final(self).spec_selected() == id,
            id.0 < old(self).spec_nodes().len() && old(self).spec_nodes()[id.0 as int].data.width
                > 0 ==> r is Ok,
    {
        match TreeView::from_tree_profile(id, &self.nodes, MAX_UNITS) {
            Ok(v) => {
                self.selected = id;
                self.profile_view = v;
                Ok(())
            },
            Err(e) => Err(e),
        }
    }

    /// The id of the synthetic root.
    pub fn root(&self) -> (r: NodeId)
        ensures
            r == self.spec_root(),
    {
        self.root
    }

    /// The id of the selected node.
    pub fn selected(&self) -> (r: NodeId)
        ensures
            r == self.spec_selected(),
    {
        self.selected
    }

    /// The zoom view at the selected node.
    pub fn current_view(&self) -> (r: &TreeView)
        ensures
            *r == self.spec_view(),
    {
        &self.profile_view
    }

    /// The arena of all nodes.
    pub fn nodes(&self) -> (r: &ProfileArena)
        ensures
            arena_nodes(*r) == self.spec_nodes(),
    {
        &self.nodes
    }
}

/// Selecting the same node of the same arena again gives the same zoom view,
/// at every node.
pub proof fn lemma_reselect_same_view(a: Profile, b: Profile)
    requires
        a.wf(),
        b.wf(),
        a.spec_nodes() == b.spec_nodes(),
        a.spec_selected() == b.spec_selected(),
    ensures
        same_view(a.spec_view(), b.spec_view()),
{
    lemma_zoom_deterministic(
        a.spec_view(),
        b.spec_view(),
        a.spec_nodes(),
        a.spec_selected().0 as int,
        MAX_UNITS as int,
        a.spec_nodes()[a.spec_selected().0 as int].data.width as int,
    );
}

} // verus!
