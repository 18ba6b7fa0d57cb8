use flame_view::profile::build;
use flame_view::{
    Color, MAX_UNITS, NodeId, NormalizationParams, Profile, ProfileArena, ProfileError, RawSpan,
    RegionTree, TreeView, from_flame,
};

fn span(name: &str, start: u64, end: u64, children: Vec<RawSpan>) -> RawSpan {
    RawSpan { name: name.to_string(), start, end, children }
}

fn sample() -> Vec<RawSpan> {
    vec![span("root", 0, 100, vec![span("a", 0, 50, vec![]), span("b", 50, 100, vec![])])]
}

fn same_view(a: &TreeView, b: &TreeView) -> bool {
    a.profile_tree == b.profile_tree
        && a.data.width == b.data.width
        && a.data.desc == b.data.desc
        && a.data.color == b.data.color
        && a.children.len() == b.children.len()
        && a.children.iter().zip(b.children.iter()).all(|(x, y)| same_view(x, y))
}

fn check_keeps_widths(v: &TreeView, nodes: &ProfileArena) {
    assert_eq!(v.data.width, nodes.get(v.profile_tree).unwrap().data.width);
    for c in v.children.iter() {
        check_keeps_widths(c, nodes);
    }
}

#[test]
fn scenario_arena_widths_and_colors() {
    let p = Profile::new(&sample()).unwrap();
    let nodes = p.nodes();
    let root = nodes.get(p.root()).unwrap();
    assert_eq!(root.data.width, 1000);
    assert_eq!(root.data.desc, "root");
    assert_eq!(root.data.color, Color { red: 600, green: 600, blue: 600 });
    assert_eq!(root.children.len(), 1);
    let top = nodes.get(root.children[0]).unwrap();
    assert_eq!(top.data.desc, "root");
    assert_eq!(top.data.width, 1000);
    assert_eq!(top.data.color.red, 1000);
    assert_eq!(top.data.color.blue, 0);
    assert_eq!(top.children.len(), 2);
    let a = nodes.get(top.children[0]).unwrap();
    let b = nodes.get(top.children[1]).unwrap();
    assert_eq!(a.data.desc, "a");
    assert_eq!(b.data.desc, "b");
    assert_eq!(a.data.width, 500);
    assert_eq!(b.data.width, 500);
    assert_eq!(a.data.color.red, 500);
    assert_eq!(a.data.color.blue, 500);
    assert_eq!(b.data.color.red, 500);
    assert_eq!(b.data.color.blue, 500);
    assert!(a.data.color.green <= 700);
    assert!(b.data.color.green <= 700);
}

#[test]
fn scenario_select_leaf_zooms_to_full_width() {
    let mut p = Profile::new(&sample()).unwrap();
    let top = p.nodes().get(p.root()).unwrap().children[0];
    let a = p.nodes().get(top).unwrap().children[0];
    assert_eq!(p.nodes().get(a).unwrap().data.width, 500);
    assert_eq!(p.select(a), Ok(()));
    assert_eq!(p.selected(), a);
    let v = p.current_view();
    assert_eq!(v.profile_tree, a);
    assert_eq!(v.data.width, 1000);
    assert_eq!(v.data.desc, "a");
    assert!(v.children.is_empty());
}

#[test]
fn scenario_degenerate_window() {
    let spans = vec![span("root", 7, 7, vec![])];
    assert_eq!(RegionTree::from_flame(&spans).err(), Some(ProfileError::DegenerateWindow));
    assert_eq!(Profile::new(&spans).err(), Some(ProfileError::DegenerateWindow));
}

#[test]
fn empty_forest_is_rejected() {
    let spans: Vec<RawSpan> = vec![];
    assert_eq!(RegionTree::from_flame(&spans).err(), Some(ProfileError::EmptyForest));
    assert_eq!(Profile::new(&spans).err(), Some(ProfileError::EmptyForest));
    let forest = flame_view::NormalizedForest { regions: vec![], normalization: 10 };
    assert_eq!(build(&forest, 1000).err(), Some(ProfileError::EmptyForest));
}

#[test]
fn normalized_regions_use_one_global_window() {
    let spans = vec![
        span("x", 10, 60, vec![span("x1", 20, 30, vec![])]),
        span("y", 70, 110, vec![]),
    ];
    let f = RegionTree::from_flame(&spans).unwrap();
    assert_eq!(f.normalization, 100);
    assert_eq!(f.regions.len(), 2);
    assert_eq!((f.regions[0].start, f.regions[0].end), (0, 50));
    assert_eq!(f.regions[0].desc, "x");
    assert_eq!((f.regions[0].regions[0].start, f.regions[0].regions[0].end), (10, 20));
    assert_eq!(f.regions[0].regions[0].desc, "x1");
    assert_eq!((f.regions[1].start, f.regions[1].end), (60, 100));
    assert!(f.regions[1].regions.is_empty());
}

#[test]
fn normalized_regions_stay_in_unit_window() {
    let spans = vec![span("p", 5, 25, vec![span("c", 6, 24, vec![span("d", 6, 6, vec![])])])];
    let f = RegionTree::from_flame(&spans).unwrap();
    let n = f.normalization;
    let p = &f.regions[0];
    assert!(p.start <= p.end && p.end <= n);
    let c = &p.regions[0];
    assert!(p.start <= c.start && c.start <= c.end && c.end <= p.end);
    let d = &c.regions[0];
    assert!(c.start <= d.start && d.start <= d.end && d.end <= c.end);
    assert_eq!((d.start, d.end), (1, 1));
}

#[test]
fn from_flame_with_explicit_window() {
    let spans = vec![span("s", 30, 40, vec![span("t", 32, 35, vec![])])];
    let params = NormalizationParams { start: 20, end: 60, normalization: 40 };
    let r = from_flame(&spans, &params);
    assert_eq!((r[0].start, r[0].end), (10, 20));
    assert_eq!((r[0].regions[0].start, r[0].regions[0].end), (12, 15));
}

#[test]
fn widths_round_to_nearest_unit() {
    let spans = vec![
        span("third", 0, 1, vec![]),
        span("two_thirds", 1, 3, vec![]),
    ];
    let f = RegionTree::from_flame(&spans).unwrap();
    let (arena, root) = build(&f, 1000).unwrap();
    let r = arena.get(root).unwrap();
    assert_eq!(r.data.width, 1000);
    assert_eq!(arena.get(r.children[0]).unwrap().data.width, 333);
    assert_eq!(arena.get(r.children[1]).unwrap().data.width, 667);
    assert_eq!(arena.get(r.children[0]).unwrap().data.color.red, 333);
    assert_eq!(arena.get(r.children[0]).unwrap().data.color.blue, 667);
}

#[test]
fn every_child_is_no_wider_than_its_parent() {
    let spans = vec![span(
        "p",
        0,
        999,
        vec![span("c", 0, 998, vec![span("d", 1, 997, vec![])]), span("e", 998, 999, vec![])],
    )];
    let f = RegionTree::from_flame(&spans).unwrap();
    let (arena, root) = build(&f, 777).unwrap();
    assert_eq!(arena.get(root).unwrap().data.width, 777);
    assert_eq!(root.0, arena.len() - 1);
    for i in 0..arena.len() {
        let node = arena.get(NodeId(i)).unwrap();
        for c in node.children.iter() {
            assert!(c.0 < i);
            assert!(arena.get(*c).unwrap().data.width <= node.data.width);
        }
    }
}

#[test]
fn zero_width_parent_gives_cold_children() {
    let spans = vec![span("p", 0, 1_000_000, vec![span("c", 0, 1, vec![span("d", 0, 1, vec![])])])];
    let f = RegionTree::from_flame(&spans).unwrap();
    let (arena, root) = build(&f, 1000).unwrap();
    let p = arena.get(arena.get(root).unwrap().children[0]).unwrap();
    let c = arena.get(p.children[0]).unwrap();
    assert_eq!(c.data.width, 0);
    let d = arena.get(c.children[0]).unwrap();
    assert_eq!(d.data.width, 0);
    assert_eq!(d.data.color.red, 0);
    assert_eq!(d.data.color.blue, 1000);
}

#[test]
fn zero_width_node_cannot_be_selected() {
    let spans = vec![span("p", 0, 1_000_000, vec![span("c", 0, 1, vec![])])];
    let mut p = Profile::new(&spans).unwrap();
    let top = p.nodes().get(p.root()).unwrap().children[0];
    let c = p.nodes().get(top).unwrap().children[0];
    assert_eq!(p.nodes().get(c).unwrap().data.width, 0);
    assert_eq!(p.select(c), Err(ProfileError::ZeroWidthNode));
    assert_eq!(p.selected(), p.root());
    assert_eq!(p.current_view().profile_tree, p.root());
    assert_eq!(
        TreeView::from_tree_profile(c, p.nodes(), 1000).err(),
        Some(ProfileError::ZeroWidthNode)
    );
}

#[test]
fn unknown_node_id_is_refused() {
    let mut p = Profile::new(&sample()).unwrap();
    let len = p.nodes().len();
    assert_eq!(p.select(NodeId(len)), Err(ProfileError::UnknownNodeId));
    assert_eq!(p.selected(), p.root());
    assert_eq!(
        TreeView::from_tree_profile(NodeId(len + 5), p.nodes(), 1000).err(),
        Some(ProfileError::UnknownNodeId)
    );
}

#[test]
fn zoom_at_root_to_its_width_is_identity() {
    let spans = vec![span(
        "p",
        0,
        90,
        vec![span("c", 0, 30, vec![span("d", 10, 20, vec![])]), span("e", 30, 89, vec![])],
    )];
    let p = Profile::new(&spans).unwrap();
    check_keeps_widths(p.current_view(), p.nodes());
    let w = p.nodes().get(p.root()).unwrap().data.width;
    let v = TreeView::from_tree_profile(p.root(), p.nodes(), w).unwrap();
    check_keeps_widths(&v, p.nodes());
    assert!(same_view(&v, p.current_view()));
}

#[test]
fn zoom_scales_descendants() {
    let spans = vec![span(
        "p",
        0,
        100,
        vec![span("a", 0, 50, vec![span("a1", 0, 25, vec![]), span("a2", 25, 50, vec![])])],
    )];
    let mut p = Profile::new(&spans).unwrap();
    let top = p.nodes().get(p.root()).unwrap().children[0];
    let a = p.nodes().get(top).unwrap().children[0];
    p.select(a).unwrap();
    let v = p.current_view();
    assert_eq!(v.data.width, 1000);
    assert_eq!(v.children.len(), 2);
    assert_eq!(v.children[0].data.width, 500);
    assert_eq!(v.children[1].data.width, 500);
    assert_eq!(v.children[0].data.desc, "a1");
    assert_eq!(v.children[0].data.color, p.nodes().get(v.children[0].profile_tree).unwrap().data.color);
}

#[test]
fn zoom_scale_rounds_within_half_unit() {
    let spans = vec![span("p", 0, 3, vec![span("q", 0, 2, vec![span("r", 0, 1, vec![])])])];
    let p = Profile::new(&spans).unwrap();
    let top = p.nodes().get(p.root()).unwrap().children[0];
    let q = p.nodes().get(top).unwrap().children[0];
    let base = p.nodes().get(q).unwrap().data.width;
    assert_eq!(base, 667);
    let v = TreeView::from_tree_profile(q, p.nodes(), 1000).unwrap();
    assert_eq!(v.data.width, 1000);
    let r = &v.children[0];
    let orig = p.nodes().get(r.profile_tree).unwrap().data.width as i64;
    assert_eq!(orig, 333);
    assert_eq!(r.data.width, 499);
    let diff = 2 * (base as i64 * r.data.width as i64 - orig * 1000);
    assert!(-(base as i64) < diff && diff <= base as i64);
}

#[test]
fn renormalized_tree_with_explicit_scale() {
    let p = Profile::new(&sample()).unwrap();
    let v = TreeView::renormalized_tree(p.root(), p.nodes(), 500, 1000);
    assert_eq!(v.data.width, 500);
    assert_eq!(v.children[0].data.width, 500);
    assert_eq!(v.children[0].children[0].data.width, 250);
    assert_eq!(v.children[0].children[1].data.width, 250);
}

#[test]
fn reselecting_gives_identical_views() {
    let mut p = Profile::new(&sample()).unwrap();
    let top = p.nodes().get(p.root()).unwrap().children[0];
    let b = p.nodes().get(top).unwrap().children[1];
    p.select(top).unwrap();
    let first = TreeView::from_tree_profile(top, p.nodes(), MAX_UNITS).unwrap();
    assert!(same_view(&first, p.current_view()));
    p.select(top).unwrap();
    assert!(same_view(&first, p.current_view()));
    p.select(b).unwrap();
    assert!(!same_view(&first, p.current_view()));
    p.select(p.root()).unwrap();
    assert_eq!(p.selected(), p.root());
}

#[test]
fn arena_lookup_by_id() {
    let p = Profile::new(&sample()).unwrap();
    let arena = p.nodes();
    assert_eq!(arena.len(), 4);
    assert_eq!(p.root(), NodeId(3));
    let labels: Vec<String> = (0..4).map(|i| arena.get(NodeId(i)).unwrap().data.desc.clone()).collect();
    assert_eq!(labels, vec!["a", "b", "root", "root"]);
    assert_eq!(arena.get(NodeId(2)).unwrap().children, vec![NodeId(0), NodeId(1)]);
    assert_eq!(arena.get(NodeId(3)).unwrap().children, vec![NodeId(2)]);
    assert!(arena.get(NodeId(4)).is_none());
}

#[test]
fn colours_are_random_only_in_green() {
    for _ in 0..20 {
        let p = Profile::new(&sample()).unwrap();
        let top = p.nodes().get(p.root()).unwrap().children[0];
        for c in p.nodes().get(top).unwrap().children.iter() {
            let col = p.nodes().get(*c).unwrap().data.color;
            assert_eq!((col.red, col.blue), (500, 500));
            assert!(col.green <= 700);
        }
    }
}

#[test]
fn well_formedness_is_checked_at_every_depth() {
    assert!(flame_view::is_well_formed(&sample()));
    assert!(flame_view::is_well_formed(&vec![]));
    let backwards = vec![span("r", 5, 4, vec![])];
    assert!(!flame_view::is_well_formed(&backwards));
    let escaping = vec![span("r", 0, 10, vec![span("c", 5, 11, vec![])])];
    assert!(!flame_view::is_well_formed(&escaping));
    let deep = vec![span("r", 0, 10, vec![span("c", 2, 8, vec![span("d", 1, 3, vec![])])])];
    assert!(!flame_view::is_well_formed(&deep));
}
