use std::cell::RefCell;

use pree::branch::{Branch, BranchChildren, BranchProducer, BranchShape, Stem};
use pree::growth::{Growable, Growth};
use pree::leaf::{Leaf, LeafBunchProducer, LeafProducer, LeafShape};
use pree::render::Viewport;
use pree::tree::{Tree, TreeContext, TreeProducer, TreeTheme, TreeThemeErr};

#[derive(Debug, Clone, Copy, PartialEq)]
struct Point {
    x: f32,
    y: f32,
}

type Shape = BranchShape<Point, f32>;
type LShape = LeafShape<Point, f32, u8>;

struct TestLeaves {
    factor: u16,
}

impl LeafProducer for TestLeaves {
    type Position = Point;
    type Scalar = f32;
    type Color = u8;

    fn get_color_variant(&self) -> u8 {
        7
    }

    fn get_growth(&self, _radius: f32) -> Growth {
        Growth::new(self.factor, 0)
    }

    fn get_radius(&self) -> f32 {
        5.0
    }
}

struct TestBunch {
    count: usize,
    leaves: TestLeaves,
}

impl LeafBunchProducer for TestBunch {
    type Position = Point;
    type Scalar = f32;
    type Color = u8;
    type Leaves = TestLeaves;

    fn get_leaf_producer(&self) -> &TestLeaves {
        &self.leaves
    }

    fn get_count(&self) -> usize {
        self.count
    }

    fn get_scatter_position(&self, center: Point) -> Point {
        Point { x: center.x + 1.0, y: center.y }
    }
}

struct TestBranches {
    side_count: usize,
    bunch: TestBunch,
    child_depth_asked: RefCell<Vec<u8>>,
}

impl BranchProducer for TestBranches {
    type Position = Point;
    type Scalar = f32;
    type Color = u8;
    type LeafBunch = TestBunch;

    fn get_leaf_bunch_producer(&self) -> &TestBunch {
        &self.bunch
    }

    fn get_curve(&self) -> f32 {
        0.25
    }

    fn get_growth(&self, _length: f32) -> Growth {
        Growth::new_segmented(10, 0)
    }

    fn get_end_position(&self, stem: &Stem<Point, f32>) -> Point {
        Point {
            x: stem.position.x + stem.length * stem.angle.cos(),
            y: stem.position.y + stem.length * stem.angle.sin(),
        }
    }

    fn get_main_length(&self, length: f32) -> f32 {
        length * 0.5
    }

    fn get_main_angle(&self, angle: f32) -> f32 {
        angle
    }

    fn get_main_thickness(&self, thickness: f32) -> f32 {
        thickness * 0.75
    }

    fn get_main_depth(&self, depth: u8) -> u8 {
        depth - 1
    }

    fn get_child_length(&self, length: f32) -> f32 {
        length * 0.25
    }

    fn get_child_angle(&self, angle: f32) -> f32 {
        angle + 1.0
    }

    fn get_child_thickness(&self, thickness: f32) -> f32 {
        thickness * 0.5
    }

    fn get_child_depth(&self, depth: u8) -> u8 {
        self.child_depth_asked.borrow_mut().push(depth);
        depth.saturating_sub(2)
    }

    fn get_child_branch_count(&self) -> usize {
        self.side_count
    }
}

struct TestTree {
    count: usize,
    branches: TestBranches,
    asked: RefCell<Vec<usize>>,
}

impl TreeProducer for TestTree {
    type Branches = TestBranches;

    fn get_branch_producer(&self) -> &TestBranches {
        &self.branches
    }

    fn get_root_branch_count(&self) -> usize {
        self.count
    }

    fn get_root_branch_angle(&self, _angle: f32, _branch_count: usize, branch_index: usize) -> f32 {
        self.asked.borrow_mut().push(branch_index);
        branch_index as f32
    }
}

fn branches(side_count: usize, leaf_count: usize, leaf_factor: u16) -> TestBranches {
    TestBranches {
        side_count,
        bunch: TestBunch { count: leaf_count, leaves: TestLeaves { factor: leaf_factor } },
        child_depth_asked: RefCell::new(Vec::new()),
    }
}

const ORIGIN: Point = Point { x: 0.0, y: 0.0 };

fn stem() -> Stem<Point, f32> {
    Stem { position: ORIGIN, length: 100.0, angle: 0.0, thickness: 8.0 }
}

fn nested(depth: u8, producer: &TestBranches) -> Branch<Shape, LShape> {
    Branch::new_nested(ORIGIN, 100.0, 0.0, 8.0, depth, producer)
}

fn new_tree(depth: u8, producer: &TestTree) -> Tree<Shape, LShape> {
    Tree::new(ORIGIN, 100.0, 0.0, 8.0, depth, producer)
}

fn child_branches(branch: &Branch<Shape, LShape>) -> &Vec<Branch<Shape, LShape>> {
    match &branch.children {
        BranchChildren::Branchs(branchs) => branchs,
        _ => panic!("expected branches"),
    }
}

fn leaves(branch: &Branch<Shape, LShape>) -> &Vec<Leaf<LShape>> {
    match &branch.children {
        BranchChildren::Leaves(leaves) => leaves,
        _ => panic!("expected leaves"),
    }
}

#[test]
fn depth_zero_branch_has_no_children() {
    let producer = branches(2, 3, 1);
    let branch = nested(0, &producer);
    assert!(leaves(&branch).is_empty());
    assert_eq!(branch.shape.position, ORIGIN);
    assert_eq!(branch.shape.length, 100.0);
    assert_eq!(branch.shape.angle, 0.0);
    assert_eq!(branch.shape.thickness, 8.0);
    assert_eq!(branch.shape.curve, 0.25);
    assert_eq!(branch.growth.get_factor(), 6553);
}

#[test]
fn depth_one_branch_carries_leaves() {
    let producer = branches(2, 3, 1);
    let branch = nested(1, &producer);
    let leaves = leaves(&branch);
    assert_eq!(leaves.len(), 3);
    assert_eq!(leaves[0].shape.position, Point { x: 101.0, y: 0.0 });
    assert_eq!(leaves[0].growth.get_factor(), 1);
}

#[test]
fn depth_two_branch_continues_as_one() {
    let producer = branches(2, 3, 1);
    let branch = nested(2, &producer);
    let children = child_branches(&branch);
    assert_eq!(children.len(), 1);
    assert_eq!(children[0].shape.length, 50.0);
    assert_eq!(children[0].growth.get_dormancy(), 0);
    assert_eq!(leaves(&children[0]).len(), 3);
}

// Law: side branches come first and start fully dormant; the main
// continuation comes last; each level fits in one depth less.
#[test]
fn depth_three_branch_has_dormant_sides_then_main() {
    let producer = branches(2, 4, 1);
    let branch = nested(3, &producer);
    let children = child_branches(&branch);
    assert_eq!(children.len(), 3);
    for side in &children[..2] {
        assert_eq!(side.growth.get_dormancy(), Growth::MAX);
        assert_eq!(side.shape.length, 25.0);
        assert_eq!(leaves(side).len(), 4);
    }
    let main = &children[2];
    assert_eq!(main.growth.get_dormancy(), 0);
    assert_eq!(main.shape.length, 50.0);
    let main_children = child_branches(main);
    assert_eq!(main_children.len(), 1);
    assert!(main_children.iter().all(|b| matches!(b.children, BranchChildren::Leaves(_))));
}

fn height(branch: &Branch<Shape, LShape>) -> usize {
    match &branch.children {
        BranchChildren::Leaves(_) => 0,
        BranchChildren::Branchs(branchs) | BranchChildren::Mixed(_, branchs) => {
            1 + branchs.iter().map(height).max().unwrap_or(0)
        }
    }
}

// Law: a branch generated for `depth` levels has at most `depth` levels.
#[test]
fn generated_height_is_bounded_by_depth() {
    let producer = branches(1, 2, 1);
    for depth in 0..7u8 {
        let branch = nested(depth, &producer);
        assert!(height(&branch) <= depth as usize);
    }
}

#[test]
fn new_bunch_makes_count_leaves() {
    let bunch = TestBunch { count: 5, leaves: TestLeaves { factor: 2 } };
    let leaves: Vec<Leaf<LShape>> = Leaf::new_bunch(Point { x: 3.0, y: 4.0 }, &bunch);
    assert_eq!(leaves.len(), 5);
    assert!(leaves.iter().all(|l| l.shape.position == Point { x: 4.0, y: 4.0 } && l.shape.radius == 5.0 && l.shape.color_variant == 7));
}

#[test]
fn leaf_new_with_producer_asks_producer() {
    let leaf: Leaf<LShape> = Leaf::new_with_producer(Point { x: 1.0, y: 2.0 }, &TestLeaves { factor: 9 });
    assert_eq!(leaf.shape.position, Point { x: 1.0, y: 2.0 });
    assert_eq!(leaf.shape.radius, 5.0);
    assert_eq!(leaf.get_growth().get_factor(), 9);
}

fn test_tree(count: usize, leaf_factor: u16) -> TestTree {
    TestTree { count, branches: branches(2, 3, leaf_factor), asked: RefCell::new(Vec::new()) }
}

#[test]
fn tree_new_asks_every_root_index_once() {
    let producer = test_tree(6, 1);
    let tree = new_tree(3, &producer);
    assert_eq!(tree.root.len(), 6);
    let mut asked = producer.asked.borrow().clone();
    asked.sort();
    assert_eq!(asked, vec![0, 1, 2, 3, 4, 5]);
    for branch in &tree.root {
        assert_eq!(child_branches(branch).len(), 3);
        assert_eq!(branch.shape.position, ORIGIN);
        assert_eq!(branch.shape.length, 100.0);
        assert_eq!(branch.shape.thickness, 8.0);
    }
}

// The root branches are built in a shuffled order: over a few tries, some
// order differs from the plain one (the chance that all of them are plain
// is 1 in 40320 to the fifth power).
#[test]
fn tree_new_shuffles_root_order() {
    let mut saw_shuffled = false;
    for _ in 0..5 {
        let producer = test_tree(8, 1);
        let tree = new_tree(1, &producer);
        let order: Vec<usize> = tree.root.iter().map(|b| b.shape.angle as usize).collect();
        assert_eq!(order, *producer.asked.borrow());
        if order != (0..8).collect::<Vec<usize>>() {
            saw_shuffled = true;
        }
    }
    assert!(saw_shuffled);
}

#[test]
fn empty_tree_is_fully_grown() {
    let producer = test_tree(0, 1);
    let tree: Tree<Shape, LShape> = new_tree(3, &producer);
    assert!(tree.root.is_empty());
    assert!(tree.is_fully_grown());
}

#[test]
fn branch_grows_itself_before_children() {
    let producer = branches(0, 2, 1000);
    let mut branch = nested(1, &producer);
    branch.grow(1);
    assert_eq!(branch.growth.get_amount(), 6553);
    assert!(leaves(&branch).iter().all(|l| l.growth.get_amount() == 0));
    for _ in 0..9 {
        branch.grow(1);
    }
    assert_eq!(branch.growth.get_amount(), 65530);
    branch.grow(1);
    assert!(branch.growth.is_fully_grown());
    assert!(leaves(&branch).iter().all(|l| l.growth.get_amount() == 0));
    branch.grow(1);
    assert!(leaves(&branch).iter().all(|l| l.growth.get_amount() == 1000));
}

#[test]
fn branch_fully_grown_looks_only_at_children() {
    let bare = Branch::new(1u8, BranchChildren::<u8, u8>::Leaves(Vec::new()), Growth::new(1, 0));
    assert!(bare.is_fully_grown());
    let mut grown_leaf = Leaf::new(0u8, Growth::new(1, 0));
    grown_leaf.grow(65535);
    let unripe = Leaf::new(0u8, Growth::new(1, 0));
    let mixed = BranchChildren::<u8, u8>::Mixed(vec![grown_leaf], vec![bare]);
    assert!(mixed.is_fully_grown());
    let mixed2 = BranchChildren::<u8, u8>::Mixed(vec![unripe], Vec::new());
    assert!(!mixed2.is_fully_grown());
}

#[test]
fn mixed_children_grow_leaves_and_branches() {
    let branch = Branch::new(1u8, BranchChildren::<u8, u8>::Leaves(Vec::new()), Growth::new(2, 0));
    let leaf = Leaf::new(0u8, Growth::new(3, 1));
    let mut mixed = BranchChildren::Mixed(vec![leaf], vec![branch]);
    mixed.grow(2);
    match &mixed {
        BranchChildren::Mixed(leaves, branchs) => {
            assert_eq!(leaves[0].growth.get_amount(), 5);
            assert_eq!(branchs[0].growth.get_amount(), 4);
        }
        _ => panic!("expected mixed"),
    }
}

// Law: repeated growing finishes every tree, and a fully grown tree stays so.
#[test]
fn growing_finishes_the_tree() {
    let producer = test_tree(2, 500);
    let mut tree = new_tree(3, &producer);
    let mut steps = 0;
    while !tree.is_fully_grown() {
        tree.grow(1);
        steps += 1;
        assert!(steps < 100_000);
    }
    assert!(steps > 0);
    tree.grow(1);
    assert!(tree.is_fully_grown());
    for branch in &tree.root {
        assert!(branch.growth.is_fully_grown());
    }
}

#[test]
fn vec_of_leaves_grows_every_leaf() {
    let mut leaves = vec![Leaf::new(0u8, Growth::new(2, 0)), Leaf::new(1u8, Growth::new(5, 3))];
    assert!(!leaves.is_fully_grown());
    leaves.grow(10);
    assert_eq!(leaves[0].growth.get_amount(), 20);
    assert_eq!(leaves[1].growth.get_amount(), 47);
    assert_eq!(leaves[1].shape, 1u8);
}

#[test]
fn leaf_drawn_radius() {
    let mut leaf = Leaf::new(0u8, Growth::new(1, 0));
    leaf.grow(65530);
    assert_eq!(leaf.get_drawn_radius(5), None);
    leaf.grow(1);
    assert_eq!(leaf.get_drawn_radius(5), Some(1));
    leaf.grow(10);
    assert_eq!(leaf.get_drawn_radius(5), Some(5));
    assert_eq!(leaf.get_drawn_radius(0), None);
}

#[test]
fn branch_drawn_segments() {
    let mut branch = Branch::new(0u8, BranchChildren::<u8, u8>::Leaves(Vec::new()), Growth::new_segmented(10, 0));
    assert_eq!(branch.get_drawn_segments(), (10, 0));
    branch.grow(3);
    assert_eq!(branch.get_drawn_segments(), (10, 3));
    let mut fine = Branch::new(0u8, BranchChildren::<u8, u8>::Leaves(Vec::new()), Growth::new(163, 0));
    fine.growth.grow(65535);
    assert_eq!(fine.get_drawn_segments(), (402, 402));
}

#[test]
fn theme_from_name() {
    assert_eq!(TreeTheme::try_from("pink").unwrap(), TreeTheme::Pink);
    assert_eq!(TreeTheme::try_from("green").unwrap(), TreeTheme::Green);
    assert_eq!(TreeTheme::try_from("orange").unwrap(), TreeTheme::Orange);
    assert!(TreeTheme::try_from("Pink").is_err());
    assert!(TreeTheme::try_from("").is_err());
    let err: TreeThemeErr = TreeTheme::try_from("blue").unwrap_err();
    assert_eq!(err.message(), "Invalid tree theme value!");
}

#[test]
fn theme_colors() {
    assert_eq!(TreeTheme::Pink.get_leaf_color_bases(), ((220, 100, 120), (240, 150, 160)));
    assert_eq!(TreeTheme::Green.get_leaf_color_bases(), ((20, 120, 20), (40, 200, 20)));
    assert_eq!(TreeTheme::Orange.get_leaf_color_bases(), ((20, 120, 20), (40, 200, 20)));
    assert_eq!(TreeTheme::Orange.get_branch_color(), (74, 53, 37));
}

// Law: the two viewport conversions undo each other.
#[test]
fn viewport_round_trip() {
    let viewport = Viewport::from((640, 480));
    let size: (u32, u32) = viewport.into();
    assert_eq!(size, (640, 480));
    let back = Viewport::from(<(u32, u32)>::from(Viewport::from((1, 2))));
    assert_eq!(<(u32, u32)>::from(back), (1, 2));
}

#[test]
fn tree_context_grows_tree_by_one_unit() {
    let producer = test_tree(1, 1);
    let tree = new_tree(1, &producer);
    let mut context = TreeContext::new("renderer", Viewport::from((10, 20)), tree, TreeTheme::Green);
    context.grow();
    assert_eq!(context.get_tree().root[0].growth.get_amount(), 6553);
    assert_eq!(context.theme, TreeTheme::Green);
    assert_eq!(context.renderer, "renderer");
}

#[test]
fn new_with_count_builds_that_many_roots() {
    let producer = test_tree(99, 1);
    let tree: Tree<Shape, LShape> = Tree::new_with_count(ORIGIN, 100.0, 0.0, 8.0, 2, 4, &producer);
    assert_eq!(tree.root.len(), 4);
    let mut asked = producer.asked.borrow().clone();
    asked.sort();
    assert_eq!(asked, vec![0, 1, 2, 3]);
}

#[test]
fn new_bunch_of_makes_exactly_count_leaves() {
    let bunch = TestBunch { count: 99, leaves: TestLeaves { factor: 2 } };
    assert_eq!(Leaf::<LShape>::new_bunch_of(3, ORIGIN, &bunch).len(), 3);
    assert!(Leaf::<LShape>::new_bunch_of(0, ORIGIN, &bunch).is_empty());
}

#[test]
fn new_children_with_follows_main_depth() {
    let producer = branches(2, 3, 1);
    let end = Point { x: 5.0, y: 0.0 };
    match Branch::new_children_with(end, stem(), 4, 6.0, 4.0, 0, 2, &producer) {
        BranchChildren::Leaves(leaves) => {
            assert_eq!(leaves.len(), 3);
            assert_eq!(leaves[0].shape.position, Point { x: 6.0, y: 0.0 });
        }
        _ => panic!("expected leaves"),
    }
    match Branch::new_children_with(end, stem(), 4, 6.0, 4.0, 1, 2, &producer) {
        BranchChildren::Branchs(branchs) => {
            assert_eq!(branchs.len(), 1);
            assert_eq!(branchs[0].shape.position, end);
        }
        _ => panic!("expected branches"),
    }
    match Branch::new_children_with(end, stem(), 4, 6.0, 4.0, 3, 2, &producer) {
        BranchChildren::Branchs(branchs) => {
            assert_eq!(branchs.len(), 3);
            assert_eq!(branchs[0].growth.get_dormancy(), Growth::MAX);
            assert_eq!(branchs[1].growth.get_dormancy(), Growth::MAX);
            assert_eq!(branchs[2].growth.get_dormancy(), 0);
            assert_eq!(branchs[2].shape.length, 50.0);
            assert_eq!(branchs[2].shape.thickness, 6.0);
            for side in &branchs[..2] {
                assert_eq!(side.shape.position, end);
                assert_eq!(side.shape.length, 25.0);
                assert_eq!(side.shape.angle, 1.0);
                assert_eq!(side.shape.thickness, 4.0);
            }
            assert_eq!(branchs[2].shape.position, end);
        }
        _ => panic!("expected branches"),
    }
}

#[test]
fn clone_copies_the_whole_tree() {
    let producer = test_tree(2, 1);
    let mut tree = new_tree(3, &producer);
    let copy = tree.clone();
    tree.grow(1);
    assert_eq!(copy.root.len(), 2);
    for (original, copied) in tree.root.iter().zip(copy.root.iter()) {
        assert_eq!(copied.shape.angle, original.shape.angle);
        assert_eq!(copied.growth.get_amount(), 0);
        assert_eq!(original.growth.get_amount(), 6553);
        assert_eq!(child_branches(copied).len(), child_branches(original).len());
    }
    let children = copy.root[0].children.clone();
    assert!(matches!(children, BranchChildren::Branchs(ref b) if b.len() == 3));
}

// The side depth is asked for at every branch with children, also where no
// side branches are made.
#[test]
fn side_depth_asked_at_every_branch_with_children() {
    let producer = branches(0, 1, 1);
    let _ = nested(2, &producer);
    assert_eq!(*producer.child_depth_asked.borrow(), vec![2, 1]);
}
