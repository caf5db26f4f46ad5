use vstd::prelude::*;

use crate::state::collections::{
    icon_counts, icon_counts_clone, icon_counts_get, icon_counts_insert, icon_counts_new,
    icon_counts_remove, name_set, name_set_new,
};
use crate::state::probability::{is_proper_factor, Probability};

verus! {

/// The map of an act: a grid of 7 columns and 15 rows, the act's boss, the floor and
/// node the player stands on, and what has happened on the way.
#[derive(PartialEq, Eq, Hash, Clone, Debug)]
pub struct MapState {
    pub nodes: [Option<MapNode>; 105],
    pub boss: String,
    pub floor: i8,
    pub index: Option<usize>,
    pub history: MapHistory,
}

/// What has happened on the map so far, for the odds of what is yet to come.
#[derive(PartialEq, Eq, Hash, Clone, Debug)]
pub struct MapHistory {
    pub last_elite: Option<usize>,
    pub last_normal: Option<usize>,
    pub easy_fight_count: u8,
    pub unknown_normal_count: u8,
    pub unknown_shop_count: u8,
    pub unknown_treasure_count: u8,
    pub event_history: im::HashSet<String>,
    pub last_shop: bool,
}

impl MapHistory {
    /// Nothing has happened yet.
    pub fn new() -> (res: Self)
        ensures
            res.last_elite is None,
            res.last_normal is None,
            res.easy_fight_count == 0,
            res.unknown_normal_count == 0,
            res.unknown_shop_count == 0,
            res.unknown_treasure_count == 0,
            name_set(res.event_history) =~= Set::empty(),
            !res.last_shop,
    {
        Self {
            last_elite: None,
            last_normal: None,
            easy_fight_count: 0,
            unknown_normal_count: 0,
            unknown_shop_count: 0,
            unknown_treasure_count: 0,
            event_history: name_set_new(),
            last_shop: false,
        }
    }
}

/// A node, if it has a path in the given direction.
pub open spec fn with_path(node: Option<MapNode>, d: Direction) -> Option<MapNode> {
    match node {
        Some(f) => if (match d {
            Direction::Up => f.up,
            Direction::Left => f.left,
            Direction::Right => f.right,
        }) {
            Some(f)
        } else {
            None
        },
        None => None,
    }
}

/// The position of a node in the grid: row by row, seven to a row.
pub open spec fn node_index(node: MapNode) -> int {
    node.x + node.y * 7
}

impl MapState {
    /// An empty map, before the first floor.
    pub fn new() -> (res: Self)
        ensures
            forall|i: int| 0 <= i < 105 ==> (#[trigger] res.nodes@[i]) is None,
            res.floor == -1,
            res.index is None,
            res.boss@ == Seq::<char>::empty(),
            res.history.easy_fight_count == 0,
            name_set(res.history.event_history) =~= Set::empty(),
    {
        Self {
            nodes: [None;105],
            floor: -1,
            index: None,
            boss: String::new(),
            history: MapHistory::new(),
        }
    }

    /// The nodes below a node that lead up to it (see `parents`).
    pub open spec fn parents_spec(&self, node: MapNode) -> (Option<MapNode>, Option<MapNode>, Option<MapNode>) {
        let index = node_index(node);
        if index < 7 {
            (None::<MapNode>, None::<MapNode>, None::<MapNode>)
        } else if node.x > 0 {
            (
                with_path(self.nodes@[index - 8], Direction::Right),
                with_path(self.nodes@[index - 7], Direction::Up),
                with_path(self.nodes@[index - 6], Direction::Left),
            )
        } else {
            (None::<MapNode>, None::<MapNode>, None::<MapNode>)
        }
    }

    /// The nodes below a node that lead up to it: the one down to the left if it has a
    /// path to the right, the one straight down if it has a path up, and the one down to
    /// the right if it has a path to the left. There are none on the first row. Each is
    /// looked for only where the node is not in the leftmost column.
    pub fn parents(&self, node: MapNode) -> (res: (Option<MapNode>, Option<MapNode>, Option<MapNode>))
        requires
            node.x <= 6,
            node.y <= 14,
        ensures
            res == self.parents_spec(node),
    {
        let index = node.index();
        if index < 7 {
            (None, None, None)
        } else {
            (
                if node.x > 0 {
                    match self.nodes[index - 8] {
                        Some(f) => if f.right {
                            Some(f)
                        } else {
                            None
                        },
                        None => None,
                    }
                } else {
                    None
                },
                if node.x > 0 {
                    match self.nodes[index - 7] {
                        Some(f) => if f.up {
                            Some(f)
                        } else {
                            None
                        },
                        None => None,
                    }
                } else {
                    None
                },
                if node.x > 0 {
                    match self.nodes[index - 6] {
                        Some(f) => if f.left {
                            Some(f)
                        } else {
                            None
                        },
                        None => None,
                    }
                } else {
                    None
                },
            )
        }
    }
}

/// A direction that a path takes from one row to the next.
#[derive(PartialEq, Eq, Structural, Hash, Clone, Copy, Debug)]
pub enum Direction {
    Up,
    Left,
    Right,
}

/// A node of the map: its place, the paths that leave it, and its room.
#[derive(PartialEq, Eq, Structural, Hash, Clone, Copy, Debug)]
pub struct MapNode {
    pub y: u8,
    pub x: u8,
    pub left: bool,
    pub up: bool,
    pub right: bool,
    pub icon: MapNodeIcon,
}

impl MapNode {
    /// The position of this node in the grid.
    pub fn index(&self) -> (res: usize)
        requires
            self.x + self.y * 7 <= u8::MAX,
        ensures
            res == node_index(*self),
    {
        (self.x + self.y * 7) as usize
    }
}

/// The room of a map node.
#[derive(PartialEq, Eq, Structural, Hash, Clone, Copy, Debug)]
pub enum MapNodeIcon {
    Question,
    Elite,
    BurningElite,
    Campfire,
    Monster,
    Shop,
    Chest,
}


/// Whether the factors `b` are the factors `a` followed by proper fractions only.
pub open spec fn extends_properly(a: Seq<(u64, u64)>, b: Seq<(u64, u64)>) -> bool {
    &&& a.len() <= b.len()
    &&& b.subrange(0, a.len() as int) == a
    &&& forall|i: int| a.len() <= i < b.len() ==> is_proper_factor(#[trigger] b[i])
}

/// Following proper factors by one more keeps the extension proper.
proof fn lemma_extends_push(a: Seq<(u64, u64)>, b: Seq<(u64, u64)>, c: Seq<(u64, u64)>)
    requires
        extends_properly(a, b),
        c.len() == b.len() + 1,
        c == b.push(c.last()),
        is_proper_factor(c.last()),
    ensures
        extends_properly(a, c),
{
    assert(c.subrange(0, a.len() as int) =~= b.subrange(0, a.len() as int));
    assert forall|i: int| a.len() <= i < c.len() implies is_proper_factor(#[trigger] c[i]) by {
        if i < b.len() {
            assert(c[i] == b[i]);
        }
    }
}

/// Whether each node of a grid sits where its place says.
#[verifier::opaque]
pub open spec fn grid_placed(g: Seq<Option<MapNode>>) -> bool {
    &&& g.len() == 105
    &&& forall|i: int| 0 <= i < 105 && (#[trigger] g[i]) is Some ==> g[i].unwrap().x == i % 7 && g[i].unwrap().y == i / 7
}

/// The place `i` of a grid.
pub open spec fn node_at(g: Seq<Option<MapNode>>, i: int) -> Option<MapNode> {
    g[i]
}

/// Whether each path of a grid leads to a node on the next row, but those into the
/// place `skip`, and keeps within the columns.
#[verifier::opaque]
pub open spec fn edges_ok_except(g: Seq<Option<MapNode>>, skip: int) -> bool {
    forall|i: int| 0 <= i < 105 && (#[trigger] node_at(g, i)) is Some ==> {
        let n = g[i].unwrap();
        &&& n.left ==> n.x > 0
        &&& n.right ==> n.x < 6
        &&& n.y < 14 ==> {
            &&& n.up ==> (i + 7 == skip || g[i + 7] is Some)
            &&& n.left ==> (i + 6 == skip || g[i + 6] is Some)
            &&& n.right ==> (i + 8 == skip || g[i + 8] is Some)
        }
    }
}

/// Whether each path of a grid leads to a node on the next row.
pub open spec fn edges_ok(g: Seq<Option<MapNode>>) -> bool {
    edges_ok_except(g, -1)
}

/// Whether no two paths of a grid cross: no node goes left where its left neighbour
/// goes right.
#[verifier::opaque]
pub open spec fn no_crossing(g: Seq<Option<MapNode>>) -> bool {
    forall|i: int| 1 <= i < 105 && i % 7 != 0 && (#[trigger] g[i]) is Some && g[i - 1] is Some
        ==> !(g[i].unwrap().left && g[i - 1].unwrap().right)
}

/// Whether the place at a column and row of a grid holds a node.
pub open spec fn occupied(g: Seq<Option<MapNode>>, x: int, y: int) -> bool {
    g[x + 7 * y] is Some
}

/// Whether a row of a grid holds a node.
pub open spec fn row_has(g: Seq<Option<MapNode>>, y: int) -> bool {
    exists|x: int| 0 <= x < 7 && #[trigger] occupied(g, x, y)
}

/// Whether each node of a grid has the given room.
#[verifier::opaque]
pub open spec fn all_icons(g: Seq<Option<MapNode>>, icon: MapNodeIcon) -> bool {
    forall|i: int| 0 <= i < g.len() && (#[trigger] g[i]) is Some ==> g[i].unwrap().icon == icon
}

/// Place `x + 7y` of the grid is at column `x` and row `y`.
proof fn lemma_place(x: int, y: int)
    requires
        0 <= x < 7,
        0 <= y,
    ensures
        (x + 7 * y) % 7 == x,
        (x + 7 * y) / 7 == y,
{
    vstd::arithmetic::div_mod::lemma_fundamental_div_mod_converse(x + 7 * y, 7, y, x);
}

/// The step that sets the node at `index` after a climb: it keeps each node where its
/// place says.
proof fn lemma_step_placed(old_grid: Seq<Option<MapNode>>, grid: Seq<Option<MapNode>>, index: int, node: MapNode)
    requires
        grid_placed(old_grid),
        0 <= index < 105,
        grid == old_grid.update(index, Some(node)),
        node.x == index % 7,
        node.y == index / 7,
    ensures
        grid_placed(grid),
{
    reveal(grid_placed);
    assert forall|i: int| 0 <= i < 105 && (#[trigger] grid[i]) is Some implies grid[i].unwrap().x == i % 7 && grid[i].unwrap().y == i / 7 by {
        if i != index {
            assert(grid[i] == old_grid[i]);
        }
    }
}

/// A climb from `index` that adds one path to the node there keeps every other path
/// leading to a node, the new one leading into `skip`.
proof fn lemma_step_edges(
    old_grid: Seq<Option<MapNode>>,
    grid: Seq<Option<MapNode>>,
    index: int,
    node: MapNode,
    skip: int,
)
    requires
        grid_placed(old_grid),
        edges_ok_except(old_grid, index),
        0 <= index < 105,
        grid == old_grid.update(index, Some(node)),
        node.x == index % 7,
        node.y == index / 7,
        node.left ==> node.x > 0,
        node.right ==> node.x < 6,
        old_grid[index] matches Some(o) ==> {
            &&& (node.up && !o.up ==> skip == index + 7)
            &&& (node.left && !o.left ==> skip == index + 6)
            &&& (node.right && !o.right ==> skip == index + 8)
            &&& (o.up ==> node.up) && (o.left ==> node.left) && (o.right ==> node.right)
        },
        old_grid[index] is None ==> {
            &&& (node.up ==> skip == index + 7)
            &&& (node.left ==> skip == index + 6)
            &&& (node.right ==> skip == index + 8)
        },
    ensures
        edges_ok_except(grid, skip),
{
    reveal(grid_placed);
    reveal(edges_ok_except);
    assert forall|i: int| 0 <= i < 105 && (#[trigger] grid[i]) is Some implies {
        let n = grid[i].unwrap();
        &&& n.left ==> n.x > 0
        &&& n.right ==> n.x < 6
        &&& n.y < 14 ==> {
            &&& n.up ==> (i + 7 == skip || grid[i + 7] is Some)
            &&& n.left ==> (i + 6 == skip || grid[i + 6] is Some)
            &&& n.right ==> (i + 8 == skip || grid[i + 8] is Some)
        }
    } by {
        assert(node_at(old_grid, i) == old_grid[i]);
        assert(node_at(grid, i) == grid[i]);
        if i != index {
            assert(grid[i] == old_grid[i]);
            let n = grid[i].unwrap();
            if n.y < 14 {
                if n.up && i + 7 != index && i + 7 < 105 {
                    assert(grid[i + 7] == old_grid[i + 7]);
                }
                if n.left && i + 6 != index && i + 6 < 105 {
                    assert(grid[i + 6] == old_grid[i + 6]);
                }
                if n.right && i + 8 != index && i + 8 < 105 {
                    assert(grid[i + 8] == old_grid[i + 8]);
                }
            }
        } else {
            let n = grid[i].unwrap();
            if old_grid[i] is Some {
                let o = old_grid[i].unwrap();
                if n.y < 14 {
                    if o.up && i + 7 < 105 {
                        assert(grid[i + 7] == old_grid[i + 7]);
                    }
                    if o.left && i + 6 < 105 {
                        assert(grid[i + 6] == old_grid[i + 6]);
                    }
                    if o.right && i + 8 < 105 {
                        assert(grid[i + 8] == old_grid[i + 8]);
                    }
                }
            }
        }
    }
}

/// Setting the node at `index` keeps paths from crossing where it goes left only if its
/// left neighbour does not go right, and right only if its right neighbour does not go
/// left.
proof fn lemma_step_crossing(old_grid: Seq<Option<MapNode>>, grid: Seq<Option<MapNode>>, index: int, node: MapNode)
    requires
        grid_placed(old_grid),
        no_crossing(old_grid),
        0 <= index < 105,
        grid == old_grid.update(index, Some(node)),
        node.x == index % 7,
        node.left && !(old_grid[index] matches Some(o) && o.left) ==> index % 7 != 0 && (old_grid[index - 1] matches Some(l) ==> !l.right),
        node.right && !(old_grid[index] matches Some(o) && o.right) ==> index % 7 != 6 && (old_grid[index + 1] matches Some(r) ==> !r.left),
        old_grid[index] matches Some(o) ==> (node.left == (o.left || node.left)) && (node.right == (o.right || node.right)),
        old_grid[index] matches Some(o) ==> (o.left ==> node.left) && (o.right ==> node.right),
    ensures
        no_crossing(grid),
{
    reveal(grid_placed);
    reveal(no_crossing);
    assert forall|i: int| 1 <= i < 105 && i % 7 != 0 && (#[trigger] grid[i]) is Some && grid[i - 1] is Some
        implies !(grid[i].unwrap().left && grid[i - 1].unwrap().right) by {
        if i != index && i - 1 != index {
            assert(grid[i] == old_grid[i] && grid[i - 1] == old_grid[i - 1]);
        } else if i == index {
            assert(grid[i - 1] == old_grid[i - 1]);
            if old_grid[i] is Some && old_grid[i].unwrap().left {
                assert(old_grid[i] is Some && old_grid[i - 1] is Some ==> !(old_grid[i].unwrap().left && old_grid[i - 1].unwrap().right));
            }
        } else {
            assert(grid[i] == old_grid[i]);
            if i % 7 == 0 {
            } else if old_grid[i - 1] is Some && old_grid[i - 1].unwrap().right {
                assert(old_grid[i] is Some && old_grid[i - 1] is Some ==> !(old_grid[i].unwrap().left && old_grid[i - 1].unwrap().right));
            }
        }
    }
}

/// Setting a node keeps every row that held a node holding one, and the row of the
/// node holds one.
proof fn lemma_step_rows(old_grid: Seq<Option<MapNode>>, grid: Seq<Option<MapNode>>, x: int, y: int, node: MapNode)
    requires
        0 <= x < 7,
        0 <= y < 15,
        old_grid.len() == 105,
        grid == old_grid.update(x + 7 * y, Some(node)),
    ensures
        row_has(grid, y),
        forall|yy: int| 0 <= yy < 15 && #[trigger] row_has(old_grid, yy) ==> row_has(grid, yy),
{
    assert(occupied(grid, x, y));
    assert forall|yy: int| 0 <= yy < 15 && #[trigger] row_has(old_grid, yy) implies row_has(grid, yy) by {
        let xx = choose|xx: int| 0 <= xx < 7 && #[trigger] occupied(old_grid, xx, yy);
        if xx + 7 * yy != x + 7 * y {
            assert(grid[xx + 7 * yy] == old_grid[xx + 7 * yy]);
        }
        assert(occupied(grid, xx, yy));
    }
}

/// A node of a grid whose paths keep within the columns goes left only off the first
/// column and right only off the last.
proof fn lemma_node_sides(g: Seq<Option<MapNode>>, skip: int, i: int)
    requires
        edges_ok_except(g, skip),
        0 <= i < 105,
        g[i] is Some,
    ensures
        g[i].unwrap().left ==> g[i].unwrap().x > 0,
        g[i].unwrap().right ==> g[i].unwrap().x < 6,
{
    reveal(edges_ok_except);
    assert(node_at(g, i) == g[i]);
}

/// A grid whose paths all lead to nodes has them lead to nodes but for any place.
proof fn lemma_edges_weaken(g: Seq<Option<MapNode>>, skip: int)
    requires
        edges_ok(g),
    ensures
        edges_ok_except(g, skip),
{
    reveal(edges_ok_except);
}

/// Setting a node that keeps the room of the one there keeps every room as it was.
proof fn lemma_step_icons(old_grid: Seq<Option<MapNode>>, grid: Seq<Option<MapNode>>, index: int, node: MapNode)
    requires
        all_icons(old_grid, MapNodeIcon::BurningElite),
        0 <= index < old_grid.len(),
        grid == old_grid.update(index, Some(node)),
        node.icon == MapNodeIcon::BurningElite,
    ensures
        all_icons(grid, MapNodeIcon::BurningElite),
{
    reveal(all_icons);
    assert forall|i: int| 0 <= i < grid.len() && (#[trigger] grid[i]) is Some implies grid[i].unwrap().icon == MapNodeIcon::BurningElite by {
        if i != index {
            assert(grid[i] == old_grid[i]);
        }
    }
}

/// Once past the last row, no path leads into the place the climb would reach next.
proof fn lemma_edges_done(g: Seq<Option<MapNode>>, skip: int)
    requires
        grid_placed(g),
        edges_ok_except(g, skip),
        skip >= 105,
    ensures
        edges_ok(g),
{
    reveal(grid_placed);
    reveal(edges_ok_except);
    assert forall|i: int| 0 <= i < 105 && (#[trigger] g[i]) is Some implies {
        let n = g[i].unwrap();
        &&& n.left ==> n.x > 0
        &&& n.right ==> n.x < 6
        &&& n.y < 14 ==> {
            &&& n.up ==> (i + 7 == -1 || g[i + 7] is Some)
            &&& n.left ==> (i + 6 == -1 || g[i + 6] is Some)
            &&& n.right ==> (i + 8 == -1 || g[i + 8] is Some)
        }
    } by {
        let n = g[i].unwrap();
        assert(node_at(g, i) == g[i]);
        lemma_place(i % 7, i / 7);
        assert(i == i % 7 + 7 * (i / 7));
    }
}

impl MapState {
    /// One climb of a path from column `x` of row `y`: the node there (added where there
    /// was none) takes a path up, or left or right where that crosses no path; returns
    /// the column reached.
    fn climb(grid: &mut [Option<MapNode>; 105], x: u8, y: u8, probability: &mut Probability) -> (next: u8)
        requires
            x < 7,
            y < 15,
            grid_placed(old(grid)@),
            edges_ok_except(old(grid)@, x + 7 * y),
            no_crossing(old(grid)@),
            all_icons(old(grid)@, MapNodeIcon::BurningElite),
        ensures
            next < 7,
            grid_placed(final(grid)@),
            edges_ok_except(final(grid)@, next + 7 * (y + 1)),
            no_crossing(final(grid)@),
            row_has(final(grid)@, y as int),
            forall|yy: int| 0 <= yy < 15 && #[trigger] row_has(old(grid)@, yy) ==> row_has(final(grid)@, yy),
            all_icons(final(grid)@, MapNodeIcon::BurningElite),
            extends_properly(old(probability).factors@, final(probability).factors@),
    {
        let index = (x + y * 7) as usize;
        proof {
            lemma_place(x as int, y as int);
        }
        let can_left = x != 0 && match grid[index - 1] {
            Some(n) => !n.right,
            None => true,
        };
        let can_right = x != 6 && match grid[index + 1] {
            Some(n) => !n.left,
            None => true,
        };
        let mut node = match grid[index] {
            Some(n) => n,
            None => MapNode { x, y, left: false, up: false, right: false, icon: MapNodeIcon::BurningElite },
        };
        proof {
            reveal(all_icons);
            reveal(grid_placed);
            assert(node.icon == MapNodeIcon::BurningElite);
            assert(node.x == x && node.y == y);
            if grid@[index as int] is Some {
                lemma_node_sides(grid@, x + 7 * y, index as int);
            }
        }
        let mut directions: Vec<Direction> = Vec::new();
        directions.push(Direction::Up);
        if can_left {
            directions.push(Direction::Left);
        }
        if can_right {
            directions.push(Direction::Right);
        }
        let ghost f0 = probability.factors@;
        proof {
            assert(extends_properly(f0, f0)) by {
                assert(f0.subrange(0, f0.len() as int) =~= f0);
            }
        }
        let direction = probability.choose_one(directions).unwrap();
        proof {
            lemma_extends_push(f0, f0, probability.factors@);
        }
        let ghost old_grid = grid@;
        let next = match direction {
            Direction::Left => {
                node.left = true;
                x - 1
            },
            Direction::Right => {
                node.right = true;
                x + 1
            },
            Direction::Up => {
                node.up = true;
                x
            },
        };
        grid[index] = Some(node);
        proof {
            let skip = next + 7 * (y + 1);
            assert(grid@ == old_grid.update(index as int, Some(node)));
            lemma_step_placed(old_grid, grid@, index as int, node);
            lemma_step_edges(old_grid, grid@, index as int, node, skip);
            lemma_step_crossing(old_grid, grid@, index as int, node);
            lemma_step_rows(old_grid, grid@, x as int, y as int, node);
            lemma_step_icons(old_grid, grid@, index as int, node);
        }
        next
    }

    /// Lays six paths from the bottom row to the top: each starts at a random column
    /// (the second not where the first did) and climbs up, left or right at random, never
    /// crossing a path already laid. Each node starts with no room yet.
    fn lay_paths(probability: &mut Probability) -> (res: [Option<MapNode>; 105])
        ensures
            grid_placed(res@),
            edges_ok(res@),
            no_crossing(res@),
            forall|y: int| 0 <= y < 15 ==> #[trigger] row_has(res@, y),
            all_icons(res@, MapNodeIcon::BurningElite),
            extends_properly(old(probability).factors@, final(probability).factors@),
    {
        let mut grid: [Option<MapNode>; 105] = [None; 105];
        let mut first_x: u8 = 0;
        let mut path_num: u8 = 0;
        proof {
            reveal(grid_placed);
            reveal(edges_ok_except);
            reveal(no_crossing);
            reveal(all_icons);
            assert(extends_properly(probability.factors@, probability.factors@)) by {
                assert(probability.factors@.subrange(0, probability.factors@.len() as int) =~= probability.factors@);
            }
        }
        while path_num < 6
            invariant
                0 <= path_num <= 6,
                first_x < 7,
                grid_placed(grid@),
                edges_ok(grid@),
                no_crossing(grid@),
                path_num >= 1 ==> forall|y: int| 0 <= y < 15 ==> #[trigger] row_has(grid@, y),
                all_icons(grid@, MapNodeIcon::BurningElite),
                extends_properly(old(probability).factors@, probability.factors@),
            decreases 6 - path_num,
        {
            let ghost f0 = probability.factors@;
            let mut next_x: u8 = if path_num != 1 {
                let drawn = probability.range(7);
                let nx = drawn as u8;
                if path_num == 0 {
                    first_x = nx;
                }
                nx
            } else {
                let drawn = probability.range(6);
                let nx = drawn as u8;
                if nx >= first_x {
                    nx + 1
                } else {
                    nx
                }
            };
            proof {
                lemma_extends_push(old(probability).factors@, f0, probability.factors@);
                lemma_edges_weaken(grid@, next_x as int);
            }
            let mut y: u8 = 0;
            while y < 15
                invariant
                    0 <= y <= 15,
                    next_x < 7,
                    0 <= path_num < 6,
                    first_x < 7,
                    grid_placed(grid@),
                    edges_ok_except(grid@, next_x + 7 * y),
                    no_crossing(grid@),
                    path_num == 0 ==> forall|yy: int| 0 <= yy < y ==> #[trigger] row_has(grid@, yy),
                    path_num >= 1 ==> forall|yy: int| 0 <= yy < 15 ==> #[trigger] row_has(grid@, yy),
                    all_icons(grid@, MapNodeIcon::BurningElite),
                    extends_properly(old(probability).factors@, probability.factors@),
                decreases 15 - y,
            {
                let ghost f1 = probability.factors@;
                let ghost g0 = grid@;
                next_x = Self::climb(&mut grid, next_x, y, probability);
                proof {
                    lemma_extends_trans(old(probability).factors@, f1, probability.factors@);
                    if path_num == 0 {
                        assert forall|yy: int| 0 <= yy < y + 1 implies #[trigger] row_has(grid@, yy) by {
                            if yy < y {
                                assert(row_has(g0, yy));
                            }
                        }
                    } else {
                        assert forall|yy: int| 0 <= yy < 15 implies #[trigger] row_has(grid@, yy) by {
                            assert(row_has(g0, yy));
                        }
                    }
                }
                y = y + 1;
            }
            proof {
                lemma_edges_done(grid@, next_x + 7 * 15);
            }
            path_num = path_num + 1;
        }
        grid
    }
}

/// A proper extension of a proper extension is a proper extension.
proof fn lemma_extends_trans(a: Seq<(u64, u64)>, b: Seq<(u64, u64)>, c: Seq<(u64, u64)>)
    requires
        extends_properly(a, b),
        extends_properly(b, c),
    ensures
        extends_properly(a, c),
{
    assert(c.subrange(0, a.len() as int) =~= c.subrange(0, b.len() as int).subrange(0, a.len() as int));
    assert forall|i: int| a.len() <= i < c.len() implies is_proper_factor(#[trigger] c[i]) by {
        if i < b.len() {
            assert(c[i] == c.subrange(0, b.len() as int)[i]);
        }
    }
}


/// Whether two grids hold nodes at the same places, with the same paths.
#[verifier::opaque]
pub open spec fn same_shape(a: Seq<Option<MapNode>>, b: Seq<Option<MapNode>>) -> bool {
    &&& a.len() == b.len()
    &&& forall|i: int| 0 <= i < a.len() ==> ((#[trigger] a[i]) is Some <==> b[i] is Some)
    &&& forall|i: int| 0 <= i < a.len() && (#[trigger] a[i]) is Some ==> {
        let (m, n) = (a[i].unwrap(), b[i].unwrap());
        m.x == n.x && m.y == n.y && m.left == n.left && m.up == n.up && m.right == n.right
    }
}

/// Grids of the same shape share placement, paths and rows.
proof fn lemma_same_shape(a: Seq<Option<MapNode>>, b: Seq<Option<MapNode>>)
    requires
        same_shape(a, b),
        grid_placed(a),
        edges_ok(a),
        no_crossing(a),
        forall|y: int| 0 <= y < 15 ==> #[trigger] row_has(a, y),
    ensures
        grid_placed(b),
        edges_ok(b),
        no_crossing(b),
        forall|y: int| 0 <= y < 15 ==> #[trigger] row_has(b, y),
{
    reveal(grid_placed);
    lemma_same_shape_placed(a, b);
    lemma_same_shape_edges(a, b);
    lemma_same_shape_crossing(a, b);
    assert forall|y: int| 0 <= y < 15 implies #[trigger] row_has(b, y) by {
        assert(row_has(a, y));
        let x = choose|x: int| 0 <= x < 7 && #[trigger] occupied(a, x, y);
        lemma_same_at(a, b, x + 7 * y);
        assert(occupied(b, x, y));
    }
}

/// Two grids of the same shape agree at a place.
proof fn lemma_same_at(a: Seq<Option<MapNode>>, b: Seq<Option<MapNode>>, j: int)
    requires
        same_shape(a, b),
        0 <= j < a.len(),
    ensures
        a[j] is Some <==> b[j] is Some,
        a[j] is Some ==> {
            let (m, n) = (a[j].unwrap(), b[j].unwrap());
            m.x == n.x && m.y == n.y && m.left == n.left && m.up == n.up && m.right == n.right
        },
{
    reveal(same_shape);
}

/// Grids of the same shape share placement.
proof fn lemma_same_shape_placed(a: Seq<Option<MapNode>>, b: Seq<Option<MapNode>>)
    requires
        same_shape(a, b),
        grid_placed(a),
    ensures
        grid_placed(b),
{
    reveal(grid_placed);
    assert(a.len() == b.len()) by {
        reveal(same_shape);
    }
    assert forall|i: int| 0 <= i < 105 && (#[trigger] b[i]) is Some implies b[i].unwrap().x == i % 7 && b[i].unwrap().y == i / 7 by {
        lemma_same_at(a, b, i);
    }
}

/// Grids of the same shape share their paths.
#[verifier::rlimit(50)]
proof fn lemma_same_shape_edges(a: Seq<Option<MapNode>>, b: Seq<Option<MapNode>>)
    requires
        same_shape(a, b),
        grid_placed(a),
        edges_ok(a),
    ensures
        edges_ok(b),
{
    reveal(edges_ok_except);
    reveal(grid_placed);
    assert(a.len() == b.len()) by {
        reveal(same_shape);
    }
    assert forall|i: int| 0 <= i < 105 && (#[trigger] b[i]) is Some implies {
        let n = b[i].unwrap();
        &&& n.left ==> n.x > 0
        &&& n.right ==> n.x < 6
        &&& n.y < 14 ==> {
            &&& n.up ==> (i + 7 == -1 || b[i + 7] is Some)
            &&& n.left ==> (i + 6 == -1 || b[i + 6] is Some)
            &&& n.right ==> (i + 8 == -1 || b[i + 8] is Some)
        }
    } by {
        lemma_same_at(a, b, i);
        assert(node_at(a, i) == a[i]);
        assert(node_at(b, i) == b[i]);
        let n = a[i].unwrap();
        vstd::arithmetic::div_mod::lemma_fundamental_div_mod(i, 7);
        if n.y < 14 {
            if n.up {
                lemma_same_at(a, b, i + 7);
            }
            if n.left {
                lemma_same_at(a, b, i + 6);
            }
            if n.right {
                lemma_same_at(a, b, i + 8);
            }
        }
    }
}

/// Grids of the same shape share the absence of crossings.
proof fn lemma_same_shape_crossing(a: Seq<Option<MapNode>>, b: Seq<Option<MapNode>>)
    requires
        same_shape(a, b),
        a.len() == 105,
        no_crossing(a),
    ensures
        no_crossing(b),
{
    reveal(no_crossing);
    assert(a.len() == b.len()) by {
        reveal(same_shape);
    }
    assert forall|i: int| 1 <= i < 105 && i % 7 != 0 && (#[trigger] b[i]) is Some && b[i - 1] is Some
        implies !(b[i].unwrap().left && b[i - 1].unwrap().right) by {
        lemma_same_at(a, b, i);
        lemma_same_at(a, b, i - 1);
    }
}

/// Whether a node is on a row whose room is fixed: the first, the ninth or the last.
pub open spec fn fixed_row(y: u8) -> bool {
    y == 0 || y == 8 || y == 14
}

/// The number of nodes among the first `k` places that are not on a fixed row.
pub open spec fn open_count(g: Seq<Option<MapNode>>, k: int) -> int
    decreases k,
{
    if k <= 0 {
        0
    } else {
        open_count(g, k - 1) + (if g[k - 1] matches Some(n) && !fixed_row(n.y) { 1int } else { 0 })
    }
}

/// The count of open nodes is at most the number of places counted.
proof fn lemma_open_count_bounded(g: Seq<Option<MapNode>>, k: int)
    requires
        0 <= k,
    ensures
        0 <= open_count(g, k) <= k,
    decreases k,
{
    if k > 0 {
        lemma_open_count_bounded(g, k - 1);
    }
}

/// The number of shops, rests, events and elites to place among `c` open nodes, each a
/// rounded share (5%, 12%, 22%, and 12.8% or 8% of elites), leaves room for the
/// monsters.
proof fn lemma_budgets_fit(c: int, k: int)
    requires
        0 <= c <= 105,
        k == 128 || k == 80,
    ensures
        (c * 50 + 500) / 1000 + (c * 120 + 500) / 1000 + (c * 220 + 500) / 1000 + (c * k + 500) / 1000 <= c,
{
    if c >= 5 {
        vstd::arithmetic::div_mod::lemma_fundamental_div_mod(c * 50 + 500, 1000);
        vstd::arithmetic::div_mod::lemma_fundamental_div_mod(c * 120 + 500, 1000);
        vstd::arithmetic::div_mod::lemma_fundamental_div_mod(c * 220 + 500, 1000);
        vstd::arithmetic::div_mod::lemma_fundamental_div_mod(c * k + 500, 1000);
        assert(c * k <= c * 128) by (nonlinear_arith)
            requires
                0 <= c,
                k <= 128,
        ;
    } else if c == 0 {
    } else if c == 1 {
    } else if c == 2 {
    } else if c == 3 {
    } else {
    }
}

/// The sum of the counts of the five kinds of room in a map of counts.
pub open spec fn budget_total(m: Map<MapNodeIcon, u8>) -> int {
    m[MapNodeIcon::Shop] + m[MapNodeIcon::Campfire] + m[MapNodeIcon::Question] + m[MapNodeIcon::Elite]
        + m[MapNodeIcon::Monster]
}

/// Whether a map of counts has exactly the five kinds of room.
pub open spec fn has_room_kinds(m: Map<MapNodeIcon, u8>) -> bool {
    m.dom() == set![MapNodeIcon::Shop, MapNodeIcon::Campfire, MapNodeIcon::Question, MapNodeIcon::Elite, MapNodeIcon::Monster]
}

impl MapState {
    /// Sets the fixed rooms (monsters on the first row, a chest on the ninth, a rest on
    /// the last) and counts the other nodes.
    fn mark_fixed_rows(grid: &mut [Option<MapNode>; 105]) -> (count: u8)
        requires
            all_icons(old(grid)@, MapNodeIcon::BurningElite),
        ensures
            same_shape(old(grid)@, final(grid)@),
            count == open_count(final(grid)@, 105),
            count <= 105,
            forall|i: int| 0 <= i < 105 && (#[trigger] final(grid)@[i]) is Some ==> {
                let n = final(grid)@[i].unwrap();
                if n.y == 0 {
                    n.icon == MapNodeIcon::Monster
                } else if n.y == 8 {
                    n.icon == MapNodeIcon::Chest
                } else if n.y == 14 {
                    n.icon == MapNodeIcon::Campfire
                } else {
                    n.icon == MapNodeIcon::BurningElite
                }
            },
    {
        proof {
            reveal(all_icons);
        }
        let ghost start = grid@;
        let mut count: u8 = 0;
        let mut i: usize = 0;
        proof {
            reveal(same_shape);
        }
        while i < 105
            invariant
                0 <= i <= 105,
                grid@.len() == 105,
                start.len() == 105,
                same_shape(start, grid@),
                all_icons(start, MapNodeIcon::BurningElite),
                count == open_count(grid@, i as int),
                count <= i,
                forall|j: int| i <= j < 105 ==> #[trigger] grid@[j] == start[j],
                forall|j: int| 0 <= j < i && (#[trigger] grid@[j]) is Some ==> {
                    let n = grid@[j].unwrap();
                    if n.y == 0 {
                        n.icon == MapNodeIcon::Monster
                    } else if n.y == 8 {
                        n.icon == MapNodeIcon::Chest
                    } else if n.y == 14 {
                        n.icon == MapNodeIcon::Campfire
                    } else {
                        n.icon == MapNodeIcon::BurningElite
                    }
                },
            decreases 105 - i,
        {
            let ghost before = grid@;
            match grid[i] {
                Some(node) => {
                    let mut n = node;
                    if n.y == 14 {
                        n.icon = MapNodeIcon::Campfire;
                    } else if n.y == 8 {
                        n.icon = MapNodeIcon::Chest;
                    } else if n.y == 0 {
                        n.icon = MapNodeIcon::Monster;
                    } else {
                        count = count + 1;
                    }
                    grid[i] = Some(n);
                    proof {
                        assert(grid@ == before.update(i as int, Some(n)));
                    }
                },
                None => {},
            }
            proof {
                lemma_open_count_same_prefix(before, grid@, i as int);
                assert forall|j: int| 0 <= j < i + 1 && (#[trigger] grid@[j]) is Some implies {
                    let n = grid@[j].unwrap();
                    if n.y == 0 {
                        n.icon == MapNodeIcon::Monster
                    } else if n.y == 8 {
                        n.icon == MapNodeIcon::Chest
                    } else if n.y == 14 {
                        n.icon == MapNodeIcon::Campfire
                    } else {
                        n.icon == MapNodeIcon::BurningElite
                    }
                } by {
                    reveal(all_icons);
                    if j < i {
                        assert(grid@[j] == before[j]);
                    } else {
                        assert(start[j] is Some);
                        assert(before[j] == start[j]);
                    }
                }
                assert forall|j: int| i + 1 <= j < 105 implies #[trigger] grid@[j] == start[j] by {
                    assert(grid@[j] == before[j]);
                }
                assert(same_shape(start, grid@)) by {
                    reveal(same_shape);
                    assert forall|j: int| 0 <= j < start.len() implies ((#[trigger] start[j]) is Some <==> grid@[j] is Some) by {
                        if j != i {
                            assert(grid@[j] == before[j]);
                        }
                    }
                    assert forall|j: int| 0 <= j < start.len() && (#[trigger] start[j]) is Some implies {
                        let (m, n) = (start[j].unwrap(), grid@[j].unwrap());
                        m.x == n.x && m.y == n.y && m.left == n.left && m.up == n.up && m.right == n.right
                    } by {
                        if j != i {
                            assert(grid@[j] == before[j]);
                        }
                    }
                }
            }
            i = i + 1;
        }
        count
    }
}

/// Grids that agree on the first `k` places, up to rooms, count as many open nodes
/// there.
proof fn lemma_open_count_same_prefix(a: Seq<Option<MapNode>>, b: Seq<Option<MapNode>>, k: int)
    requires
        0 <= k <= a.len(),
        a.len() == b.len(),
        forall|j: int| 0 <= j < k ==> ((#[trigger] a[j]) is Some <==> b[j] is Some),
        forall|j: int| 0 <= j < k && (#[trigger] a[j]) is Some ==> a[j].unwrap().y == b[j].unwrap().y,
    ensures
        open_count(a, k) == open_count(b, k),
    decreases k,
{
    if k > 0 {
        lemma_open_count_same_prefix(a, b, k - 1);
    }
}


/// Whether a kind of room is one of the five that nodes off the fixed rows are drawn
/// from.
pub open spec fn is_room_kind(icon: MapNodeIcon) -> bool {
    icon == MapNodeIcon::Shop || icon == MapNodeIcon::Campfire || icon == MapNodeIcon::Question
        || icon == MapNodeIcon::Elite || icon == MapNodeIcon::Monster
}

/// Whether a room drawn for a row is allowed there: one of the five kinds, no elite or
/// rest before the sixth row, and no rest on the row before the last.
pub open spec fn drawn_for_row(icon: MapNodeIcon, y: u8) -> bool {
    &&& is_room_kind(icon)
    &&& y < 5 ==> icon != MapNodeIcon::Elite && icon != MapNodeIcon::Campfire
    &&& y == 13 ==> icon != MapNodeIcon::Campfire
}

/// Whether the counts `o` are some of the counts `m`.
pub open spec fn counts_within(o: Map<MapNodeIcon, u8>, m: Map<MapNodeIcon, u8>) -> bool {
    forall|k: MapNodeIcon| #[trigger] o.contains_key(k) ==> m.contains_key(k) && o[k] == m[k]
}

/// Whether a list of choices offers each kind at its count in `o`.
pub open spec fn offers_counts(list: Seq<(MapNodeIcon, u8)>, o: Map<MapNodeIcon, u8>) -> bool {
    forall|j: int| 0 <= j < list.len() ==> o.contains_key((#[trigger] list[j]).0) && list[j].1 == o[list[j].0]
}

/// The counts without the room of a node, where there is one.
pub open spec fn without_room(m: Map<MapNodeIcon, u8>, o: Option<MapNode>) -> Map<MapNodeIcon, u8> {
    match o {
        Some(n) => m.remove(n.icon),
        None => m,
    }
}

/// The counts without the room of a parent, where there is one and it is no event or
/// monster.
pub open spec fn without_parent_room(m: Map<MapNodeIcon, u8>, p: Option<MapNode>) -> Map<MapNodeIcon, u8> {
    match p {
        Some(n) => if n.icon == MapNodeIcon::Question || n.icon == MapNodeIcon::Monster {
            m
        } else {
            m.remove(n.icon)
        },
        None => m,
    }
}

/// Whether a parent is present and has a path in the given direction.
pub open spec fn parent_goes(p: Option<MapNode>, d: Direction) -> bool {
    with_path(p, d) is Some
}

/// Whether no room of the counts is left to draw.
pub open spec fn options_spent(o: Map<MapNodeIcon, u8>) -> bool {
    forall|k: MapNodeIcon| #[trigger] o.contains_key(k) ==> o[k] == 0
}

impl MapState {
    /// The counts of the rooms a node at place `index` of grid `g` may be drawn from,
    /// out of the counts `all` (see `room_options`).
    pub open spec fn options_spec(&self, g: Seq<Option<MapNode>>, index: int, node: MapNode, all: Map<MapNodeIcon, u8>) -> Map<MapNodeIcon, u8> {
        let (l, d, r) = self.parents_spec(node);
        let m1 = if parent_goes(l, Direction::Left) { without_room(all, g[index - 2]) } else { all };
        let m2 = if parent_goes(l, Direction::Up) { without_room(m1, g[index - 1]) } else { m1 };
        let m3 = without_parent_room(m2, l);
        let m4 = if parent_goes(d, Direction::Left) { without_room(m3, g[index - 1]) } else { m3 };
        let m5 = without_parent_room(m4, d);
        let m6 = without_parent_room(m5, r);
        let m7 = if node.y < 5 { m6.remove(MapNodeIcon::Elite).remove(MapNodeIcon::Campfire) } else { m6 };
        if node.y == 13 { m7.remove(MapNodeIcon::Campfire) } else { m7 }
    }
}

impl MapState {
    /// Adds the count of a kind of room, where the counts have it, to a list of choices.
    fn offer_kind(
        options: &im::HashMap<MapNodeIcon, u8>,
        kind: MapNodeIcon,
        list: &mut Vec<(MapNodeIcon, u8)>,
        total: &mut u8,
        Ghost(bound): Ghost<int>,
        Ghost(all): Ghost<Map<MapNodeIcon, u8>>,
    )
        requires
            counts_within(icon_counts(*options), all),
            offers_counts(old(list)@, icon_counts(*options)),
            *old(total) == crate::state::probability::weight_total(old(list)@),
            *old(total) <= bound,
            all.contains_key(kind),
            bound + all[kind] <= 105,
        ensures
            offers_counts(final(list)@, icon_counts(*options)),
            *final(total) == crate::state::probability::weight_total(final(list)@),
            *final(total) <= bound + all[kind],
            final(list)@ == (if icon_counts(*options).contains_key(kind) {
                old(list)@.push((kind, icon_counts(*options)[kind]))
            } else {
                old(list)@
            }),
    {
        match icon_counts_get(options, kind) {
            Some(w) => {
                list.push((kind, w));
                *total = *total + w;
                proof {
                    reveal_with_fuel(crate::state::probability::weight_total, 2);
                    assert(list@.drop_last() =~= old(list)@);
                }
            },
            None => {},
        }
    }

    /// The counts of the rooms a node may be drawn from: those left, without the rooms of
    /// the node's parents (but events and monsters), of the nodes their other paths lead
    /// to, of elites and rests before the sixth row, and of rests on the row before the
    /// last. The parents are those of this map's present nodes.
    #[verifier::spinoff_prover]
    #[verifier::rlimit(40)]
    fn room_options(
        &self,
        grid: &[Option<MapNode>; 105],
        index: usize,
        node: MapNode,
        all: &im::HashMap<MapNodeIcon, u8>,
    ) -> (options: im::HashMap<MapNodeIcon, u8>)
        requires
            index < 105,
            node.x < 7,
            node.y < 15,
            node_index(node) == index,
        ensures
            icon_counts(options) == self.options_spec(grid@, index as int, node, icon_counts(*all)),
            counts_within(icon_counts(options), icon_counts(*all)),
            node.y < 5 ==> !icon_counts(options).contains_key(MapNodeIcon::Elite)
                && !icon_counts(options).contains_key(MapNodeIcon::Campfire),
            node.y == 13 ==> !icon_counts(options).contains_key(MapNodeIcon::Campfire),
    {
        let mut options = icon_counts_clone(all);
        let (left, down, right) = self.parents(node);
        match left {
            Some(lp) => {
                if lp.left {
                    match grid[index - 2] {
                        Some(n) => icon_counts_remove(&mut options, n.icon),
                        None => {},
                    }
                }
                if lp.up {
                    match grid[index - 1] {
                        Some(n) => icon_counts_remove(&mut options, n.icon),
                        None => {},
                    }
                }
                match lp.icon {
                    MapNodeIcon::Question | MapNodeIcon::Monster => {},
                    _ => icon_counts_remove(&mut options, lp.icon),
                }
            },
            None => {},
        }
        match down {
            Some(dp) => {
                if dp.left {
                    match grid[index - 1] {
                        Some(n) => icon_counts_remove(&mut options, n.icon),
                        None => {},
                    }
                }
                match dp.icon {
                    MapNodeIcon::Question | MapNodeIcon::Monster => {},
                    _ => icon_counts_remove(&mut options, dp.icon),
                }
            },
            None => {},
        }
        match right {
            Some(rp) => {
                match rp.icon {
                    MapNodeIcon::Question | MapNodeIcon::Monster => {},
                    _ => icon_counts_remove(&mut options, rp.icon),
                }
            },
            None => {},
        }
        if node.y < 5 {
            icon_counts_remove(&mut options, MapNodeIcon::Elite);
            icon_counts_remove(&mut options, MapNodeIcon::Campfire);
        }
        if node.y == 13 {
            icon_counts_remove(&mut options, MapNodeIcon::Campfire);
        }
        options
    }

    /// Draws the room of the node at place `index` from the counts that `room_options`
    /// leaves, by weight. `None`, with no draw, where no room is left to draw.
    fn pick_icon(
        &self,
        grid: &[Option<MapNode>; 105],
        index: usize,
        node: MapNode,
        all: &im::HashMap<MapNodeIcon, u8>,
        probability: &mut Probability,
    ) -> (res: Option<MapNodeIcon>)
        requires
            index < 105,
            node.x < 7,
            node.y < 15,
            node_index(node) == index,
            has_room_kinds(icon_counts(*all)),
            budget_total(icon_counts(*all)) <= 105,
        ensures
            res matches Some(icon) ==> drawn_for_row(icon, node.y) && icon_counts(*all)[icon] > 0,
            ({
                let o = self.options_spec(grid@, index as int, node, icon_counts(*all));
                &&& res is None <==> options_spent(o)
                &&& res matches Some(icon) ==> o.contains_key(icon) && o[icon] > 0
            }),
            extends_properly(old(probability).factors@, final(probability).factors@),
    {
        let options = self.room_options(grid, index, node, all);
        let ghost m = icon_counts(*all);
        let ghost o = icon_counts(options);
        let mut list: Vec<(MapNodeIcon, u8)> = Vec::new();
        let mut total: u8 = 0;
        proof {
            reveal_with_fuel(crate::state::probability::weight_total, 1);
        }
        Self::offer_kind(&options, MapNodeIcon::Shop, &mut list, &mut total, Ghost(0), Ghost(m));
        let ghost l1 = list@;
        Self::offer_kind(&options, MapNodeIcon::Campfire, &mut list, &mut total, Ghost(m[MapNodeIcon::Shop] as int), Ghost(m));
        let ghost l2 = list@;
        Self::offer_kind(&options, MapNodeIcon::Question, &mut list, &mut total, Ghost(m[MapNodeIcon::Shop] + m[MapNodeIcon::Campfire]), Ghost(m));
        let ghost l3 = list@;
        Self::offer_kind(&options, MapNodeIcon::Elite, &mut list, &mut total, Ghost(m[MapNodeIcon::Shop] + m[MapNodeIcon::Campfire] + m[MapNodeIcon::Question]), Ghost(m));
        let ghost l4 = list@;
        Self::offer_kind(&options, MapNodeIcon::Monster, &mut list, &mut total, Ghost(m[MapNodeIcon::Shop] + m[MapNodeIcon::Campfire] + m[MapNodeIcon::Question] + m[MapNodeIcon::Elite]), Ghost(m));
        if total == 0 {
            proof {
                assert(probability.factors@.subrange(0, probability.factors@.len() as int) =~= probability.factors@);
                crate::state::probability::lemma_zero_total_means_zero_weights(list@);
                let l = list@;
                assert(l1.len() <= l2.len() <= l3.len() <= l4.len() <= l.len());
                assert(forall|j: int| 0 <= j < l1.len() ==> l2[j] == l1[j]);
                assert(forall|j: int| 0 <= j < l2.len() ==> l3[j] == l2[j]);
                assert(forall|j: int| 0 <= j < l3.len() ==> l4[j] == l3[j]);
                assert(forall|j: int| 0 <= j < l4.len() ==> l[j] == l4[j]);
                assert forall|k: MapNodeIcon| #[trigger] o.contains_key(k) implies o[k] == 0 by {
                    assert(m.contains_key(k));
                    if k == MapNodeIcon::Shop {
                        assert(l[l1.len() - 1] == l1[l1.len() - 1]);
                    } else if k == MapNodeIcon::Campfire {
                        assert(l[l2.len() - 1] == l2[l2.len() - 1]);
                    } else if k == MapNodeIcon::Question {
                        assert(l[l3.len() - 1] == l3[l3.len() - 1]);
                    } else if k == MapNodeIcon::Elite {
                        assert(l[l4.len() - 1] == l4[l4.len() - 1]);
                    } else {
                        assert(m.dom().contains(k));
                        assert(k == MapNodeIcon::Monster);
                        assert(l[l.len() - 1] == (k, o[k]));
                    }
                }
            }
            return None;
        }
        let ghost f0 = probability.factors@;
        proof {
            assert(extends_properly(f0, f0)) by {
                assert(f0.subrange(0, f0.len() as int) =~= f0);
            }
        }
        let icon = *probability.choose_weighted(list.as_slice()).unwrap();
        proof {
            lemma_extends_push(f0, f0, probability.factors@);
            let k = choose|k: int| 0 <= k < list@.len() && list@[k].1 > 0 && Some(&icon) == Some(&list@[k].0)
                && probability.factors@ == f0.push((list@[k].1 as u64, crate::state::probability::weight_total(list@) as u64));
            assert(o.contains_key(list@[k].0));
            assert(list@[k].0 == icon);
        }
        Some(icon)
    }
}


/// Whether the room of a node is right for its row: the fixed room on a fixed row, else
/// one that `icon_ok` allows.
pub open spec fn node_room_ok(n: MapNode, icon_ok: spec_fn(MapNode) -> bool) -> bool {
    if n.y == 0 {
        n.icon == MapNodeIcon::Monster
    } else if n.y == 8 {
        n.icon == MapNodeIcon::Chest
    } else if n.y == 14 {
        n.icon == MapNodeIcon::Campfire
    } else {
        icon_ok(n)
    }
}

/// Whether every node of a grid has a room right for its row by `icon_ok`.
pub open spec fn rooms_ok(g: Seq<Option<MapNode>>, icon_ok: spec_fn(MapNode) -> bool) -> bool {
    forall|i: int| 0 <= i < g.len() && (#[trigger] g[i]) is Some ==> node_room_ok(g[i].unwrap(), icon_ok)
}

/// Whether a place holds a node off the fixed rows.
pub open spec fn is_open(o: Option<MapNode>) -> bool {
    o matches Some(n) && !fixed_row(n.y)
}

/// How many nodes off the fixed rows among the first `j` places of a grid have the
/// given room.
pub open spec fn placed_count(g: Seq<Option<MapNode>>, j: int, kind: MapNodeIcon) -> int
    decreases j,
{
    if j <= 0 {
        0
    } else {
        placed_count(g, j - 1, kind) + (if is_open(g[j - 1]) && g[j - 1].unwrap().icon == kind { 1int } else { 0int })
    }
}

/// The counts `b0` less the rooms that the open nodes among the first `j` places took.
pub open spec fn budget_left(b0: Map<MapNodeIcon, u8>, g: Seq<Option<MapNode>>, j: int) -> Map<MapNodeIcon, u8> {
    Map::new(|k: MapNodeIcon| b0.contains_key(k), |k: MapNodeIcon| (b0[k] - placed_count(g, j, k)) as u8)
}

/// The grid as it stood when place `j` was drawn: `g` before it, `start` from it on.
pub open spec fn grid_before(g: Seq<Option<MapNode>>, start: Seq<Option<MapNode>>, j: int) -> Seq<Option<MapNode>> {
    Seq::new(start.len(), |k: int| if k < j { g[k] } else { start[k] })
}

/// Counts over the first `j` places agree for grids that agree there.
proof fn lemma_placed_prefix(g1: Seq<Option<MapNode>>, g2: Seq<Option<MapNode>>, j: int, kind: MapNodeIcon)
    requires
        forall|k: int| 0 <= k < j ==> g1[k] == g2[k],
    ensures
        placed_count(g1, j, kind) == placed_count(g2, j, kind),
    decreases j,
{
    if j > 0 {
        lemma_placed_prefix(g1, g2, j - 1, kind);
    }
}

/// What is left of the counts after the first `j` places is the same for grids that
/// agree there.
proof fn lemma_budget_prefix(b0: Map<MapNodeIcon, u8>, g1: Seq<Option<MapNode>>, g2: Seq<Option<MapNode>>, j: int)
    requires
        forall|k: int| 0 <= k < j ==> g1[k] == g2[k],
    ensures
        budget_left(b0, g1, j) == budget_left(b0, g2, j),
{
    assert forall|kind: MapNodeIcon| #[trigger] placed_count(g1, j, kind) == placed_count(g2, j, kind) by {
        lemma_placed_prefix(g1, g2, j, kind);
    }
    assert(budget_left(b0, g1, j) =~= budget_left(b0, g2, j));
}

impl MapState {
    /// Whether the node at place `j` of `g`, drawn from `start` with the counts `b0`, got
    /// its room as `pick_icon` draws it: off the fixed rows, a room of which some count
    /// was left among its options, or the mark of an unplaced room where none was left.
    pub open spec fn node_drawn(&self, start: Seq<Option<MapNode>>, g: Seq<Option<MapNode>>, b0: Map<MapNodeIcon, u8>, j: int) -> bool {
        is_open(g[j]) ==> {
            let o = self.options_spec(grid_before(g, start, j), j, start[j].unwrap(), budget_left(b0, g, j));
            let icon = g[j].unwrap().icon;
            if icon == MapNodeIcon::BurningElite {
                options_spent(o)
            } else {
                o.contains_key(icon) && o[icon] > 0
            }
        }
    }
}

impl MapState {
    /// Draws a room for each node off the fixed rows, in the order of their places; a node
    /// for which no room is left keeps the mark of an unplaced room.
    fn assign_icons(&self, grid: &mut [Option<MapNode>; 105], all: &mut im::HashMap<MapNodeIcon, u8>, probability: &mut Probability)
        requires
            grid_placed(old(grid)@),
            rooms_ok(old(grid)@, |n: MapNode| n.icon == MapNodeIcon::BurningElite),
            has_room_kinds(icon_counts(*old(all))),
            budget_total(icon_counts(*old(all))) <= 105,
        ensures
            same_shape(old(grid)@, final(grid)@),
            rooms_ok(final(grid)@, |n: MapNode| n.icon == MapNodeIcon::BurningElite || drawn_for_row(n.icon, n.y)),
            forall|j: int| 0 <= j < 105 && !is_open(#[trigger] old(grid)@[j]) ==> final(grid)@[j] == old(grid)@[j],
            forall|j: int| 0 <= j < 105 ==> #[trigger] self.node_drawn(old(grid)@, final(grid)@, icon_counts(*old(all)), j),
            extends_properly(old(probability).factors@, final(probability).factors@),
    {
        let ghost start = grid@;
        let ghost b0 = icon_counts(*all);
        proof {
            assert(budget_left(b0, grid@, 0) =~= b0);
        }
        let ghost before_ok = |n: MapNode| n.icon == MapNodeIcon::BurningElite;
        let ghost after_ok = |n: MapNode| n.icon == MapNodeIcon::BurningElite || drawn_for_row(n.icon, n.y);
        proof {
            reveal(same_shape);
            reveal(grid_placed);
            assert(extends_properly(probability.factors@, probability.factors@)) by {
                assert(probability.factors@.subrange(0, probability.factors@.len() as int) =~= probability.factors@);
            }
        }
        let mut i: usize = 0;
        while i < 105
            invariant
                0 <= i <= 105,
                grid@.len() == 105,
                start.len() == 105,
                grid_placed(start),
                same_shape(start, grid@),
                after_ok == (|n: MapNode| n.icon == MapNodeIcon::BurningElite || drawn_for_row(n.icon, n.y)),
                rooms_ok(start, |n: MapNode| n.icon == MapNodeIcon::BurningElite),
                forall|j: int| i <= j < 105 ==> #[trigger] grid@[j] == start[j],
                forall|j: int| 0 <= j < i && (#[trigger] grid@[j]) is Some ==> node_room_ok(grid@[j].unwrap(), after_ok),
                has_room_kinds(icon_counts(*all)),
                budget_total(icon_counts(*all)) <= 105,
                extends_properly(old(probability).factors@, probability.factors@),
                b0 == icon_counts(*old(all)),
                has_room_kinds(b0),
                icon_counts(*all) == budget_left(b0, grid@, i as int),
                forall|k: MapNodeIcon| #[trigger] b0.contains_key(k) ==> 0 <= placed_count(grid@, i as int, k) <= b0[k],
                forall|j: int| 0 <= j < i && !is_open(#[trigger] start[j]) ==> grid@[j] == start[j],
                forall|j: int| 0 <= j < i ==> #[trigger] self.node_drawn(start, grid@, b0, j),
            decreases 105 - i,
        {
            let ghost before = grid@;
            let ghost f0 = probability.factors@;
            proof {
                assert(grid_before(before, start, i as int) =~= before);
            }
            match grid[i] {
                Some(node) => {
                    proof {
                        reveal(grid_placed);
                        assert(start[i as int] == grid@[i as int]);
                        lemma_place(node.x as int, node.y as int);
                        vstd::arithmetic::div_mod::lemma_fundamental_div_mod(i as int, 7);
                        assert(node_room_ok(start[i as int].unwrap(), |n: MapNode| n.icon == MapNodeIcon::BurningElite));
                    }
                    if !(node.y == 0 || node.y == 8 || node.y == 14) {
                        match self.pick_icon(grid, i, node, all, probability) {
                            Some(icon) => {
                                let ghost left = icon_counts(*all);
                                let mut n = node;
                                n.icon = icon;
                                grid[i] = Some(n);
                                let count = icon_counts_get(all, icon).unwrap();
                                icon_counts_insert(all, icon, count - 1);
                                proof {
                                    assert(grid@ == before.update(i as int, Some(n)));
                                    assert(icon_counts(*all).dom() =~= set![MapNodeIcon::Shop, MapNodeIcon::Campfire, MapNodeIcon::Question, MapNodeIcon::Elite, MapNodeIcon::Monster]);
                                    lemma_budget_prefix(b0, before, grid@, i as int);
                                    assert(grid_before(grid@, start, i as int) =~= before);
                                    assert(self.node_drawn(start, grid@, b0, i as int));
                                    assert forall|k: MapNodeIcon| #[trigger] placed_count(grid@, i + 1, k)
                                        == placed_count(before, i as int, k) + (if k == icon { 1int } else { 0int }) by {
                                        lemma_placed_prefix(before, grid@, i as int, k);
                                    }
                                    assert(b0.contains_key(icon));
                                    assert(left[icon] == b0[icon] - placed_count(before, i as int, icon));
                                    assert(icon_counts(*all) =~= budget_left(b0, grid@, i + 1));
                                }
                            },
                            None => {
                                proof {
                                    assert(self.node_drawn(start, grid@, b0, i as int));
                                    assert forall|k: MapNodeIcon| b0.contains_key(k) implies #[trigger] placed_count(grid@, i + 1, k)
                                        == placed_count(before, i as int, k) by {
                                    }
                                    assert(icon_counts(*all) =~= budget_left(b0, grid@, i + 1));
                                }
                            },
                        }
                        proof {
                            lemma_extends_trans(old(probability).factors@, f0, probability.factors@);
                        }
                    }
                },
                None => {},
            }
            proof {
                assert forall|j: int| 0 <= j < i + 1 && (#[trigger] grid@[j]) is Some implies node_room_ok(grid@[j].unwrap(), after_ok) by {
                    if j < i {
                        assert(grid@[j] == before[j]);
                    } else {
                        assert(start[j] is Some);
                        assert(node_room_ok(start[j].unwrap(), |n: MapNode| n.icon == MapNodeIcon::BurningElite));
                    }
                }
                assert forall|j: int| i + 1 <= j < 105 implies #[trigger] grid@[j] == start[j] by {
                    assert(grid@[j] == before[j]);
                }
                assert(same_shape(start, grid@)) by {
                    reveal(same_shape);
                    assert forall|j: int| 0 <= j < start.len() implies ((#[trigger] start[j]) is Some <==> grid@[j] is Some) by {
                        if j != i {
                            assert(grid@[j] == before[j]);
                        }
                    }
                    assert forall|j: int| 0 <= j < start.len() && (#[trigger] start[j]) is Some implies {
                        let (m, n) = (start[j].unwrap(), grid@[j].unwrap());
                        m.x == n.x && m.y == n.y && m.left == n.left && m.up == n.up && m.right == n.right
                    } by {
                        if j != i {
                            assert(grid@[j] == before[j]);
                        }
                    }
                }
            }
            proof {
                if !is_open(before[i as int]) {
                    assert(grid@ == before);
                    assert forall|k: MapNodeIcon| b0.contains_key(k) implies #[trigger] placed_count(grid@, i + 1, k)
                        == placed_count(before, i as int, k) by {
                    }
                    assert(icon_counts(*all) =~= budget_left(b0, grid@, i + 1));
                }
                assert forall|j: int| 0 <= j < i + 1 implies #[trigger] self.node_drawn(start, grid@, b0, j) by {
                    if j < i {
                        lemma_budget_prefix(b0, before, grid@, j);
                        assert(grid_before(grid@, start, j) =~= grid_before(before, start, j));
                        assert(grid@[j] == before[j]);
                        assert(self.node_drawn(start, before, b0, j));
                    }
                }
                assert forall|j: int| 0 <= j < i + 1 && !is_open(#[trigger] start[j]) implies grid@[j] == start[j] by {
                    if j < i {
                        assert(grid@[j] == before[j]);
                    }
                }
            }
            i = i + 1;
        }
        proof {
            assert forall|j: int| 0 <= j < grid@.len() && (#[trigger] grid@[j]) is Some implies node_room_ok(grid@[j].unwrap(), after_ok) by {
            }
        }
    }
}


impl MapState {
    /// Turns each node whose room is still unplaced into a monster.
    fn fill_monsters(grid: &mut [Option<MapNode>; 105])
        requires
            old(grid)@.len() == 105,
            rooms_ok(old(grid)@, |n: MapNode| n.icon == MapNodeIcon::BurningElite || drawn_for_row(n.icon, n.y)),
        ensures
            same_shape(old(grid)@, final(grid)@),
            rooms_ok(final(grid)@, |n: MapNode| drawn_for_row(n.icon, n.y)),
            forall|j: int| 0 <= j < 105 ==> #[trigger] final(grid)@[j] == filled_node(old(grid)@[j]),
    {
        let ghost start = grid@;
        let mut i: usize = 0;
        proof {
            reveal(same_shape);
        }
        while i < 105
            invariant
                0 <= i <= 105,
                grid@.len() == 105,
                start.len() == 105,
                same_shape(start, grid@),
                rooms_ok(start, |n: MapNode| n.icon == MapNodeIcon::BurningElite || drawn_for_row(n.icon, n.y)),
                forall|j: int| i <= j < 105 ==> #[trigger] grid@[j] == start[j],
                forall|j: int| 0 <= j < i && (#[trigger] grid@[j]) is Some ==> node_room_ok(grid@[j].unwrap(), |n: MapNode| drawn_for_row(n.icon, n.y)),
                forall|j: int| 0 <= j < i ==> #[trigger] grid@[j] == filled_node(start[j]),
            decreases 105 - i,
        {
            let ghost before = grid@;
            match grid[i] {
                Some(node) => {
                    if node.icon == MapNodeIcon::BurningElite {
                        let mut n = node;
                        n.icon = MapNodeIcon::Monster;
                        grid[i] = Some(n);
                    }
                },
                None => {},
            }
            proof {
                assert forall|j: int| 0 <= j < i + 1 && (#[trigger] grid@[j]) is Some implies node_room_ok(grid@[j].unwrap(), |n: MapNode| drawn_for_row(n.icon, n.y)) by {
                    if j < i {
                        assert(grid@[j] == before[j]);
                    } else {
                        assert(start[j] is Some);
                        assert(node_room_ok(start[j].unwrap(), |n: MapNode| n.icon == MapNodeIcon::BurningElite || drawn_for_row(n.icon, n.y)));
                    }
                }
                assert forall|j: int| i + 1 <= j < 105 implies #[trigger] grid@[j] == start[j] by {
                    assert(grid@[j] == before[j]);
                }
                assert(same_shape(start, grid@)) by {
                    reveal(same_shape);
                    assert forall|j: int| 0 <= j < start.len() implies ((#[trigger] start[j]) is Some <==> grid@[j] is Some) by {
                        if j != i {
                            assert(grid@[j] == before[j]);
                        }
                    }
                    assert forall|j: int| 0 <= j < start.len() && (#[trigger] start[j]) is Some implies {
                        let (m, n) = (start[j].unwrap(), grid@[j].unwrap());
                        m.x == n.x && m.y == n.y && m.left == n.left && m.up == n.up && m.right == n.right
                    } by {
                        if j != i {
                            assert(grid@[j] == before[j]);
                        }
                    }
                }
            }
            proof {
                assert forall|j: int| 0 <= j < i + 1 implies #[trigger] grid@[j] == filled_node(start[j]) by {
                    if j < i {
                        assert(grid@[j] == before[j]);
                    }
                }
            }
            i = i + 1;
        }
    }

    /// Draws which elite of the grid burns, where there is one; the grid keeps its rooms,
    /// as the drawn elite is marked on a copy of its node only.
    fn draw_burning_elite(grid: &[Option<MapNode>; 105], probability: &mut Probability)
        ensures
            extends_properly(old(probability).factors@, final(probability).factors@),
    {
        let mut elites: Vec<usize> = Vec::new();
        let mut i: usize = 0;
        while i < 105
            invariant
                0 <= i <= 105,
            decreases 105 - i,
        {
            match grid[i] {
                Some(node) => {
                    if node.icon == MapNodeIcon::Elite {
                        elites.push(i);
                    }
                },
                None => {},
            }
            i = i + 1;
        }
        let ghost f0 = probability.factors@;
        proof {
            assert(f0.subrange(0, f0.len() as int) =~= f0);
        }
        let drawn = probability.choose_one(elites);
        proof {
            if drawn is Some {
                lemma_extends_push(f0, f0, probability.factors@);
            }
        }
    }

    /// Generates the map of an act: six paths from bottom to top, then rooms. The first
    /// row is monsters, the ninth a chest, the last rests; the other nodes get, of their
    /// number, 5% shops, 12% rests, 22% events, 12.8% elites where elites are more
    /// common (8% otherwise) and monsters for the rest, each rounded, drawn node by node
    /// in order of place under the rules of `room_options`; a node left without a room
    /// is a monster. Where asked, a burning elite is drawn, which the map does not keep.
    pub fn generate(&mut self, more_elites: bool, burning_elite: bool, probability: &mut Probability)
        ensures
            grid_placed(final(self).nodes@),
            edges_ok(final(self).nodes@),
            no_crossing(final(self).nodes@),
            forall|y: int| 0 <= y < 15 ==> #[trigger] row_has(final(self).nodes@, y),
            rooms_ok(final(self).nodes@, |n: MapNode| drawn_for_row(n.icon, n.y)),
            exists|drawn: Seq<Option<MapNode>>| {
                &&& drawn.len() == 105
                &&& #[trigger] old(self).rooms_drawn(drawn, more_elites)
                &&& forall|j: int| 0 <= j < 105 ==> #[trigger] final(self).nodes@[j] == filled_node(drawn[j])
            },
            *final(self) == (MapState { nodes: final(self).nodes, ..*old(self) }),
            extends_properly(old(probability).factors@, final(probability).factors@),
    {
        let ghost f0 = probability.factors@;
        let mut grid = Self::lay_paths(probability);
        let ghost laid = grid@;
        proof {
            reveal(all_icons);
            reveal(grid_placed);
        }
        let count = Self::mark_fixed_rows(&mut grid);
        proof {
            lemma_same_shape(laid, grid@);
            reveal(grid_placed);
            assert(rooms_ok(grid@, |n: MapNode| n.icon == MapNodeIcon::BurningElite));
        }
        let c = count as u32;
        let k: u32 = if more_elites { 128 } else { 80 };
        let shops = (c * 50 + 500) / 1000;
        let rests = (c * 120 + 500) / 1000;
        let events = (c * 220 + 500) / 1000;
        let elites = (c * k + 500) / 1000;
        proof {
            lemma_budgets_fit(c as int, k as int);
        }
        let monsters = c - shops - rests - events - elites;
        let mut all = icon_counts_new();
        icon_counts_insert(&mut all, MapNodeIcon::Shop, shops as u8);
        icon_counts_insert(&mut all, MapNodeIcon::Campfire, rests as u8);
        icon_counts_insert(&mut all, MapNodeIcon::Question, events as u8);
        icon_counts_insert(&mut all, MapNodeIcon::Elite, elites as u8);
        icon_counts_insert(&mut all, MapNodeIcon::Monster, monsters as u8);
        proof {
            assert(icon_counts(all).dom() =~= set![MapNodeIcon::Shop, MapNodeIcon::Campfire, MapNodeIcon::Question, MapNodeIcon::Elite, MapNodeIcon::Monster]);
            assert(icon_counts(all) =~= room_budget(count as int, more_elites));
        }
        let ghost marked = grid@;
        let ghost b0 = icon_counts(all);
        let ghost f1 = probability.factors@;
        self.assign_icons(&mut grid, &mut all, probability);
        let ghost assigned = grid@;
        Self::fill_monsters(&mut grid);
        let ghost filled = grid@;
        let ghost f2 = probability.factors@;
        if burning_elite {
            Self::draw_burning_elite(&grid, probability);
            proof {
                lemma_extends_trans(f1, f2, probability.factors@);
            }
        }
        proof {
            lemma_same_shape_trans(laid, marked, assigned);
            lemma_same_shape_trans(laid, assigned, filled);
            lemma_same_shape(laid, filled);
            lemma_extends_trans(f0, f1, probability.factors@);
            assert(same_shape(marked, assigned));
            lemma_open_count_shape(marked, assigned, 105);
            assert(unplaced(assigned) =~= marked) by {
                reveal(same_shape);
                assert forall|j: int| 0 <= j < 105 implies #[trigger] unplaced(assigned)[j] == marked[j] by {
                    if is_open(marked[j]) {
                        assert(marked[j] is Some);
                        assert(assigned[j] is Some);
                    }
                }
            }
            assert(self.rooms_drawn(assigned, more_elites)) by {
                assert forall|j: int| 0 <= j < 105 implies #[trigger] self.node_drawn(unplaced(assigned), assigned, room_budget(open_count(assigned, 105), more_elites), j) by {
                    assert(self.node_drawn(marked, assigned, b0, j));
                }
            }
        }
        self.nodes = grid;
    }
}

/// The grid with the room of each open node reset to the mark of an unplaced room.
pub open spec fn unplaced(g: Seq<Option<MapNode>>) -> Seq<Option<MapNode>> {
    Seq::new(g.len(), |k: int| if is_open(g[k]) { Some(MapNode { icon: MapNodeIcon::BurningElite, ..g[k].unwrap() }) } else { g[k] })
}

/// A node whose room is still unplaced, as a monster.
pub open spec fn filled_node(o: Option<MapNode>) -> Option<MapNode> {
    match o {
        Some(n) => if n.icon == MapNodeIcon::BurningElite {
            Some(MapNode { icon: MapNodeIcon::Monster, ..n })
        } else {
            o
        },
        None => None,
    }
}

/// The counts of rooms to place among `c` open nodes: of their number, 5% shops, 12%
/// rests, 22% events, 12.8% elites where elites are more common (8% otherwise), each
/// rounded, and monsters for the rest.
pub open spec fn room_budget(c: int, more_elites: bool) -> Map<MapNodeIcon, u8> {
    let k: int = if more_elites { 128 } else { 80 };
    let shops = (c * 50 + 500) / 1000;
    let rests = (c * 120 + 500) / 1000;
    let events = (c * 220 + 500) / 1000;
    let elites = (c * k + 500) / 1000;
    map![
        MapNodeIcon::Shop => shops as u8,
        MapNodeIcon::Campfire => rests as u8,
        MapNodeIcon::Question => events as u8,
        MapNodeIcon::Elite => elites as u8,
        MapNodeIcon::Monster => (c - shops - rests - events - elites) as u8,
    ]
}

impl MapState {
    /// Whether the open nodes of `drawn` got their rooms place by place as `pick_icon`
    /// draws them, under this map's present nodes, from the counts for their number.
    pub open spec fn rooms_drawn(&self, drawn: Seq<Option<MapNode>>, more_elites: bool) -> bool {
        forall|j: int|
            0 <= j < 105 ==> #[trigger] self.node_drawn(unplaced(drawn), drawn, room_budget(open_count(drawn, 105), more_elites), j)
    }
}

/// A generated map places each node at its own place; its first row is monsters, its
/// ninth a chest and its last rests; no elite or rest comes before the sixth row, no
/// rest on the row before the last, and no node is a burning elite.
pub proof fn law_generated_rooms(g: Seq<Option<MapNode>>)
    requires
        grid_placed(g),
        rooms_ok(g, |n: MapNode| drawn_for_row(n.icon, n.y)),
    ensures
        forall|i: int| #![trigger g[i]] 0 <= i < 105 && g[i] is Some ==> {
            let n = g[i].unwrap();
            &&& node_index(n) == i
            &&& n.y == 0 ==> n.icon == MapNodeIcon::Monster
            &&& n.y == 8 ==> n.icon == MapNodeIcon::Chest
            &&& n.y == 14 ==> n.icon == MapNodeIcon::Campfire
            &&& 1 <= n.y < 5 ==> n.icon != MapNodeIcon::Elite && n.icon != MapNodeIcon::Campfire
            &&& n.y == 13 ==> n.icon != MapNodeIcon::Campfire
            &&& n.icon != MapNodeIcon::BurningElite
        },
{
    reveal(grid_placed);
    assert forall|i: int| #![trigger g[i]] 0 <= i < 105 && g[i] is Some implies node_index(g[i].unwrap()) == i by {
        vstd::arithmetic::div_mod::lemma_fundamental_div_mod(i, 7);
    }
}

/// Grids of the same shape have as many open nodes.
proof fn lemma_open_count_shape(a: Seq<Option<MapNode>>, b: Seq<Option<MapNode>>, k: int)
    requires
        same_shape(a, b),
        0 <= k <= a.len(),
    ensures
        open_count(a, k) == open_count(b, k),
    decreases k,
{
    if k > 0 {
        reveal(same_shape);
        assert(a[k - 1] is Some <==> b[k - 1] is Some);
        lemma_open_count_shape(a, b, k - 1);
    }
}

/// Sameness of shape carries over.
proof fn lemma_same_shape_trans(a: Seq<Option<MapNode>>, b: Seq<Option<MapNode>>, c: Seq<Option<MapNode>>)
    requires
        same_shape(a, b),
        same_shape(b, c),
    ensures
        same_shape(a, c),
{
    reveal(same_shape);
    assert forall|i: int| 0 <= i < a.len() && (#[trigger] a[i]) is Some implies {
        let (m, n) = (a[i].unwrap(), c[i].unwrap());
        m.x == n.x && m.y == n.y && m.left == n.left && m.up == n.up && m.right == n.right
    } by {
        assert(b[i] is Some);
    }
}

} // verus!
