use spireai::state::map::{MapNodeIcon, MapState};
use spireai::state::probability::Probability;

fn generated(more_elites: bool, burning: bool) -> MapState {
    let mut map = MapState::new();
    let mut probability = Probability::new();
    map.generate(more_elites, burning, &mut probability);
    map
}

#[test]
fn new_map_is_empty_before_the_first_floor() {
    let map = MapState::new();
    assert!(map.nodes.iter().all(|n| n.is_none()));
    assert_eq!(map.floor, -1);
    assert_eq!(map.index, None);
}

#[test]
fn generated_map_has_a_node_on_every_row() {
    for _ in 0..20 {
        let map = generated(false, false);
        for y in 0..15 {
            assert!((0..7).any(|x| map.nodes[y * 7 + x].is_some()), "row {} is empty", y);
        }
    }
}

#[test]
fn generated_map_has_fixed_rows() {
    for _ in 0..20 {
        let map = generated(true, false);
        for x in 0..7 {
            if let Some(n) = map.nodes[x] {
                assert_eq!(n.icon, MapNodeIcon::Monster);
            }
            if let Some(n) = map.nodes[8 * 7 + x] {
                assert_eq!(n.icon, MapNodeIcon::Chest);
            }
            if let Some(n) = map.nodes[14 * 7 + x] {
                assert_eq!(n.icon, MapNodeIcon::Campfire);
            }
        }
    }
}

#[test]
fn generated_nodes_sit_where_they_say() {
    let map = generated(false, true);
    for (i, node) in map.nodes.iter().enumerate() {
        if let Some(n) = node {
            assert_eq!(n.index(), i);
            assert_eq!(n.y as usize, i / 7);
            assert_eq!(n.x as usize, i % 7);
        }
    }
}

#[test]
fn burning_elite_is_drawn_but_not_kept() {
    for _ in 0..20 {
        let mut map = MapState::new();
        let mut probability = Probability::new();
        map.generate(true, true, &mut probability);
        assert!(map.nodes.iter().all(|n| !matches!(n, Some(node) if node.icon == MapNodeIcon::BurningElite)));
        let elites = map.nodes.iter().filter(|n| matches!(n, Some(node) if node.icon == MapNodeIcon::Elite)).count();
        if elites > 0 {
            assert_eq!(probability.factors.last(), Some(&(1, elites as u64)));
        }
    }
}

#[test]
fn rooms_stay_within_their_shares() {
    for more_elites in [false, true] {
        for _ in 0..20 {
            let map = generated(more_elites, false);
            let open: Vec<_> = map.nodes.iter().flatten().filter(|n| n.y != 0 && n.y != 8 && n.y != 14).collect();
            let c = open.len() as u32;
            let k: u32 = if more_elites { 128 } else { 80 };
            let count = |icon: MapNodeIcon| open.iter().filter(|n| n.icon == icon).count() as u32;
            assert!(count(MapNodeIcon::Shop) <= (c * 50 + 500) / 1000);
            assert!(count(MapNodeIcon::Campfire) <= (c * 120 + 500) / 1000);
            assert!(count(MapNodeIcon::Question) <= (c * 220 + 500) / 1000);
            assert!(count(MapNodeIcon::Elite) <= (c * k + 500) / 1000);
            assert_eq!(
                count(MapNodeIcon::Shop) + count(MapNodeIcon::Campfire) + count(MapNodeIcon::Question)
                    + count(MapNodeIcon::Elite) + count(MapNodeIcon::Monster),
                c
            );
        }
    }
}

#[test]
fn edges_stay_on_the_map() {
    for _ in 0..20 {
        let map = generated(false, false);
        for node in map.nodes.iter().flatten() {
            if node.left {
                assert!(node.x > 0);
            }
            if node.right {
                assert!(node.x < 6);
            }
            if node.y == 14 {
                continue;
            }
            let above = (node.y as usize + 1) * 7;
            if node.left {
                assert!(node.x > 0);
                assert!(map.nodes[above + node.x as usize - 1].is_some());
            }
            if node.up {
                assert!(map.nodes[above + node.x as usize].is_some());
            }
            if node.right {
                assert!(node.x < 6);
                assert!(map.nodes[above + node.x as usize + 1].is_some());
            }
        }
    }
}
