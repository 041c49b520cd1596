use survival_core::combat::SoundEvent;
use survival_core::geometry::Point;
use survival_core::player::PLAYER_GATHER_DAMAGE;
use survival_core::spawner::{new_spawner_position, RepeatingTimer, SpawnerSpawnTimer, MAX_SPAWNERS};
use survival_core::tree::{
    cut_selected_tree, cut_tree, scatter_trees, select_tree, tree_death_drops, trees_from_draws,
    CutOutcome, Gathering, ItemDropEvent, PlacedTree, Tree, TreeState, CUT_COOLDOWN, TREE_HEALTH,
};

#[test]
fn repeating_timer_fires_each_period() {
    let mut t = RepeatingTimer::new(10_000);
    assert!(!t.tick(9_999));
    assert!(t.tick(1));
    assert_eq!(t.elapsed_ms, 0);
    assert!(t.tick(25_000));
    assert_eq!(t.elapsed_ms, 5_000);
}

#[test]
fn spawner_counts_spawns_and_deaths() {
    let mut s = SpawnerSpawnTimer::new(1_000, 16);
    let mut spawned = 0u32;
    for _ in 0..5 {
        if s.tick(1_000) {
            spawned += 1;
        }
    }
    assert_eq!(spawned, 5);
    s.on_death();
    s.on_death();
    assert_eq!(s.alive_now, 3);
}

#[test]
fn spawner_respects_cap() {
    let mut s = SpawnerSpawnTimer::new(10, 2);
    let mut spawned = 0u32;
    for _ in 0..10 {
        if s.tick(10) {
            spawned += 1;
        }
    }
    assert_eq!(spawned, 2);
    assert_eq!(s.alive_now, 2);
    s.on_death();
    assert!(s.tick(10));
    assert_eq!(s.alive_now, 2);
}

#[test]
fn spawner_death_saturates_at_zero() {
    let mut s = SpawnerSpawnTimer::new(10, 2);
    s.on_death();
    assert_eq!(s.alive_now, 0);
}

#[test]
fn spawner_placement_respects_global_cap() {
    let player = Point::new(100, -100);
    assert!(new_spawner_position(MAX_SPAWNERS, player).is_none());
    for _ in 0..50 {
        let q = new_spawner_position(3, player).unwrap();
        let dx = (q.x - player.x) as i64;
        let dy = (q.y - player.y) as i64;
        let d2 = dx * dx + dy * dy;
        assert!(d2 <= 8000 * 8000);
        assert!(d2 >= 2000 * 2000);
        assert!(d2 < 8000 * 8000);
    }
}

#[test]
fn tree_falls_after_third_hit_and_dies_after_eighteen_ticks() {
    let mut tree = Tree::new(100);
    let mut g = Gathering::new(40, 64);
    for hit in 0..3 {
        assert_eq!(cut_tree(&mut g, &mut tree, false), CutOutcome::Hit { drops_wood: false });
        assert!(!tree.update());
        if hit < 2 {
            assert_eq!(tree.state, TreeState::Standing);
            assert_eq!(cut_tree(&mut g, &mut tree, false), CutOutcome::NotReady);
            for _ in 0..CUT_COOLDOWN {
                g.tick();
                tree.tick_iframes();
            }
        }
    }
    assert_eq!(tree.health, -20);
    assert_eq!(tree.state, TreeState::Falling);
    for _ in 0..17 {
        assert!(!tree.update());
        assert_eq!(tree.state, TreeState::Falling);
    }
    assert!(!tree.update());
    assert_eq!(tree.state, TreeState::Dead);
    assert_eq!(tree.rotation_mrad, 720);
    assert!(tree.update());
    assert!(tree.update());
}

#[test]
fn tree_not_cut_while_invulnerable() {
    let mut tree = Tree::new(100);
    tree.iframes = 1;
    let mut g = Gathering::new(40, 64);
    assert_eq!(cut_tree(&mut g, &mut tree, true), CutOutcome::NotReady);
    assert_eq!(tree.health, 100);
    tree.tick_iframes();
    assert_eq!(cut_tree(&mut g, &mut tree, true), CutOutcome::Hit { drops_wood: true });
    assert_eq!(tree.health, 60);
    assert_eq!(tree.iframes, CUT_COOLDOWN);
    assert_eq!(g.cooldown, CUT_COOLDOWN);
}

#[test]
fn select_tree_picks_nearest_under_cursor_in_reach() {
    let trees = vec![Point::new(0, 0), Point::new(20, 0), Point::new(10, 0), Point::new(500, 0)];
    assert_eq!(select_tree(Point::new(12, 0), Point::new(0, 0), 64, &trees), Some(2));
    assert_eq!(select_tree(Point::new(5, 0), Point::new(0, 0), 64, &trees), Some(0));
    assert_eq!(select_tree(Point::new(250, 0), Point::new(0, 0), 64, &trees), None);
    assert_eq!(select_tree(Point::new(500, 0), Point::new(0, 0), 64, &trees), None);
    assert_eq!(select_tree(Point::new(500, 0), Point::new(480, 0), 64, &trees), Some(3));
}

#[test]
fn select_tree_first_of_equals_wins() {
    let trees = vec![Point::new(10, 0), Point::new(-10, 0)];
    assert_eq!(select_tree(Point::new(0, 0), Point::new(0, 0), 64, &trees), Some(0));
}

#[test]
fn cutting_selected_tree_clears_selection() {
    let mut trees = vec![
        PlacedTree { id: 1, position: Point::new(0, 0), tree: Tree::new(TREE_HEALTH) },
        PlacedTree { id: 2, position: Point::new(40, 0), tree: Tree::new(TREE_HEALTH) },
    ];
    let mut g = Gathering::new(PLAYER_GATHER_DAMAGE, 64);
    let mut sel = Some(1usize);
    assert_eq!(cut_selected_tree(false, &mut sel, &mut g, &mut trees), None);
    let rep = cut_selected_tree(true, &mut sel, &mut g, &mut trees).unwrap();
    assert!(matches!(rep.outcome, CutOutcome::Hit { .. }));
    assert_eq!(rep.sound, Some(SoundEvent::AttackTree));
    match rep.outcome {
        CutOutcome::Hit { drops_wood: true } => assert_eq!(rep.wood, Some(ItemDropEvent::Wood(1, Point::new(40, 0)))),
        _ => assert_eq!(rep.wood, None),
    }
    assert_eq!(sel, None);
    assert_eq!(trees[1].tree.health, 800);
    assert_eq!(trees[0].tree.health, 1000);
    let mut sel = Some(1usize);
    let rep = cut_selected_tree(true, &mut sel, &mut g, &mut trees).unwrap();
    assert_eq!(rep.outcome, CutOutcome::NotReady);
    assert_eq!(rep.sound, None);
    assert_eq!(sel, Some(1));
}

#[test]
fn trees_grow_where_draws_are_true() {
    let mut draws = vec![false; 4001];
    draws[0] = true;
    draws[2001] = true;
    draws[4000] = true;
    assert_eq!(
        trees_from_draws(&draws),
        vec![Point::new(-10_000, -10_000), Point::new(-9_990, -9_990), Point::new(-9_980, -10_000)]
    );
    assert!(trees_from_draws(&vec![false; 10]).is_empty());
}

#[test]
fn tree_drops_are_in_range() {
    for _ in 0..200 {
        let d = tree_death_drops();
        assert!((1..=4).contains(&d.xp_shards));
        assert!((1..=10).contains(&d.wood));
    }
}

#[test]
fn scattered_trees_lie_on_grid() {
    let trees = scatter_trees();
    assert!(!trees.is_empty());
    for t in &trees {
        assert_eq!(t.x % 10, 0);
        assert_eq!(t.y % 10, 0);
        assert!(t.x >= -10_000 && t.x < 10_000);
        assert!(t.y >= -10_000 && t.y < 10_000);
    }
}
