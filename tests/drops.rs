use survival_core::combat::{SoundEvent, XpDropEvent};
use survival_core::geometry::{Point, Steer};
use survival_core::pickup::{attract_all_items, drop_xp, spawn_xp, PickupType, XpShard, ATTRACT_SPEED};
use survival_core::progression::Xp;
use survival_core::rng::{chance_one_in, random_in_range};
use survival_core::tree::{
    drop_wood, handle_tree_death, spawn_trees, tree_death_outcome, update_trees, ItemDropEvent,
    PlacedTree, Tree, TreeDiedEvent, TreeState, TREE_HEALTH,
};
use survival_core::turret::{spawn_turret, Turret};

fn placed(id: u64, x: i32, tree: Tree) -> PlacedTree {
    PlacedTree { id, position: Point::new(x, 0), tree }
}

#[test]
fn update_trees_announces_each_dead_tree_once() {
    let mut dead = Tree::new(TREE_HEALTH);
    dead.state = TreeState::Dead;
    dead.health = -5;
    let mut falling = Tree::new(TREE_HEALTH);
    falling.health = 0;
    let mut trees = vec![placed(1, 0, Tree::new(TREE_HEALTH)), placed(2, 10, dead), placed(3, 30, falling), placed(4, 50, dead)];
    let events = update_trees(&mut trees);
    assert_eq!(events, vec![TreeDiedEvent(2, Point::new(10, 0), 100), TreeDiedEvent(4, Point::new(50, 0), 100)]);
    assert_eq!(trees[0].tree.state, TreeState::Standing);
    assert_eq!(trees[2].tree.state, TreeState::Falling);
}

#[test]
fn tree_death_removes_tree_and_scatters_drops() {
    for _ in 0..100 {
        let mut trees = vec![placed(1, 0, Tree::new(TREE_HEALTH)), placed(3, 7, Tree::new(TREE_HEALTH))];
        let out = handle_tree_death(&mut trees, &TreeDiedEvent(3, Point::new(7, 8), 100));
        assert_eq!(trees.len(), 1);
        assert_eq!(trees[0].id, 1);
        assert!((1..=4).contains(&out.shards.len()));
        for s in &out.shards {
            assert_eq!(*s, XpShard { position: Point::new(7, 8), value: 100, attracted: false });
        }
        match out.wood {
            ItemDropEvent::Wood(n, p) => {
                assert!((1..=10).contains(&n));
                assert_eq!(p, Point::new(7, 8));
            }
        }
        assert_eq!(out.sound, SoundEvent::TreeHitGround);
    }
}

#[test]
fn tree_death_of_removed_tree_is_harmless() {
    let mut trees = vec![placed(1, 0, Tree::new(TREE_HEALTH))];
    handle_tree_death(&mut trees, &TreeDiedEvent(9, Point::new(0, 0), 100));
    assert_eq!(trees.len(), 1);
}

#[test]
fn tree_death_outcome_for_given_counts() {
    let out = tree_death_outcome(&TreeDiedEvent(1, Point::new(2, 3), 100), 3, 7);
    assert_eq!(out.shards, vec![XpShard { position: Point::new(2, 3), value: 100, attracted: false }; 3]);
    assert_eq!(out.wood, ItemDropEvent::Wood(7, Point::new(2, 3)));
    assert_eq!(out.sound, SoundEvent::TreeHitGround);
}

#[test]
fn drop_wood_makes_as_many_pieces_as_asked() {
    let mut next = 40u64;
    let pieces = drop_wood(&mut next, Point::new(5, 100), 2);
    assert_eq!(pieces.len(), 2);
    assert_eq!(next, 42);
    assert_eq!(pieces[0].id, 40);
    assert_eq!(pieces[1].id, 41);
    assert_eq!(pieces[1].position, Point::new(5, 50));
    assert_eq!(pieces[1].kind, PickupType::Item);
    assert_eq!(drop_wood(&mut next, Point::new(0, 0), 1).len(), 1);
    assert!(drop_wood(&mut next, Point::new(0, 0), 0).is_empty());
}

#[test]
fn spawned_trees_are_fresh_and_distinct() {
    let mut next = 0u64;
    let trees = spawn_trees(&mut next);
    assert_eq!(next, trees.len() as u64);
    let mut seen = std::collections::HashSet::new();
    for (k, t) in trees.iter().enumerate() {
        assert_eq!(t.id, k as u64);
        assert_eq!(t.tree, Tree::new(TREE_HEALTH));
        assert_eq!(t.tree.state, TreeState::Standing);
        assert!(seen.insert((t.position.x, t.position.y)));
    }
}

#[test]
fn xp_drops_become_shards() {
    assert_eq!(drop_xp(Xp(7), Point::new(1, 1)), XpShard { position: Point::new(1, 1), value: 7, attracted: false });
    let shards = spawn_xp(&vec![
        XpDropEvent { position: Point::new(1, 2), xp: 10 },
        XpDropEvent { position: Point::new(3, 4), xp: 7 },
    ]);
    assert_eq!(shards.len(), 2);
    assert_eq!(shards[1].position, Point::new(3, 4));
    assert_eq!(shards[1].value, 10);
}

#[test]
fn attracted_items_fly_to_player() {
    let shards = vec![
        XpShard { position: Point::new(1, 2), value: 1, attracted: true },
        XpShard { position: Point::new(3, 4), value: 1, attracted: false },
    ];
    let steers = attract_all_items(Point::new(9, 9), &shards);
    assert_eq!(steers, vec![Steer::Toward(Point::new(9, 9), ATTRACT_SPEED), Steer::Keep]);
}

#[test]
fn spawn_turret_matches_new() {
    assert_eq!(spawn_turret(Point::new(3, 3)), Turret::new(Point::new(3, 3)));
    assert_eq!(spawn_turret(Point::new(3, 3)).view_range, 350);
}

#[test]
fn random_in_range_stays_in_bounds() {
    let mut seen_low = false;
    let mut seen_high = false;
    for _ in 0..500 {
        let v = random_in_range(-2, 2);
        assert!((-2..=2).contains(&v));
        seen_low |= v == -2;
        seen_high |= v == 2;
    }
    assert!(seen_low && seen_high);
    assert_eq!(random_in_range(5, 5), 5);
}

#[test]
fn chance_one_in_one_is_certain() {
    for _ in 0..50 {
        assert!(chance_one_in(1));
    }
    let hits = (0..2000).filter(|_| chance_one_in(2)).count();
    assert!(hits > 700 && hits < 1300);
}
