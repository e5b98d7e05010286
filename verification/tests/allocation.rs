use std::collections::VecDeque;
use workspace_colours::allocator::{
    adjacent_in, colour_before, fewest_clashes, legacy_raw, parent_stream, starting_colour, Tab, Workspace,
    HISTORY_LIMIT, LARGE_BANK, SAMPLE_LIMIT, SMALL_BANK, UNASSIGNED,
};
use workspace_colours::rng::Rng;

fn ids(names: &[&str]) -> Vec<String> {
    names.iter().map(|s| s.to_string()).collect()
}

fn workspace_with(tabs: &[(&str, usize)]) -> Workspace {
    let mut w = Workspace::new(3, 77, 5);
    w.tabs = tabs
        .iter()
        .map(|(id, colour)| Tab { id: id.to_string(), colour: *colour })
        .collect();
    w
}

#[test]
fn new_workspace_seeds_its_streams() {
    let w = Workspace::new(2, 40, 9);
    assert_eq!(w.theme, 2);
    assert_eq!(w.seed, 40);
    assert_eq!(w.raw, SMALL_BANK);
    assert_eq!(w.parent, 9);
    assert_eq!(w.allocation.0, 40 ^ 0x118);
    assert_eq!(w.movement.0, 40 ^ 0x119);
    assert!(w.tabs.is_empty() && w.history.is_empty());
    assert_eq!(parent_stream(40).0, 40 ^ 0x117);
    assert_eq!(legacy_raw(), LARGE_BANK);
}

#[test]
fn reconcile_with_the_same_ids_is_a_no_op() {
    let mut w = workspace_with(&[("a", 1), ("b", 2)]);
    let allocation = w.allocation.0;
    assert!(w.reconcile_begin(&ids(&["a", "b"])).is_none());
    assert_eq!(w.tabs.len(), 2);
    assert_eq!(w.tabs[1].colour, 2);
    assert_eq!(w.allocation.0, allocation);
}

#[test]
fn colours_follow_ids_and_new_tabs_are_unassigned() {
    let mut w = workspace_with(&[("a", 1), ("b", 2), ("c", 3)]);
    let plan = w.reconcile_begin(&ids(&["c", "new", "a"])).expect("changed");
    let shown: Vec<(String, usize)> = w.tabs.iter().map(|t| (t.id.clone(), t.colour)).collect();
    assert_eq!(
        shown,
        vec![("c".to_string(), 3), ("new".to_string(), UNASSIGNED), ("a".to_string(), 1)]
    );
    assert_eq!(plan.before.len(), 3);
    assert_eq!(plan.moved, None);
    assert!(w.reconcile_begin(&ids(&["c", "new", "a"])).is_none());
}

#[test]
fn a_single_move_is_identified() {
    let mut w = workspace_with(&[("a", 1), ("b", 2), ("c", 3), ("d", 4)]);
    let plan = w.reconcile_begin(&ids(&["b", "c", "d", "a"])).expect("changed");
    assert_eq!(plan.moved, Some(3));
    assert_eq!(plan.moved_pos, Some(3));
    let plan = w.reconcile_begin(&ids(&["b", "d", "c", "a"])).expect("changed");
    assert_eq!(plan.moved, Some(1));
    assert_eq!(plan.moved_pos, Some(1));
}

#[test]
fn a_batch_rotation_has_no_single_move_and_keeps_every_colour() {
    let names: Vec<String> = (0..16).map(|i| format!("tab-{i}")).collect();
    let mut w = Workspace::new(0, 1, 0);
    w.tabs = names.iter().enumerate().map(|(i, id)| Tab { id: id.clone(), colour: i }).collect();
    let mut rotated = names.clone();
    rotated.rotate_left(4);
    let plan = w.reconcile_begin(&rotated).expect("changed");
    assert_eq!(plan.moved, None);
    for t in &w.tabs {
        assert_ne!(t.colour, UNASSIGNED);
        let i: usize = t.id.trim_start_matches("tab-").parse().unwrap();
        assert_eq!(t.colour, i);
    }
}

#[test]
fn duplicate_ids_take_the_last_colour() {
    let tabs = vec![
        Tab { id: "x".into(), colour: 1 },
        Tab { id: "y".into(), colour: 2 },
        Tab { id: "x".into(), colour: 3 },
    ];
    assert_eq!(colour_before(&tabs, &"x".to_string()), 3);
    assert_eq!(colour_before(&tabs, &"z".to_string()), UNASSIGNED);
    assert!(adjacent_in(&tabs, &"x".to_string(), &"y".to_string()));
    assert!(adjacent_in(&tabs, &"y".to_string(), &"x".to_string()));
    assert!(!adjacent_in(&tabs, &"x".to_string(), &"x".to_string()));
}

#[test]
fn history_keeps_the_newest_sixteen() {
    let mut w = Workspace::new(0, 1, 0);
    for c in 0..40 {
        w.remember(c);
        assert!(w.history.len() <= HISTORY_LIMIT);
    }
    assert_eq!(w.history.front(), Some(&24));
    assert_eq!(w.history.back(), Some(&39));
}

#[test]
fn neighbours_are_the_adjacent_positions() {
    let w = workspace_with(&[("a", 0), ("b", 0), ("c", 0)]);
    assert_eq!(w.neighbours(0), vec![1]);
    assert_eq!(w.neighbours(1), vec![0, 2]);
    assert_eq!(w.neighbours(2), vec![1]);
    assert_eq!(w.neighbours(usize::MAX), vec![usize::MAX - 1]);
    assert!(workspace_with(&[("a", 0)]).neighbours(0).is_empty());
}

#[test]
fn restore_checks_theme_bank_size_and_indices() {
    let mut w = workspace_with(&[("a", 10), ("b", 20)]);
    w.history = VecDeque::from(vec![1, 2, 3]);
    assert!(w.restorable(4));
    assert!(w.restore(4, 100));
    assert!(!w.restore(3, 100));
    assert!(!w.restore(4, 20));
    w.raw = 2048;
    assert!(!w.restorable(4));
    w.raw = LARGE_BANK;
    w.history = (0..17).collect();
    assert!(!w.restore(4, 100));
}

#[test]
fn fewest_clashes_keeps_the_least_clashing_in_bank_order() {
    let (min, candidates) = fewest_clashes(&vec![2, 1, 0, 1, 0]);
    assert_eq!(min, 0);
    assert_eq!(candidates, vec![2, 4]);
    let (min, candidates) = fewest_clashes(&vec![]);
    assert_eq!(min, usize::MAX);
    assert!(candidates.is_empty());
}

#[test]
fn feasible_reuse_prefers_fresh_colours_unless_none_left() {
    let mut w = workspace_with(&[("a", 0), ("b", 3)]);
    w.history.push_back(1);
    assert!(w.remembers(3) && w.remembers(1) && !w.remembers(2));
    assert_eq!(w.prefer_unremembered(&vec![0, 1, 2, 3]), vec![2]);
    assert_eq!(w.prefer_unremembered(&vec![0, 1]), vec![0, 1]);
}

#[test]
fn small_pools_are_not_sampled_and_draw_nothing() {
    let mut w = Workspace::new(0, 5, 0);
    let allocation = w.allocation.0;
    let mut pool: Vec<usize> = (0..SAMPLE_LIMIT).collect();
    w.sample(&mut pool, false);
    assert_eq!(pool, (0..SAMPLE_LIMIT).collect::<Vec<_>>());
    assert_eq!(w.allocation.0, allocation);
}

#[test]
fn large_pools_are_sampled_from_the_chosen_stream() {
    let mut w = Workspace::new(0, 5, 0);
    let (allocation, movement) = (w.allocation.0, w.movement.0);
    let mut pool: Vec<usize> = (1000..1400).collect();
    w.sample(&mut pool, true);
    assert_eq!(pool.len(), SAMPLE_LIMIT);
    let mut sorted = pool.clone();
    sorted.sort_unstable();
    sorted.dedup();
    assert_eq!(sorted.len(), SAMPLE_LIMIT);
    assert!(pool.iter().all(|c| (1000..1400).contains(c)));
    assert_eq!(w.allocation.0, allocation);
    let mut expected = Rng(movement);
    for _ in 0..SAMPLE_LIMIT {
        expected.next();
    }
    assert_eq!(w.movement.0, expected.0);
    // The first swap partner is the first draw scaled to the pool.
    let first = Rng(movement).index(400);
    assert_eq!(pool[0], 1000 + first);
}

#[test]
fn picks_draw_from_the_right_stream_and_are_remembered() {
    let mut w = workspace_with(&[("a", 0), ("b", 0)]);
    let (allocation, movement) = (w.allocation.0, w.movement.0);
    let i = w.draw_index(10, false);
    assert_eq!(i, Rng(allocation).index(10));
    assert_eq!(w.movement.0, movement);
    let j = w.draw_index(10, true);
    assert_eq!(j, Rng(movement).index(10));
    w.assign(1, 42);
    assert_eq!(w.tabs[1].colour, 42);
    assert_eq!(w.tabs[1].id, "b");
    assert_eq!(w.history.back(), Some(&42));
}

#[test]
fn reconciliation_continues_identically_from_a_copy() {
    let mut live = workspace_with(&[("a", 1), ("b", 2), ("c", 3)]);
    live.history = VecDeque::from(vec![4, 5]);
    let mut restored = live.clone();
    for next in [vec!["b", "a", "c"], vec!["b", "c"], vec!["b", "c", "d"]] {
        let next = ids(&next);
        let p = live.reconcile_begin(&next).map(|p| (p.moved, p.moved_pos));
        let q = restored.reconcile_begin(&next).map(|p| (p.moved, p.moved_pos));
        assert_eq!(p, q);
        let tabs = |w: &Workspace| w.tabs.iter().map(|t| (t.id.clone(), t.colour)).collect::<Vec<_>>();
        assert_eq!(tabs(&live), tabs(&restored));
        assert_eq!(live.history, restored.history);
        assert_eq!(live.allocation.0, restored.allocation.0);
        let i = live.draw_index(9, false);
        assert_eq!(i, restored.draw_index(9, false));
    }
}

#[test]
fn feasible_reuse_beats_a_fresh_conflict() {
    // Tabs a and b show colour 0; a new tab goes between them. Colour 0 would
    // clash with both neighbours; colour 1 clashes with neither but was picked
    // recently. Feasibility comes first, so colour 1 is the only choice.
    let mut w = workspace_with(&[("a", 0), ("b", 0)]);
    w.history.push_back(1);
    let plan = w.reconcile_begin(&ids(&["a", "new", "b"])).expect("changed");
    assert_eq!(plan.moved, None);
    assert_eq!(w.tabs[1].colour, UNASSIGNED);
    let pool = w.choice_pool(&vec![2, 0], &vec![true, true], false).expect("bank suffices");
    assert_eq!(pool, vec![1]);
    let k = w.draw_index(pool.len(), false);
    w.assign(1, pool[k]);
    assert_eq!(w.tabs[1].colour, 1);
}

#[test]
fn choice_pool_grows_the_small_bank_before_accepting_a_clash() {
    let mut w = workspace_with(&[("a", 0), ("b", 0)]);
    let before = (w.allocation.0, w.raw);
    assert!(w.choice_pool(&vec![1, 2, 1], &vec![true, false, true], false).is_none());
    assert_eq!((w.allocation.0, w.raw), before);
    w.raw = LARGE_BANK;
    // With the large bank, the least clashing candidates near the best distance remain.
    assert_eq!(w.choice_pool(&vec![1, 2, 1, 1], &vec![true, true, false, true], false), Some(vec![3]));
    // When clash-free candidates exist, distance does not narrow them.
    assert_eq!(w.choice_pool(&vec![0, 1, 0], &vec![false, true, false], false), Some(vec![2]));
}

#[test]
fn displacement_is_measured_from_the_colour_before_the_action() {
    let before = vec![Tab { id: "a".into(), colour: 4 }];
    assert_eq!(starting_colour(&before, &Tab { id: "a".into(), colour: 9 }), 4);
    assert_eq!(starting_colour(&before, &Tab { id: "n".into(), colour: 9 }), 9);
}
