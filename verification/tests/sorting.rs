use stimstation::algorithm_stats::{AlgorithmStats, SortAlgorithm};
use stimstation::sorter::{SortState, SortVisualizer};
use stimstation::sorter_manager::{
    draw_sorter_visualizations, initialize_sorters, restart_sorters, sorters_can_run, update_and_draw_sorter, SorterSet,
};

fn run_to_completion(sv: &mut SortVisualizer, stats: &mut AlgorithmStats, limit: usize) -> usize {
    let mut steps = 0;
    while sv.state != SortState::Completed && steps < limit {
        assert!(sv.update_fits(stats));
        sv.update(stats);
        steps += 1;
    }
    steps
}

fn sorted_copy(v: &[u8]) -> Vec<u8> {
    let mut s = v.to_vec();
    s.sort();
    s
}

#[test]
fn every_algorithm_sorts_its_values() {
    for alg in [
        SortAlgorithm::Bubble,
        SortAlgorithm::Quick,
        SortAlgorithm::Merge,
        SortAlgorithm::Insertion,
        SortAlgorithm::Selection,
        SortAlgorithm::Heap,
        SortAlgorithm::Radix,
        SortAlgorithm::Shell,
    ] {
        let mut stats = AlgorithmStats::new();
        let mut sv = SortVisualizer::new_with_size(alg, 40);
        let expected: Vec<u8> = (1..=40).collect();
        assert_eq!(sorted_copy(&sv.array), expected);
        run_to_completion(&mut sv, &mut stats, 100_000);
        assert_eq!(sv.state, SortState::Completed);
        assert_eq!(sv.array, expected);
        assert_eq!(stats.count(alg), 1);
    }
}

#[test]
fn every_terminating_algorithm_finishes_within_two_n_plus_two_updates() {
    for alg in [
        SortAlgorithm::Bubble,
        SortAlgorithm::Quick,
        SortAlgorithm::Merge,
        SortAlgorithm::Insertion,
        SortAlgorithm::Selection,
        SortAlgorithm::Heap,
        SortAlgorithm::Radix,
        SortAlgorithm::Shell,
    ] {
        for n in [1usize, 2, 7, 40, 255] {
            let mut stats = AlgorithmStats::new();
            let mut sv = SortVisualizer::new_with_size(alg, n);
            let steps = run_to_completion(&mut sv, &mut stats, 2 * n + 2);
            assert_eq!(sv.state, SortState::Completed);
            assert!(steps <= 2 * n + 2);
        }
    }
}

#[test]
fn cocktail_sort_finishes_sorted_within_two_n_squared_plus_two_updates() {
    for n in [1usize, 2, 3, 7, 40, 200] {
        let mut stats = AlgorithmStats::new();
        let mut sv = SortVisualizer::new_with_size(SortAlgorithm::Cocktail, n);
        let steps = run_to_completion(&mut sv, &mut stats, 2 * n * n + 2);
        assert_eq!(sv.state, SortState::Completed);
        assert!(steps <= 2 * n * n + 2);
        assert_eq!(sorted_copy(&sv.array), sv.array);
        assert_eq!(stats.count(SortAlgorithm::Cocktail), 1);
    }
}

#[test]
fn bogo_sort_finishes_a_small_array() {
    let mut stats = AlgorithmStats::new();
    let mut sv = SortVisualizer::new_with_size(SortAlgorithm::Bogo, 3);
    run_to_completion(&mut sv, &mut stats, 1_000_000);
    assert_eq!(sv.state, SortState::Completed);
    assert_eq!(sv.array, vec![1, 2, 3]);
    assert_eq!(stats.count(SortAlgorithm::Bogo), 1);
}

#[test]
fn values_wrap_past_two_hundred_and_fifty_five() {
    let sv = SortVisualizer::new(SortAlgorithm::Bubble);
    assert_eq!(sv.array.len(), 200);
    let big = SortVisualizer::new_with_size(SortAlgorithm::Selection, 256);
    let mut counts = [0usize; 256];
    for &v in &big.array {
        counts[v as usize] += 1;
    }
    assert_eq!(counts[0], 0);
    assert_eq!(counts[1], 2);
    assert_eq!(counts[254], 1);
    assert_eq!(counts[255], 1);
}

#[test]
fn values_run_from_one_to_two_hundred_and_fifty_five() {
    let sv = SortVisualizer::new_with_size(SortAlgorithm::Bubble, 255);
    assert_eq!(sv.array.len(), 255);
    assert!(sv.array.iter().all(|&v| v >= 1));
    assert!(sv.array.contains(&255));
    assert_eq!(sorted_copy(&sv.array), (1..=255).collect::<Vec<u8>>());
}

#[test]
fn completed_sorts_stay_put_and_restart_on_request() {
    let mut stats = AlgorithmStats::new();
    let mut sv = SortVisualizer::new_with_size(SortAlgorithm::Insertion, 10);
    run_to_completion(&mut sv, &mut stats, 10_000);
    let before = sv.array.clone();
    sv.update(&mut stats);
    assert_eq!(sv.array, before);
    assert_eq!(stats.count(SortAlgorithm::Insertion), 1);
    sv.restart();
    assert_eq!(sv.state, SortState::Restarting);
    sv.update(&mut stats);
    assert_eq!(sv.state, SortState::Running);
    assert_eq!(sv.steps, 0);
    assert_eq!(sv.i, 1);
    assert_eq!(sorted_copy(&sv.array), before);
}

#[test]
fn sorter_set_starts_the_four_border_sorts() {
    let mut set = SorterSet::new();
    assert!(set.top.is_none());
    initialize_sorters(&mut set);
    assert_eq!(set.top.as_ref().unwrap().algorithm, SortAlgorithm::Shell);
    assert_eq!(set.bottom.as_ref().unwrap().algorithm, SortAlgorithm::Quick);
    assert_eq!(set.left.as_ref().unwrap().algorithm, SortAlgorithm::Insertion);
    assert_eq!(set.right.as_ref().unwrap().algorithm, SortAlgorithm::Selection);
    assert_eq!(set.top.as_ref().unwrap().array.len(), 100);
    restart_sorters(&mut set);
    assert_eq!(set.left.as_ref().unwrap().state, SortState::Restarting);
    let mut empty = SorterSet::new();
    restart_sorters(&mut empty);
    assert!(empty.right.is_none());
}

#[test]
fn update_and_draw_restarts_on_the_tick() {
    let mut stats = AlgorithmStats::new();
    let mut slot = Some(SortVisualizer::new_with_size(SortAlgorithm::Selection, 4));
    let mut frame = vec![0u8; 4 * 8 * 64];
    for _ in 0..10 {
        update_and_draw_sorter(&mut slot, &mut stats, &mut frame, 0, 0, 8, 64, true, false, 0, 8, false, false);
    }
    assert_eq!(slot.as_ref().unwrap().state, SortState::Completed);
    update_and_draw_sorter(&mut slot, &mut stats, &mut frame, 0, 0, 8, 64, true, true, 0, 8, false, false);
    assert_eq!(slot.as_ref().unwrap().state, SortState::Restarting);
    // The entry holding 4 is one row tall, at the bottom of its two-pixel-wide column.
    let last = 4 * (63 * 8 + 6);
    assert_eq!(&frame[last..last + 4], &[255, 100, 100, 255]);
    assert!(frame.iter().any(|&b| b != 0));
    let mut none: Option<SortVisualizer> = None;
    let before = frame.clone();
    update_and_draw_sorter(&mut none, &mut stats, &mut frame, 0, 0, 8, 64, true, true, 0, 8, false, false);
    assert_eq!(frame, before);
}

#[test]
fn border_animations_draw_only_in_their_bands() {
    let mut stats = AlgorithmStats::new();
    let mut set = SorterSet::new();
    initialize_sorters(&mut set);
    let (w, h) = (200u32, 300u32);
    let mut frame = vec![0u8; 4 * 200 * 300];
    assert!(sorters_can_run(&set, &stats, w, h, 64, 64, 0, w));
    draw_sorter_visualizations(&mut set, &mut stats, &mut frame, w, h, 64, 64, false, 0, w);
    let running = [100u8, 150, 255, 255];
    let at = |x: usize, y: usize| -> [u8; 4] {
        let i = 4 * (y * 200 + x);
        [frame[i], frame[i + 1], frame[i + 2], frame[i + 3]]
    };
    // The top bars hang from the first row, the bottom ones stand on the last.
    assert!((0..200).any(|x| at(x, 0) == running));
    assert!((0..200).any(|x| at(x, 299) == running));
    // The side bars grow inwards from the window's edges.
    assert!((64..164).any(|y| at(0, y) == running));
    assert!((64..164).any(|y| at(199, y) == running));
    // Nothing is drawn in the middle of the window.
    for y in 64..236 {
        for x in 64..136 {
            assert_eq!(at(x, y), [0, 0, 0, 0]);
        }
    }
    for px in frame.chunks(4) {
        assert!(px == [0, 0, 0, 0] || px == running);
    }
    assert_eq!(set.top.as_ref().unwrap().steps, 1);
    assert_eq!(set.right.as_ref().unwrap().steps, 1);
}

#[test]
fn border_bands_must_fit_the_window() {
    let stats = AlgorithmStats::new();
    let mut set = SorterSet::new();
    initialize_sorters(&mut set);
    assert!(!sorters_can_run(&set, &stats, 200, 300, 151, 10, 0, 200));
    assert!(!sorters_can_run(&set, &stats, 200, 300, 10, 201, 0, 200));
    assert!(sorters_can_run(&set, &stats, 200, 300, 150, 200, 0, 200));
}

#[test]
fn update_fits_answers_exactly_what_the_step_needs() {
    let stats = AlgorithmStats::new();
    let big = SortVisualizer::new_with_size(SortAlgorithm::Shell, 5000);
    assert!(big.update_fits(&stats));
    let mut sv = SortVisualizer::new_with_size(SortAlgorithm::Bubble, 10);
    sv.comparisons = usize::MAX - 9;
    assert!(sv.update_fits(&stats));
    sv.comparisons = usize::MAX - 8;
    assert!(!sv.update_fits(&stats));
}
