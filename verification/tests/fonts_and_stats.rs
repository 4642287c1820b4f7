use stimstation::algorithm_stats::{AlgorithmStats, SortAlgorithm};
use stimstation::box_font;
use stimstation::leaderboard::{decimal_chars, draw_algorithm_stats, draw_char, draw_stats_text, str_chars};
use stimstation::simple_font::{draw_simple_char, draw_simple_text};
use stimstation::stats_font::{get_char_pattern, to_ascii_upper};

fn px(frame: &[u8], width: usize, x: usize, y: usize) -> [u8; 4] {
    let i = 4 * (y * width + x);
    [frame[i], frame[i + 1], frame[i + 2], frame[i + 3]]
}

const WHITE: [u8; 4] = [255, 255, 255, 255];

#[test]
fn char_patterns_come_from_the_eight_by_twelve_font() {
    let one = get_char_pattern('1');
    assert_eq!(one.len(), 96);
    assert_eq!(&one[0..8], &[0, 0, 0, 1, 1, 0, 0, 0]);
    assert_eq!(get_char_pattern('a'), get_char_pattern('A'));
    assert!(get_char_pattern(' ').iter().all(|&b| b == 0));
    assert!(get_char_pattern('?').iter().all(|&b| b == 1));
    let seven = get_char_pattern('7');
    assert_eq!(seven.len(), 96);
    for c in ['7', 'A', 'z', '0', ':', '(', '-', ' ', '%'] {
        let p = get_char_pattern(c);
        assert_eq!(p.len(), 96);
        assert!(p.iter().all(|&b| b <= 1));
    }
    assert_eq!(&seven[0..8], &[1, 1, 1, 1, 1, 1, 1, 1]);
}

#[test]
fn ascii_upper_maps_letters_only() {
    assert_eq!(to_ascii_upper('q'), 'Q');
    assert_eq!(to_ascii_upper('Q'), 'Q');
    assert_eq!(to_ascii_upper('7'), '7');
    assert_eq!(to_ascii_upper('é'), 'é');
}

#[test]
fn decimal_numerals() {
    assert_eq!(decimal_chars(0), vec!['0']);
    assert_eq!(decimal_chars(1234), vec!['1', '2', '3', '4']);
    assert_eq!(decimal_chars(u32::MAX).iter().collect::<String>(), u32::MAX.to_string());
    assert_eq!(str_chars("ab:"), vec!['a', 'b', ':']);
}

#[test]
fn stats_char_draws_lit_cells() {
    let mut frame = vec![0u8; 4 * 8 * 12];
    draw_char(&mut frame, '-', 0, 0, WHITE, 8, 8, 12, 0, 8);
    for x in 0..8 {
        assert_eq!(px(&frame, 8, x, 6), WHITE);
        assert_eq!(px(&frame, 8, x, 5), [0, 0, 0, 0]);
    }
}

#[test]
fn stats_text_advances_eight_pixels() {
    let mut frame = vec![0u8; 4 * 16 * 12];
    draw_stats_text(&mut frame, &['-', '-'], 0, 0, WHITE, 16, 0, 16);
    assert_eq!(px(&frame, 16, 15, 6), WHITE);
    assert_eq!(px(&frame, 16, 15, 7), [0, 0, 0, 0]);
}

#[test]
fn leaderboard_shades_its_panel_and_writes_the_counts() {
    let width = 240usize;
    let mut frame = vec![100u8; 4 * width * 100];
    let mut shade = [[0u8; 256]; 3];
    for k in 0..3 {
        for v in 0..256 {
            shade[k][v] = (v / 2) as u8;
        }
    }
    let mut stats = AlgorithmStats::new();
    for _ in 0..3 {
        stats.record_completion(SortAlgorithm::Quick);
    }
    stats.record_completion(SortAlgorithm::Shell);
    draw_algorithm_stats(&mut frame, width as u32, 100, 0, width as u32, &stats, 7, &shade);
    assert_eq!(px(&frame, width, 2, 8), [50, 50, 50, 255]);
    assert_eq!(px(&frame, width, 5, 10), WHITE);
    assert_eq!(px(&frame, width, 4, 10), [50, 50, 50, 255]);
    assert_eq!(px(&frame, width, 2, 80), [50, 50, 50, 255]);
    assert_eq!(px(&frame, width, 2, 67), [25, 25, 25, 255]);
    assert_eq!(px(&frame, width, 2, 90), [100, 100, 100, 100]);
    let longest = "Quick Sort: 3".len().max("Shell Sort: 1".len()).max("Bogo Sort: 0".len()).max("Bubble Sort: 0".len());
    let panel = longest * 8 + 8;
    assert_eq!(px(&frame, width, panel - 1, 8), [50, 50, 50, 255]);
    assert_eq!(px(&frame, width, panel, 8), [100, 100, 100, 100]);
}

#[test]
fn leaderboard_clamps_to_the_last_four_bytes_of_an_unaligned_frame() {
    let width = 240usize;
    let mut frame = vec![100u8; 4 * width * 100 + 2];
    let mut shade = [[0u8; 256]; 3];
    for k in 0..3 {
        for v in 0..256 {
            shade[k][v] = (v / 2) as u8;
        }
    }
    let stats = AlgorithmStats::new();
    draw_algorithm_stats(&mut frame, width as u32, 100, 5000, width as u32, &stats, 1, &shade);
    assert_eq!(frame.len(), 4 * width * 100 + 2);
    let n = frame.len();
    assert_eq!(&frame[n - 4..], &WHITE);
    assert_eq!(px(&frame, width, 0, 0), [100, 100, 100, 100]);
}

#[test]
fn leaderboard_ranks_by_count_then_declaration_order() {
    let mut stats = AlgorithmStats::new();
    stats.record_completion(SortAlgorithm::Cocktail);
    stats.record_completion(SortAlgorithm::Cocktail);
    stats.record_completion(SortAlgorithm::Heap);
    let top = stats.leaderboard();
    assert_eq!(top, vec![
        (SortAlgorithm::Cocktail, 2),
        (SortAlgorithm::Heap, 1),
        (SortAlgorithm::Bogo, 0),
        (SortAlgorithm::Bubble, 0),
    ]);
    assert_eq!(stats.leading_algorithm(), (SortAlgorithm::Cocktail, 2));
    assert_eq!(AlgorithmStats::new().leading_algorithm(), (SortAlgorithm::Bubble, 0));
}

#[test]
fn fallback_font_draws_bits_left_to_right() {
    let mut frame = vec![0u8; 4 * 8 * 9];
    draw_simple_char(&mut frame, 'a', 0, 0, WHITE, 8);
    assert_eq!(px(&frame, 8, 2, 0), WHITE);
    assert_eq!(px(&frame, 8, 4, 0), WHITE);
    assert_eq!(px(&frame, 8, 1, 0), [0, 0, 0, 0]);
    assert_eq!(px(&frame, 8, 0, 4), WHITE);
    let mut line = vec![0u8; 4 * 20 * 9];
    draw_simple_text(&mut line, "AB", 0, 0, WHITE, 20);
    assert_eq!(px(&line, 20, 10, 0), WHITE);
    assert_eq!(px(&line, 20, 16, 0), [0, 0, 0, 0]);
}

#[test]
fn box_font_draws_an_a_and_boxes() {
    let mut frame = vec![0u8; 4 * 16 * 10];
    box_font::draw_simple_text(&mut frame, "A?", 0, 0, 16, 10, WHITE);
    assert_eq!(px(&frame, 16, 0, 0), [0, 0, 0, 0]);
    assert_eq!(px(&frame, 16, 1, 0), WHITE);
    assert_eq!(px(&frame, 16, 0, 1), WHITE);
    assert_eq!(px(&frame, 16, 3, 5), WHITE);
    assert_eq!(px(&frame, 16, 3, 3), [0, 0, 0, 0]);
    assert_eq!(px(&frame, 16, 8, 0), WHITE);
    assert_eq!(px(&frame, 16, 11, 4), [0, 0, 0, 0]);
    assert_eq!(px(&frame, 16, 15, 9), WHITE);
}

#[test]
fn lower_case_letters_draw_their_capitals() {
    for (lower, upper) in [('a', 'A'), ('q', 'Q'), ('z', 'Z')] {
        let mut f1 = vec![0u8; 4 * 8 * 9];
        let mut f2 = f1.clone();
        draw_simple_char(&mut f1, lower, 0, 0, WHITE, 8);
        draw_simple_char(&mut f2, upper, 0, 0, WHITE, 8);
        assert_eq!(f1, f2);
        let mut g1 = vec![0u8; 4 * 16 * 16];
        let mut g2 = g1.clone();
        draw_char(&mut g1, lower, 2, 1, WHITE, 16, 8, 12, 0, 16);
        draw_char(&mut g2, upper, 2, 1, WHITE, 16, 8, 12, 0, 16);
        assert_eq!(g1, g2);
    }
}
