use stimstation::video::length_prefixed_unit_ranges;
use stimstation::audio_download::audio_size_plausible;
use stimstation::quadrants::copy_block;
use stimstation::test_pattern::{draw_test_pattern, red_channel_blank};
use stimstation::world_lines::{add_lines, drop_oldest, remove_lines, toggle_mode, VisualMode, MAX_LINES};

#[test]
fn modes_cycle_through_all_four() {
    let mut m = VisualMode::Normal;
    let mut seen = vec![m];
    for _ in 0..4 {
        m = toggle_mode(m);
        seen.push(m);
    }
    assert_eq!(
        seen,
        vec![VisualMode::Normal, VisualMode::Vortex, VisualMode::Waves, VisualMode::Rainbow, VisualMode::Normal]
    );
}

#[test]
fn adding_lines_raises_the_target_and_fills_up_to_it() {
    let mut lines: Vec<u32> = (0..100).collect();
    let mut target = MAX_LINES;
    add_lines(&mut lines, &mut target, 10, &|| 7u32);
    assert_eq!(target, 110);
    assert_eq!(lines.len(), 110);
    assert_eq!(&lines[..100], &(0..100).collect::<Vec<u32>>()[..]);
    assert!(lines[100..].iter().all(|&l| l == 7));
}

#[test]
fn adding_lines_stops_at_three_hundred() {
    let mut lines: Vec<u32> = vec![1; 295];
    let mut target = 295;
    add_lines(&mut lines, &mut target, 50, &|| 2u32);
    assert_eq!(target, 300);
    assert_eq!(lines.len(), 300);
}

#[test]
fn removing_lines_drops_the_oldest_and_keeps_ten() {
    let mut lines: Vec<u32> = (0..100).collect();
    let mut target = 100;
    remove_lines(&mut lines, &mut target, 10);
    assert_eq!(target, 90);
    assert_eq!(lines, (10..100).collect::<Vec<u32>>());
    remove_lines(&mut lines, &mut target, 1000);
    assert_eq!(target, 10);
    assert_eq!(lines, (90..100).collect::<Vec<u32>>());
}

#[test]
fn dropping_the_oldest_keeps_short_lists() {
    let mut lines = vec![1, 2, 3];
    drop_oldest(&mut lines, 5);
    assert_eq!(lines, vec![1, 2, 3]);
    drop_oldest(&mut lines, 1);
    assert_eq!(lines, vec![3]);
}

#[test]
fn blank_frames_are_those_without_red() {
    assert!(red_channel_blank(&[0, 9, 9, 9, 0, 1, 2, 3]));
    assert!(!red_channel_blank(&[0, 9, 9, 9, 1, 1, 2, 3]));
    assert!(red_channel_blank(&[]));
    assert!(!red_channel_blank(&[0, 0, 0, 0, 5]));
}

#[test]
fn test_pattern_colours_each_pixel_by_its_position() {
    let mut frame = vec![9u8; 4 * 3 * 2 + 2];
    draw_test_pattern(&mut frame, 3, 2);
    // pixel (2, 1)
    let i = 4 * (1 * 3 + 2);
    assert_eq!(&frame[i..i + 4], &[3, 4, 2, 255]);
    assert_eq!(&frame[0..4], &[0, 0, 0, 255]);
    assert_eq!(&frame[24..], &[9, 9]);
}

#[test]
fn test_pattern_wraps_at_two_hundred_and_fifty_five() {
    let mut frame = vec![0u8; 4 * 200 * 1];
    draw_test_pattern(&mut frame, 200, 1);
    let i = 4 * 150;
    assert_eq!(&frame[i..i + 4], &[150, 45, 0, 255]);
}

#[test]
fn soundtrack_size_must_lie_between_fifty_and_a_hundred_megabytes() {
    assert!(!audio_size_plausible(49_999_999));
    assert!(audio_size_plausible(50_000_000));
    assert!(audio_size_plausible(72_000_000));
    assert!(audio_size_plausible(100_000_000));
    assert!(!audio_size_plausible(100_000_001));
}

#[test]
fn block_copy_reads_rows_at_the_source_stride() {
    // a 3-pixel-wide source; copy its left 2 columns of 2 rows
    let src: Vec<u8> = (0..24).collect();
    let mut dst = vec![0u8; 4 * 4 * 2];
    copy_block(&mut dst, &src, 3, 1, 0, 2, 2, 4);
    assert_eq!(&dst[4..8], &[0, 1, 2, 3]);
    assert_eq!(&dst[8..12], &[4, 5, 6, 7]);
    assert_eq!(&dst[20..24], &[12, 13, 14, 15]);
    assert_eq!(&dst[24..28], &[16, 17, 18, 19]);
    assert_eq!(&dst[12..16], &[0, 0, 0, 0]);
}

#[test]
fn asking_for_more_then_fewer_lines_restores_the_target() {
    let mut lines: Vec<u8> = vec![0; 100];
    let mut target = 100;
    add_lines(&mut lines, &mut target, 10, &|| 1u8);
    remove_lines(&mut lines, &mut target, 10);
    assert_eq!(target, 100);
    assert_eq!(lines.len(), 100);
    assert_eq!(lines.iter().filter(|&&l| l == 1).count(), 10);
}

#[test]
fn packet_units_follow_their_big_endian_lengths() {
    let data = [0u8, 0, 0, 2, 9, 9, 0, 0, 0, 1, 7, 0, 0, 0, 5, 1];
    assert_eq!(length_prefixed_unit_ranges(&data), vec![(4, 2), (10, 1)]);
    assert_eq!(length_prefixed_unit_ranges(&[0, 0, 1]), vec![]);
    let big = [0u8, 0, 1, 0];
    assert_eq!(length_prefixed_unit_ranges(&big), vec![]);
    let mut long = vec![0u8, 0, 1, 0];
    long.extend(std::iter::repeat(3u8).take(256));
    assert_eq!(length_prefixed_unit_ranges(&long), vec![(4, 256)]);
}
