use stimstation::frame_ops::{clear_frame, pixel_slot};
use stimstation::pixel_utils::{draw_border, draw_circle, draw_huge_text, draw_segment, set_pixel_safe};

fn px(frame: &[u8], width: usize, x: usize, y: usize) -> [u8; 4] {
    let i = 4 * (y * width + x);
    [frame[i], frame[i + 1], frame[i + 2], frame[i + 3]]
}

const RED: [u8; 4] = [255, 0, 0, 255];
const NONE: [u8; 4] = [0, 0, 0, 0];

#[test]
fn set_pixel_safe_writes_inside_only() {
    let mut frame = vec![0u8; 4 * 4 * 3];
    set_pixel_safe(&mut frame, 3, 2, 4, 3, RED);
    assert_eq!(px(&frame, 4, 3, 2), RED);
    set_pixel_safe(&mut frame, 4, 0, 4, 3, RED);
    set_pixel_safe(&mut frame, -1, 0, 4, 3, RED);
    set_pixel_safe(&mut frame, 0, 3, 4, 3, RED);
    assert_eq!(frame.iter().filter(|&&b| b != 0).count(), 2);
}

#[test]
fn circle_of_radius_one_is_a_plus() {
    let mut frame = vec![0u8; 4 * 5 * 5];
    draw_circle(&mut frame, 2, 2, 1, RED, 5);
    for (x, y) in [(2, 2), (1, 2), (3, 2), (2, 1), (2, 3)] {
        assert_eq!(px(&frame, 5, x, y), RED);
    }
    for (x, y) in [(1, 1), (3, 3), (0, 2), (2, 0)] {
        assert_eq!(px(&frame, 5, x, y), NONE);
    }
}

#[test]
fn circle_off_screen_is_culled() {
    let mut frame = vec![0u8; 4 * 5 * 5];
    draw_circle(&mut frame, -10, 2, 3, RED, 5);
    draw_circle(&mut frame, 2, 20, 3, RED, 5);
    assert!(frame.iter().all(|&b| b == 0));
}

#[test]
fn circle_is_clipped_at_the_frame_edge() {
    let mut frame = vec![0u8; 4 * 5 * 5];
    draw_circle(&mut frame, 0, 0, 2, RED, 5);
    assert_eq!(px(&frame, 5, 0, 0), RED);
    assert_eq!(px(&frame, 5, 2, 0), RED);
    assert_eq!(px(&frame, 5, 1, 1), RED);
    assert_eq!(px(&frame, 5, 2, 2), NONE);
}

#[test]
fn top_segment_is_a_two_pixel_bar() {
    let mut frame = vec![0u8; 4 * 10 * 20];
    draw_segment(&mut frame, 0, 0, true, false, false, false, false, false, false, RED, 10);
    for y in 0..2 {
        for x in 1..7 {
            assert_eq!(px(&frame, 10, x, y), RED);
        }
        assert_eq!(px(&frame, 10, 0, y), NONE);
        assert_eq!(px(&frame, 10, 7, y), NONE);
    }
    assert_eq!(px(&frame, 10, 3, 2), NONE);
    assert_eq!(frame.iter().filter(|&&b| b == 255).count(), 12 * 2);
}

#[test]
fn eight_lights_every_segment() {
    let mut frame = vec![0u8; 4 * 10 * 20];
    draw_segment(&mut frame, 0, 0, true, true, true, true, true, true, true, RED, 10);
    assert_eq!(px(&frame, 10, 6, 3), RED);
    assert_eq!(px(&frame, 10, 0, 10), RED);
    assert_eq!(px(&frame, 10, 3, 7), RED);
    assert_eq!(px(&frame, 10, 3, 14), RED);
    assert_eq!(px(&frame, 10, 3, 4), NONE);
}

#[test]
fn huge_text_draws_outlined_boxes() {
    let mut frame = vec![0u8; 4 * 70 * 60];
    draw_huge_text(&mut frame, "AB", 0, 0, RED, 70);
    assert_eq!(px(&frame, 70, 0, 0), RED);
    assert_eq!(px(&frame, 70, 3, 20), RED);
    assert_eq!(px(&frame, 70, 5, 5), NONE);
    assert_eq!(px(&frame, 70, 29, 49), RED);
    assert_eq!(px(&frame, 70, 30, 0), RED);
    assert_eq!(px(&frame, 70, 40, 20), NONE);
    assert_eq!(px(&frame, 70, 60, 0), NONE);
}

#[test]
fn huge_text_below_the_frame_draws_nothing() {
    let mut frame = vec![0u8; 4 * 70 * 60];
    draw_huge_text(&mut frame, "AB", 0, 60, RED, 70);
    draw_huge_text(&mut frame, "AB", 0, -51, RED, 70);
    assert!(frame.iter().all(|&b| b == 0));
}

#[test]
fn border_is_three_pixels_thick() {
    let mut frame = vec![0u8; 4 * 10 * 10];
    draw_border(&mut frame, 1, 1, 8, 8, RED, 10);
    assert_eq!(px(&frame, 10, 1, 1), RED);
    assert_eq!(px(&frame, 10, 8, 8), RED);
    assert_eq!(px(&frame, 10, 3, 5), RED);
    assert_eq!(px(&frame, 10, 5, 7), RED);
    assert_eq!(px(&frame, 10, 4, 4), NONE);
    assert_eq!(px(&frame, 10, 0, 0), NONE);
    assert_eq!(px(&frame, 10, 9, 9), NONE);
}

#[test]
fn clear_frame_sets_whole_pixels() {
    let mut frame = vec![7u8; 9];
    clear_frame(&mut frame);
    assert_eq!(&frame[0..8], &[5, 5, 10, 255, 5, 5, 10, 255]);
    assert_eq!(frame[8], 7);
}

#[test]
fn pixel_slot_shifts_by_the_offset() {
    let len = 8 * 3 * 4;
    assert_eq!(pixel_slot(len, 4, 3, 1, 1, 2, 8), Some(44));
    assert_eq!(pixel_slot(len, 4, 3, 3, 2, 2, 8), Some(84));
    assert_eq!(pixel_slot(len, 4, 3, 4, 0, 2, 8), None);
    assert_eq!(pixel_slot(len, 4, 3, 0, -1, 2, 8), None);
    assert_eq!(pixel_slot(40, 4, 3, 3, 2, 2, 8), None);
}

#[test]
fn huge_texts_of_equal_length_draw_the_same_boxes() {
    let mut a = vec![0u8; 4 * 70 * 60];
    let mut b = a.clone();
    draw_huge_text(&mut a, "AB", 3, 2, RED, 70);
    draw_huge_text(&mut b, "x?", 3, 2, RED, 70);
    assert_eq!(a, b);
}
