use stimstation::color::Color;
use stimstation::fibonacci::{draw_fibonacci_square, fibonacci_numbers, spiral_squares, spiral_step, square_color};
use stimstation::quadrants::{copy_buffer_prefix, copy_to_quadrant, draw_default, VisualizationFactory, VisualizationKind};
use stimstation::rendering::{draw_character_fast, draw_text_fast, draw_circle_fast, FrameBuffer};

fn px(frame: &[u8], width: usize, x: usize, y: usize) -> [u8; 4] {
    let i = 4 * (y * width + x);
    [frame[i], frame[i + 1], frame[i + 2], frame[i + 3]]
}

#[test]
fn quadrant_copy_places_the_image_at_its_offset() {
    let src: Vec<u8> = (1..=16).collect();
    let mut dst = vec![0u8; 4 * 4 * 4];
    copy_to_quadrant(&mut dst, &src, 2, 1, 2, 2, 4);
    assert_eq!(px(&dst, 4, 2, 1), [1, 2, 3, 4]);
    assert_eq!(px(&dst, 4, 3, 1), [5, 6, 7, 8]);
    assert_eq!(px(&dst, 4, 2, 2), [9, 10, 11, 12]);
    assert_eq!(px(&dst, 4, 3, 2), [13, 14, 15, 16]);
    assert_eq!(dst.iter().filter(|&&b| b != 0).count(), 16);
}

#[test]
fn quadrant_copy_skips_pixels_past_the_destination() {
    let src = vec![9u8; 4 * 2 * 2];
    let mut dst = vec![0u8; 4 * 2 * 2];
    copy_to_quadrant(&mut dst, &src, 1, 1, 2, 2, 2);
    assert_eq!(px(&dst, 2, 1, 1), [9, 9, 9, 9]);
    assert_eq!(dst.iter().filter(|&&b| b != 0).count(), 4);
}

#[test]
fn buffer_prefix_copies_as_much_as_both_hold() {
    let mut frame = vec![0u8; 6];
    copy_buffer_prefix(&mut frame, &[1, 2, 3]);
    assert_eq!(frame, vec![1, 2, 3, 0, 0, 0]);
    let mut short = vec![0u8; 2];
    copy_buffer_prefix(&mut short, &[7, 8, 9]);
    assert_eq!(short, vec![7, 8]);
}

#[test]
fn factory_knows_its_visualisations_by_name() {
    assert_eq!(VisualizationFactory::create("fibonacci"), VisualizationKind::Fibonacci);
    assert_eq!(VisualizationFactory::create("pythagoras"), VisualizationKind::Pythagoras);
    assert_eq!(VisualizationFactory::create("simple_proof"), VisualizationKind::SimpleProof);
    assert_eq!(VisualizationFactory::create("particle_fountain"), VisualizationKind::ParticleFountain);
    assert_eq!(VisualizationFactory::create("ray_pattern"), VisualizationKind::RayPattern);
    assert_eq!(VisualizationFactory::create("mesmerise"), VisualizationKind::Mesmerise);
    assert_eq!(VisualizationFactory::create("Pythagoras"), VisualizationKind::Default);
    assert_eq!(VisualizationFactory::create(""), VisualizationKind::Default);
}

#[test]
fn default_visualisation_is_opaque_black() {
    let mut frame = vec![7u8; 4 * 3];
    draw_default(&mut frame);
    assert_eq!(frame, vec![0, 0, 0, 255, 0, 0, 0, 255, 0, 0, 0, 255]);
}

#[test]
fn filled_circle_of_radius_one_is_a_plus() {
    let mut fb = FrameBuffer::new(5, 5);
    draw_circle_fast(&mut fb, 2, 2, 1, Color::new(1, 2, 3));
    let bytes = fb.as_mut_slice().to_vec();
    for (x, y) in [(2, 2), (1, 2), (3, 2), (2, 1), (2, 3)] {
        assert_eq!(px(&bytes, 5, x, y), [1, 2, 3, 255]);
    }
    assert_eq!(bytes.iter().filter(|&&b| b != 0).count(), 5 * 4);
}

#[test]
fn seven_segment_one_lights_its_two_segments() {
    let mut fb = FrameBuffer::new(20, 30);
    draw_character_fast(&mut fb, '1', 0, 0, Color::new(9, 9, 9), 2, 10, 20);
    let bytes = fb.as_mut_slice().to_vec();
    // segment c: two pixels wide at the right of the cell, lower half
    assert_eq!(px(&bytes, 20, 8, 10), [9, 9, 9, 255]);
    assert_eq!(px(&bytes, 20, 9, 18), [9, 9, 9, 255]);
    assert_eq!(px(&bytes, 20, 9, 19), [0, 0, 0, 0]);
    // segment f: two pixels wide at the left of the cell, upper half
    assert_eq!(px(&bytes, 20, 0, 1), [9, 9, 9, 255]);
    assert_eq!(px(&bytes, 20, 1, 9), [9, 9, 9, 255]);
    // segment a is dark
    assert_eq!(px(&bytes, 20, 5, 0), [0, 0, 0, 0]);
    assert_eq!(bytes.iter().filter(|&&b| b != 0).count(), 2 * (2 * 9) * 4);
}

#[test]
fn seven_segment_colon_is_two_dots() {
    let mut fb = FrameBuffer::new(20, 30);
    draw_character_fast(&mut fb, ':', 0, 0, Color::new(5, 5, 5), 2, 10, 20);
    let bytes = fb.as_mut_slice().to_vec();
    assert_eq!(px(&bytes, 20, 3, 4), [5, 5, 5, 255]);
    assert_eq!(px(&bytes, 20, 4, 11), [5, 5, 5, 255]);
    assert_eq!(bytes.iter().filter(|&&b| b != 0).count(), 8 * 4);
}

#[test]
fn unknown_character_is_drawn_as_its_cell_outline() {
    let mut fb = FrameBuffer::new(20, 30);
    draw_character_fast(&mut fb, '?', 0, 0, Color::new(5, 5, 5), 2, 10, 20);
    let bytes = fb.as_mut_slice().to_vec();
    assert_eq!(px(&bytes, 20, 0, 0), [5, 5, 5, 255]);
    assert_eq!(px(&bytes, 20, 9, 19), [5, 5, 5, 255]);
    assert_eq!(px(&bytes, 20, 5, 5), [0, 0, 0, 0]);
    assert_eq!(bytes.iter().filter(|&&b| b != 0).count(), (2 * 10 + 2 * 18) * 4);
}

#[test]
fn text_below_the_frame_is_not_drawn() {
    let mut fb = FrameBuffer::new(20, 30);
    draw_text_fast(&mut fb, "88", 0, 30, Color::new(5, 5, 5), 2, 10, 20);
    assert!(fb.as_mut_slice().iter().all(|&b| b == 0));
    draw_text_fast(&mut fb, "8", 0, 0, Color::new(5, 5, 5), 2, 10, 20);
    assert!(fb.as_mut_slice().iter().any(|&b| b != 0));
}

#[test]
fn spiral_uses_the_first_twelve_fibonacci_numbers() {
    assert_eq!(fibonacci_numbers(), vec![1, 1, 2, 3, 5, 8, 13, 21, 34, 55, 89, 144]);
}

#[test]
fn spiral_square_has_a_black_outline_around_a_lighter_fill() {
    let mut fb = FrameBuffer::new(10, 10);
    draw_fibonacci_square(&mut fb, 1, 2, 4, Color::new(255, 0, 128));
    let bytes = fb.as_mut_slice().to_vec();
    assert_eq!(px(&bytes, 10, 1, 2), [0, 0, 0, 255]);
    assert_eq!(px(&bytes, 10, 4, 5), [0, 0, 0, 255]);
    assert_eq!(px(&bytes, 10, 2, 3), [255, 128, 192, 255]);
    assert_eq!(px(&bytes, 10, 3, 4), [255, 128, 192, 255]);
    assert_eq!(px(&bytes, 10, 5, 5), [0, 0, 0, 0]);
    assert_eq!(bytes.chunks(4).filter(|p| p[3] != 0).count(), 16);
}

#[test]
fn spiral_square_is_clipped_at_the_frame_edge() {
    let mut fb = FrameBuffer::new(4, 4);
    draw_fibonacci_square(&mut fb, -2, -2, 4, Color::new(0, 0, 0));
    let bytes = fb.as_mut_slice().to_vec();
    assert_eq!(px(&bytes, 4, 0, 0), [128, 128, 128, 255]);
    assert_eq!(px(&bytes, 4, 1, 1), [0, 0, 0, 255]);
    assert_eq!(bytes.chunks(4).filter(|p| p[3] != 0).count(), 4);
}

#[test]
fn spiral_walk_turns_right_down_left_up() {
    assert_eq!(spiral_step(0, 0, 0, 4), (4, 0, 1));
    assert_eq!(spiral_step(4, 0, 1, 4), (4, 4, 2));
    assert_eq!(spiral_step(4, 4, 2, 8), (-4, 4, 3));
    assert_eq!(spiral_step(-4, 4, 3, 12), (-4, -8, 0));
}

#[test]
fn spiral_colours_cycle_every_twelve_squares() {
    assert_eq!(square_color(0), Color::new(255, 0, 0));
    assert_eq!(square_color(11), Color::new(255, 128, 128));
    assert_eq!(square_color(13), square_color(1));
}

#[test]
fn spiral_squares_walk_right_down_left_up() {
    let squares = spiral_squares();
    assert_eq!(squares.len(), 12);
    assert_eq!(&squares[0..5], &[(0, 0, 4, 0), (4, 0, 4, 1), (4, 4, 8, 2), (-4, 4, 12, 3), (-4, -8, 20, 0)]);
    assert_eq!(squares[11].2, 4 * 144);
}
