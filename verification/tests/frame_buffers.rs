use stimstation::buffers::{BufferType, Buffers, HEIGHT, WIDTH};
use stimstation::color::Color;
use stimstation::drawing::FrameBuffer;
use stimstation::rendering::FrameBuffer as FastFrameBuffer;

#[test]
fn test_frame_buffer_creation() {
    let fb = FrameBuffer::new(100, 100);
    assert_eq!(fb.width(), 100);
    assert_eq!(fb.height(), 100);
    assert_eq!(fb.buffer().len(), 100 * 100 * 4);
}

#[test]
fn test_frame_buffer_clear() {
    let mut fb = FrameBuffer::new(100, 100);
    let color = Color::new(255, 0, 0);
    fb.clear(color);
    let first_pixel = &fb.buffer()[0..4];
    let last_pixel = &fb.buffer()[fb.buffer().len() - 4..];
    assert_eq!(first_pixel, &[255, 0, 0, 255]);
    assert_eq!(last_pixel, &[255, 0, 0, 255]);
}

#[test]
fn test_set_pixel() {
    let mut fb = FrameBuffer::new(10, 10);
    let color = Color::new(0, 255, 0);
    fb.set_pixel(5, 5, color);
    let index = ((5 * 10 + 5) * 4) as usize;
    assert_eq!(&fb.buffer()[index..index + 4], &[0, 255, 0, 255]);
}

#[test]
fn test_new_buffers() {
    let buffers = Buffers::new();
    assert_eq!(buffers.original.len(), (WIDTH * HEIGHT * 4) as usize);
    assert_eq!(buffers.circular.len(), (WIDTH * HEIGHT * 4) as usize);
    assert_eq!(buffers.full.len(), (WIDTH * HEIGHT * 4) as usize);
}

#[test]
fn test_clear_all() {
    let mut buffers = Buffers::new();
    buffers.original[0] = 255;
    buffers.circular[0] = 255;
    buffers.full[0] = 255;
    buffers.clear_all();
    assert_eq!(buffers.original[0], 0);
    assert_eq!(buffers.circular[0], 0);
    assert_eq!(buffers.full[0], 0);
}

#[test]
fn set_pixel_outside_leaves_frame_alone() {
    let mut fb = FrameBuffer::new(4, 3);
    let red = Color::new(255, 0, 0);
    fb.set_pixel(-1, 0, red);
    fb.set_pixel(4, 0, red);
    fb.set_pixel(0, 3, red);
    assert!(fb.buffer().iter().all(|&b| b == 0));
    fb.set_pixel(3, 2, red);
    assert_eq!(&fb.buffer()[44..48], &[255, 0, 0, 255]);
}

#[test]
fn copy_to_same_size_copies_everything() {
    let mut fb = FrameBuffer::new(2, 2);
    fb.clear(Color::new(1, 2, 3));
    let mut target = vec![9u8; 16];
    fb.copy_to(&mut target);
    assert_eq!(target, fb.buffer().to_vec());
}

#[test]
fn copy_to_window_keeps_rows_and_columns() {
    let mut fb = FrameBuffer::new(3, 2);
    fb.set_pixel(2, 1, Color::new(7, 8, 9));
    let mut target = vec![0u8; (WIDTH * 2 * 4) as usize];
    fb.copy_to(&mut target);
    let dst = ((1 * WIDTH + 2) * 4) as usize;
    assert_eq!(&target[dst..dst + 4], &[7, 8, 9, 255]);
    assert_eq!(&target[0..4], &[0, 0, 0, 0]);
    assert_eq!(target[(3 * 4) as usize], 0);
}

#[test]
fn buffer_mut_writes_through() {
    let mut fb = FrameBuffer::new(2, 1);
    fb.buffer_mut()[0] = 42;
    assert_eq!(fb.buffer()[0], 42);
}

#[test]
fn copy_to_frame_picks_the_region() {
    let mut buffers = Buffers {
        original: vec![1u8; 8],
        circular: vec![2u8; 8],
        full: vec![3u8; 8],
    };
    let mut frame = vec![0u8; 8];
    buffers.copy_to_frame(BufferType::Circular, &mut frame);
    assert_eq!(frame, vec![2u8; 8]);
    buffers.get_mut(BufferType::Full)[0] = 99;
    assert_eq!(buffers.full[0], 99);
    assert_eq!(buffers.original[0], 1);
}

#[test]
fn fast_frame_buffer_clear_and_set() {
    let mut fb = FastFrameBuffer::new(3, 3);
    assert_eq!(fb.width(), 3);
    assert_eq!(fb.height(), 3);
    fb.clear(Color::new(10, 20, 30));
    fb.set_pixel(1, 1, Color::new(200, 100, 50));
    let data = fb.as_mut_slice();
    assert_eq!(&data[0..4], &[10, 20, 30, 255]);
    assert_eq!(&data[16..20], &[200, 100, 50, 255]);
}
