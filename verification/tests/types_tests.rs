use assault::backend::{Backend, CpuBackend};
use assault::error::RenderError;
use assault::frontend::{rgba_alpha_plane, rgba_color_plane, LoadedImage};
use assault::representation::{Color, PixelSet, Position, Size};
use assault::threading::Deque;

#[test]
fn test_pixel_set_from_vec_u8() {
    let size = Size::new(64, 64);
    let pixel_set = PixelSet::from_rgba8(&vec![0; size.into_linear()]);
    println!("{:?}", pixel_set.get(0));
}

#[test]
fn test_size_into_linear_and_swap() {
    let size = Size::new(6, 4);
    assert_eq!(size.into_linear(), 24);
    let swapped = size.swap_xy();
    assert_eq!(swapped.x, 4);
    assert_eq!(swapped.y, 6);
    assert_eq!(Size::null().into_linear(), 0);
}

#[test]
fn test_position_into_linear() {
    let size = Size::new(4, 3);
    assert_eq!(Position::new(0, 0).into_linear(size), Ok(0));
    assert_eq!(Position::new(3, 2).into_linear(size), Ok(11));
    // Only the linear offset is checked against the area: (11, 0) still
    // lands at offset 11, inside the 12-sample store.
    assert_eq!(Position::new(11, 0).into_linear(size), Ok(11));
    assert_eq!(Position::new(0, 3).into_linear(size), Err(RenderError::IndexOutOfRange));
    assert_eq!(Position::new(12, 0).into_linear(size), Err(RenderError::IndexOutOfRange));
}

#[test]
fn test_position_move_and_conditional_add() {
    let mut p = Position::new(1, 2);
    p.move_by_position(Position::new(3, 4));
    assert_eq!((p.x, p.y), (4, 6));
    let size = Size::new(5, 5);
    let inside = Position::new(2, 3).add_if_out_of_size(size, 7, 7);
    assert_eq!((inside.x, inside.y), (2, 3));
    let outside = Position::new(6, 9).add_if_out_of_size(size, -2, -5);
    assert_eq!((outside.x, outside.y), (4, 4));
}

#[test]
fn test_position_iterator_is_row_major() {
    let mut it = Size::new(2, 2).iter_positions();
    let mut seen: Vec<(usize, usize)> = Vec::new();
    while let Some(p) = it.next() {
        seen.push((p.x, p.y));
    }
    assert_eq!(seen, vec![(0, 0), (1, 0), (0, 1), (1, 1)]);
    assert!(it.next().is_none());
    let mut empty = Size::new(0, 5).iter_positions();
    assert!(empty.next().is_none());
}

#[test]
fn test_color_mix_weights_self() {
    let white = Color::new(255, 255, 255, 255);
    let black = Color::new(0, 0, 0, 255);
    let half = white.mix(&black, 128);
    assert_eq!((half.r, half.g, half.b, half.a), (128, 128, 128, 255));
    let all_self = white.mix(&black, 255);
    assert_eq!((all_self.r, all_self.g, all_self.b), (255, 255, 255));
    let none_self = white.mix(&black, 0);
    assert_eq!((none_self.r, none_self.g, none_self.b), (0, 0, 0));
    assert_eq!(Color::default(), Color::new(0, 0, 0, 255));
}

#[test]
fn test_pixel_set_get_and_set_color() {
    let mut set = PixelSet::new(Size::new(3, 2), Color::new(1, 2, 3, 255));
    let pos = Position::new(2, 1);
    assert_eq!(set.get_color(pos).unwrap(), Color::new(1, 2, 3, 255));
    set.set_color(pos, Color::new(9, 8, 7, 6)).unwrap();
    assert_eq!(*set.get_color_ref(pos), Color::new(9, 8, 7, 6));
    let out = Position::new(0, 2);
    assert_eq!(set.get_color(out), Err(RenderError::IndexOutOfRange));
    assert_eq!(set.set_color(out, Color::default()), Err(RenderError::IndexOutOfRange));
}

#[test]
fn test_pixel_set_from_rgb8() {
    let size = Size::new(2, 1);
    let set = PixelSet::from_rgb8(&[1, 2, 3, 4, 5, 6], size);
    assert_eq!(set.size, size);
    assert_eq!(*set.get(0), Color::new(1, 2, 3, 255));
    assert_eq!(*set.get(1), Color::new(4, 5, 6, 255));
}

#[test]
fn test_pixel_set_rgba_round_trip() {
    let bytes: Vec<u8> = vec![1, 2, 3, 4, 250, 251, 252, 253];
    let set = PixelSet::from_rgba8(&bytes);
    assert_eq!(set.data.len(), 2);
    assert_eq!(*set.get(1), Color::new(250, 251, 252, 253));
    assert_eq!(set.into_rgba8(), bytes);
}

#[test]
fn test_with_changed_size_keeps_samples() {
    let set = PixelSet::new(Size::new(2, 2), Color::new(5, 5, 5, 5));
    let changed = set.with_changed_size(Size::new(4, 1));
    assert_eq!(changed.size, Size::new(4, 1));
    assert_eq!(changed.data, set.data);
}

#[test]
fn test_fill_replaces_store() {
    let mut set = PixelSet::null();
    set.fill(Size::new(2, 3), Color::new(4, 4, 4, 255));
    assert_eq!(set.data.len(), 6);
    assert!(set.data.iter().all(|&c| c == Color::new(4, 4, 4, 255)));
}

#[test]
fn test_deque_serves_in_arrival_order() {
    let mut queue: Deque<u32> = Deque::new();
    assert_eq!(queue.accept_one(), None);
    queue.schedule(1);
    queue.schedule(2);
    queue.schedule(3);
    assert_eq!(queue.accept_one(), Some(1));
    assert_eq!(queue.accept_one(), Some(2));
    assert_eq!(queue.accept_one(), Some(3));
    assert_eq!(queue.accept_one(), None);
}

#[test]
fn test_rgba_planes_split() {
    let rgba: Vec<u8> = vec![1, 2, 3, 9, 4, 5, 6, 8];
    assert_eq!(rgba_color_plane(&rgba), vec![1, 2, 3, 4, 5, 6]);
    assert_eq!(rgba_alpha_plane(&rgba), vec![9, 9, 9, 8, 8, 8]);
}

#[test]
fn test_loaded_image_fills_frames() {
    let mut backend = CpuBackend::new();
    let shape = (2, 2, 3);
    let colors: Vec<u8> = (0..12).collect();
    let alphas: Vec<u8> = vec![255; 12];
    let mut image = LoadedImage::from_bytes(&colors, shape, &mut backend).unwrap();
    assert!(image.alpha_mask_ptr.is_none());
    image.add_alpha_mask(&alphas, &mut backend).unwrap();
    let (color_bytes, color_shape) = backend.export_frame(image.image_ptr).unwrap();
    assert_eq!(color_shape, shape);
    assert_eq!(color_bytes, colors);
    let (alpha_bytes, _) = backend.export_frame(image.alpha_mask_ptr.unwrap()).unwrap();
    assert_eq!(alpha_bytes, alphas);
}

#[test]
fn test_loaded_image_rejects_bad_input() {
    let mut backend = CpuBackend::new();
    assert!(matches!(
        LoadedImage::from_bytes(&[0u8; 4], (0, 2, 3), &mut backend),
        Err(RenderError::InvalidSize)
    ));
    assert!(matches!(
        LoadedImage::from_bytes(&[0u8; 4], (2, 2, 3), &mut backend),
        Err(RenderError::ShapeMismatch)
    ));
}
