use assault::backend::{Backend, CpuBackend};
use assault::error::RenderError;

fn filled_frame(backend: &mut CpuBackend, shape: (usize, usize, usize), value: u8) -> usize {
    let volume = shape.0 * shape.1 * shape.2;
    let handle = backend.allocate_frame(shape).unwrap();
    backend.load_frame(handle, &vec![value; volume]).unwrap();
    handle
}

#[test]
fn test_allocate_then_export_is_zero_filled() {
    let mut backend = CpuBackend::new();
    let handle = backend.allocate_frame((4, 4, 3)).unwrap();
    let (bytes, shape) = backend.export_frame(handle).unwrap();
    assert_eq!(shape, (4, 4, 3));
    assert_eq!(bytes.len(), 48);
    assert!(bytes.iter().all(|&b| b == 0));
}

#[test]
fn test_load_then_export_round_trip() {
    let mut backend = CpuBackend::new();
    let handle = backend.allocate_frame((2, 4, 3)).unwrap();
    let data: Vec<u8> = (0..24).collect();
    backend.load_frame(handle, &data).unwrap();
    let (bytes, shape) = backend.export_frame(handle).unwrap();
    assert_eq!(shape, (2, 4, 3));
    assert_eq!(bytes, data);
}

#[test]
fn test_allocate_rejects_empty_dimension() {
    let mut backend = CpuBackend::new();
    assert_eq!(backend.allocate_frame((0, 4, 3)), Err(RenderError::InvalidSize));
    assert_eq!(backend.allocate_frame((4, 0, 3)), Err(RenderError::InvalidSize));
    assert_eq!(backend.allocate_frame((4, 4, 0)), Err(RenderError::InvalidSize));
}

#[test]
fn test_load_rejects_wrong_length() {
    let mut backend = CpuBackend::new();
    let handle = backend.allocate_frame((2, 2, 3)).unwrap();
    assert_eq!(backend.load_frame(handle, &[0u8; 11]), Err(RenderError::ShapeMismatch));
    let (bytes, _) = backend.export_frame(handle).unwrap();
    assert!(bytes.iter().all(|&b| b == 0));
}

#[test]
fn test_invalid_handle_is_rejected() {
    let mut backend = CpuBackend::new();
    assert_eq!(backend.export_frame(0), Err(RenderError::IndexOutOfRange));
    assert_eq!(backend.load_frame(3, &[0u8; 4]), Err(RenderError::IndexOutOfRange));
    assert_eq!(backend.overlap(0, 1, 2, 3), Err(RenderError::IndexOutOfRange));
    assert_eq!(backend.resize_canvas(0, 1, (0, 0, 0)), Err(RenderError::IndexOutOfRange));
    assert_eq!(backend.resize_content(0, 1), Err(RenderError::IndexOutOfRange));
    assert_eq!(backend.resize(0, (1, 1, 1)), Err(RenderError::IndexOutOfRange));
    assert_eq!(backend.extend(0, (1, 1, 1), (0, 0, 0)), Err(RenderError::IndexOutOfRange));
}

#[test]
fn test_overlap_constant_half_mask() {
    let mut backend = CpuBackend::new();
    let shape = (64, 64, 3);
    let base = filled_frame(&mut backend, shape, 0);
    let overlay = filled_frame(&mut backend, shape, 255);
    let mask = filled_frame(&mut backend, shape, 128);
    let output = backend.allocate_frame(shape).unwrap();
    backend.overlap(base, overlay, mask, output).unwrap();
    let (bytes, _) = backend.export_frame(output).unwrap();
    assert_eq!(bytes.len(), 64 * 64 * 3);
    for &b in &bytes {
        let delta = (b as i32) - 127;
        assert!(-1 <= delta && delta <= 1);
    }
}

#[test]
fn test_overlap_boundary_masks() {
    let mut backend = CpuBackend::new();
    let shape = (1, 1, 3);
    let base = backend.allocate_frame(shape).unwrap();
    backend.load_frame(base, &[10, 20, 30]).unwrap();
    let overlay = backend.allocate_frame(shape).unwrap();
    backend.load_frame(overlay, &[200, 100, 50]).unwrap();
    let zero_mask = filled_frame(&mut backend, shape, 0);
    let full_mask = filled_frame(&mut backend, shape, 255);
    let out_zero = backend.allocate_frame(shape).unwrap();
    let out_full = backend.allocate_frame(shape).unwrap();
    backend.overlap(base, overlay, zero_mask, out_zero).unwrap();
    backend.overlap(base, overlay, full_mask, out_full).unwrap();
    assert_eq!(backend.export_frame(out_zero).unwrap().0, vec![10, 20, 30]);
    assert_eq!(backend.export_frame(out_full).unwrap().0, vec![200, 100, 50]);
}

#[test]
fn test_overlap_rejects_mismatch_and_aliasing() {
    let mut backend = CpuBackend::new();
    let a = backend.allocate_frame((2, 2, 3)).unwrap();
    let b = backend.allocate_frame((2, 3, 3)).unwrap();
    let c = backend.allocate_frame((2, 2, 3)).unwrap();
    let d = backend.allocate_frame((2, 2, 3)).unwrap();
    assert_eq!(backend.overlap(a, b, c, d), Err(RenderError::ShapeMismatch));
    assert_eq!(backend.overlap(a, c, d, a), Err(RenderError::ShapeMismatch));
}

#[test]
fn test_resize_identity() {
    let mut backend = CpuBackend::new();
    let shape = (2, 2, 3);
    let source = backend.allocate_frame(shape).unwrap();
    let data: Vec<u8> = vec![1, 2, 3, 40, 50, 60, 70, 80, 90, 200, 210, 220];
    backend.load_frame(source, &data).unwrap();
    let output = backend.allocate_frame(shape).unwrap();
    backend.resize_content(source, output).unwrap();
    assert_eq!(backend.export_frame(output).unwrap().0, data);
    let fresh = backend.resize(source, shape).unwrap();
    assert_eq!(backend.export_frame(fresh).unwrap().0, data);
}

#[test]
fn test_resize_round_trip_stays_near_original() {
    let mut backend = CpuBackend::new();
    let shape = (2, 2, 1);
    let source = backend.allocate_frame(shape).unwrap();
    let data: Vec<u8> = vec![0, 100, 200, 50];
    backend.load_frame(source, &data).unwrap();
    let up = backend.resize(source, (4, 4, 1)).unwrap();
    let down = backend.resize(up, shape).unwrap();
    let (bytes, _) = backend.export_frame(down).unwrap();
    // The largest delta between neighboring samples of the original bounds
    // the deviation; a whole-factor round trip in fact reproduces the
    // source exactly.
    let max_delta = 200i32;
    for (i, &b) in bytes.iter().enumerate() {
        let diff = (b as i32) - (data[i] as i32);
        assert!(diff.abs() <= max_delta);
    }
    assert_eq!(bytes, data);
}

#[test]
fn test_resize_rejects_empty_source_axis() {
    let mut backend = CpuBackend::new();
    let source = backend.allocate_frame((2, 2, 3)).unwrap();
    let output = backend.allocate_frame((4, 4, 3)).unwrap();
    // Replace the source slot by an empty-axis frame via resize-to-empty.
    let empty = backend.resize(source, (0, 4, 3)).unwrap();
    assert_eq!(backend.export_frame(empty).unwrap().0.len(), 0);
    assert_eq!(backend.resize_content(empty, output), Err(RenderError::InvalidSize));
    assert_eq!(backend.resize(empty, (4, 4, 3)), Err(RenderError::InvalidSize));
}

#[test]
fn test_resize_rejects_channel_mismatch() {
    let mut backend = CpuBackend::new();
    let source = backend.allocate_frame((2, 2, 3)).unwrap();
    let output = backend.allocate_frame((4, 4, 1)).unwrap();
    assert_eq!(backend.resize_content(source, output), Err(RenderError::ShapeMismatch));
    assert_eq!(backend.resize(source, (4, 4, 1)), Err(RenderError::ShapeMismatch));
}

#[test]
fn test_translate_out_of_bounds_is_noop() {
    let mut backend = CpuBackend::new();
    let shape = (2, 2, 1);
    let source = filled_frame(&mut backend, shape, 9);
    let output = backend.allocate_frame(shape).unwrap();
    let data: Vec<u8> = vec![1, 2, 3, 4];
    backend.load_frame(output, &data).unwrap();
    backend.resize_canvas(source, output, (10, 10, 0)).unwrap();
    assert_eq!(backend.export_frame(output).unwrap().0, data);
    backend.resize_canvas(source, output, (-10, 0, 0)).unwrap();
    assert_eq!(backend.export_frame(output).unwrap().0, data);
}

#[test]
fn test_translate_moves_samples() {
    let mut backend = CpuBackend::new();
    let source = backend.allocate_frame((2, 2, 1)).unwrap();
    backend.load_frame(source, &[1, 2, 3, 4]).unwrap();
    let output = backend.allocate_frame((3, 3, 1)).unwrap();
    backend.resize_canvas(source, output, (1, 1, 0)).unwrap();
    let (bytes, _) = backend.export_frame(output).unwrap();
    // Row-major over axes (0, 1): entry (i0, i1) sits at i0 * 3 + i1.
    assert_eq!(bytes, vec![0, 0, 0, 0, 1, 2, 0, 3, 4]);
}

#[test]
fn test_extend_masks_exactly_the_copied_window() {
    let mut backend = CpuBackend::new();
    let source = filled_frame(&mut backend, (32, 32, 3), 255);
    let (output, mask) = backend.extend(source, (64, 64, 3), (16, 16, 0)).unwrap();
    let (out_bytes, out_shape) = backend.export_frame(output).unwrap();
    let (mask_bytes, mask_shape) = backend.export_frame(mask).unwrap();
    assert_eq!(out_shape, (64, 64, 3));
    assert_eq!(mask_shape, (64, 64, 3));
    for i0 in 0..64 {
        for i1 in 0..64 {
            for i2 in 0..3 {
                let j = (i0 * 64 + i1) * 3 + i2;
                let inside = 16 <= i0 && i0 < 48 && 16 <= i1 && i1 < 48;
                let expected = if inside { 255 } else { 0 };
                assert_eq!(mask_bytes[j], expected);
                assert_eq!(out_bytes[j], expected);
            }
        }
    }
}

#[test]
fn test_export_to_ndarray_copies_the_slot() {
    let mut backend = CpuBackend::new();
    let handle = filled_frame(&mut backend, (2, 2, 1), 7);
    let _copy = backend.export_to_ndarray(handle);
    let (bytes, _) = backend.export_frame(handle).unwrap();
    assert_eq!(bytes, vec![7, 7, 7, 7]);
}
