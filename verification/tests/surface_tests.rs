use assault::representation::{Color, PixelSet, Position, Size};
use assault::surface::{
    DrawingOptions, FrameSurface, Image, Instruction, Overlap, Surface, render_scene,
};

#[test]
fn test_overlap_action() {
    let mut surface = PixelSet::new(Size::new(64, 64), Color::default());
    let mut obj_vec: Vec<Color> = Vec::new();
    for i in 0..surface.size.into_linear() {
        if i % 2 == 0 {
            obj_vec.push(Color::new(255, 255, 255, 127));
        } else {
            obj_vec.push(Color::new(255, 255, 255, 0));
        }
    }

    let mut expected_result: Vec<Color> = Vec::new();
    for i in 0..surface.size.into_linear() {
        if i % 2 == 0 {
            expected_result.push(Color::new(255 / 2, 255 / 2, 255 / 2, 127));
        } else {
            expected_result.push(Color::new(0, 0, 0, 255));
        }
    }

    let object = PixelSet { size: surface.size, data: obj_vec };
    let options = DrawingOptions::generate(surface.size);
    Overlap::apply(&mut surface, &object, options);
    assert_eq!(surface.data, expected_result);
}

fn solid_image(size: Size, color: Color) -> Image {
    let mut bytes: Vec<u8> = Vec::new();
    for _ in 0..size.into_linear() {
        bytes.push(color.r);
        bytes.push(color.g);
        bytes.push(color.b);
        bytes.push(color.a);
    }
    Image::new(bytes, size)
}

#[test]
fn test_frame_surface_draw_at_offset() {
    let mut surface = FrameSurface::generate(Size::new(4, 4), Color::default());
    let white = solid_image(Size::new(2, 2), Color::new(255, 255, 255, 255));
    let mut options = DrawingOptions::generate(Size::new(4, 4));
    options.offset = Position::new(1, 1);
    surface.draw(Instruction::Overlap, &white, options);
    let pixels = surface.pixels();
    for y in 0..4 {
        for x in 0..4 {
            let painted = (1..3).contains(&x) && (1..3).contains(&y);
            let expected = if painted {
                Color::new(255, 255, 255, 255)
            } else {
                Color::default()
            };
            assert_eq!(*pixels.get(y * 4 + x), expected);
        }
    }
}

#[test]
fn test_draw_clips_to_the_limit() {
    let mut surface = FrameSurface::generate(Size::new(4, 4), Color::default());
    let white = solid_image(Size::new(4, 4), Color::new(255, 255, 255, 255));
    let mut options = DrawingOptions::generate(Size::new(4, 4));
    options.limit = Size::new(2, 1);
    surface.draw(Instruction::Overlap, &white, options);
    let pixels = surface.pixels();
    for y in 0..4 {
        for x in 0..4 {
            let painted = x < 2 && y < 1;
            let expected = if painted {
                Color::new(255, 255, 255, 255)
            } else {
                Color::default()
            };
            assert_eq!(*pixels.get(y * 4 + x), expected);
        }
    }
}

#[test]
fn test_proxy_surface_offsets_and_clamps() {
    let root = FrameSurface::generate(Size::new(8, 8), Color::default());
    let mut proxy = root.map_subsurface(Size::new(2, 2), Position::new(2, 2));
    let white = solid_image(Size::new(4, 4), Color::new(255, 255, 255, 255));
    proxy.draw(Instruction::Overlap, &white, DrawingOptions::generate(Size::new(4, 4)));
    let mut nested = proxy.map_subsurface(Size::new(1, 1), Position::new(1, 1));
    nested.draw(
        Instruction::Overlap,
        &solid_image(Size::new(2, 2), Color::new(10, 20, 30, 255)),
        DrawingOptions::generate(Size::new(2, 2)),
    );
    // The first draw lands in the 2-by-2 window at (2, 2); the nested draw
    // adds another (1, 1) and is clamped to a single pixel at (3, 3).
    let pixels = nested.pixels();
    for y in 0..8 {
        for x in 0..8 {
            let expected = if x == 3 && y == 3 {
                Color::new(10, 20, 30, 255)
            } else if (2..4).contains(&x) && (2..4).contains(&y) {
                Color::new(255, 255, 255, 255)
            } else {
                Color::default()
            };
            assert_eq!(*pixels.get(y * 8 + x), expected);
        }
    }
}

#[test]
fn test_mask_instruction_attenuates_alpha() {
    let mut surface = FrameSurface::generate(Size::new(2, 2), Color::new(10, 20, 30, 255));
    let mask = solid_image(Size::new(2, 2), Color::new(0, 0, 0, 128));
    surface.draw(Instruction::Mask, &mask, DrawingOptions::generate(Size::new(2, 2)));
    let pixels = surface.pixels();
    for i in 0..4 {
        assert_eq!(*pixels.get(i), Color::new(10, 20, 30, 128));
    }
}

#[test]
fn test_render_scene_composites_objects() {
    let white = solid_image(Size::new(2, 2), Color::new(255, 255, 255, 255));
    let objects = vec![white];
    let scene = render_scene(&objects, Size::new(2, 2));
    let pixels = scene.pixels();
    for i in 0..4 {
        assert_eq!(*pixels.get(i), Color::new(255, 255, 255, 255));
    }
}

#[test]
fn test_zero_alpha_object_keeps_the_scene() {
    let clear = solid_image(Size::new(2, 2), Color::new(200, 200, 200, 0));
    let objects = vec![clear];
    let scene = render_scene(&objects, Size::new(2, 2));
    let pixels = scene.pixels();
    for i in 0..4 {
        assert_eq!(*pixels.get(i), Color::default());
    }
}
