use rencache::color::Color;
use rencache::rencache::RenCache;
use rencache::compositor::Renderer;
use rencache::geometry::Rect;
use rencache::image::Image;

const WHITE: Color = Color { b: 255, g: 255, r: 255, a: 255 };
const BLACK: Color = Color { b: 0, g: 0, r: 0, a: 0 };

fn atlas_4x4_white() -> Image {
    Image { width: 4, height: 4, pixels: vec![WHITE; 16] }
}

#[test]
fn draw_image_is_clamped_by_the_clip() {
    let mut target = Image::new(10, 10);
    let mut renderer = Renderer::init(10, 10);
    renderer.set_clip_rect(Rect { x: 2, y: 2, width: 6, height: 6 });
    let atlas = atlas_4x4_white();
    // Blit the whole atlas at the origin: only the part inside the clip,
    // pixels (2,2)..(4,4), may change.
    renderer.draw_image(&mut target, &atlas, Rect { x: 0, y: 0, width: 4, height: 4 }, 0, 0, WHITE);
    let px = |x: i32, y: i32| target.pixels[(y * 10 + x) as usize];
    // Tinted blend of a fully covered white atlas pixel over black:
    // sa = 255*255/256 = 254, channel = (255*255*254)/65536 = 252.
    let blended = Color { b: 252, g: 252, r: 252, a: 0 };
    assert_eq!(px(2, 2), blended);
    assert_eq!(px(3, 3), blended);
    assert_eq!(px(1, 1), BLACK);
    assert_eq!(px(4, 4), BLACK);
    assert_eq!(px(0, 3), BLACK);
}

#[test]
fn draw_image_transparent_color_is_a_no_op() {
    let mut target = Image::new(10, 10);
    let mut renderer = Renderer::init(10, 10);
    renderer.set_clip_rect(Rect { x: 0, y: 0, width: 10, height: 10 });
    let atlas = atlas_4x4_white();
    let transparent = Color { b: 255, g: 255, r: 255, a: 0 };
    renderer.draw_image(
        &mut target,
        &atlas,
        Rect { x: 0, y: 0, width: 4, height: 4 },
        0,
        0,
        transparent,
    );
    assert!(target.pixels.iter().all(|p| *p == BLACK));
}

#[test]
fn draw_image_reads_the_sub_rectangle() {
    let mut target = Image::new(10, 10);
    let mut renderer = Renderer::init(10, 10);
    renderer.set_clip_rect(Rect { x: 0, y: 0, width: 10, height: 10 });
    // Atlas whose top-left 2x2 quadrant is transparent and the rest opaque.
    let mut pixels = vec![WHITE; 16];
    for y in 0..2 {
        for x in 0..2 {
            pixels[y * 4 + x] = Color { b: 255, g: 255, r: 255, a: 0 };
        }
    }
    let atlas = Image { width: 4, height: 4, pixels };
    // Blit the opaque bottom-right 2x2 quadrant to (5,5).
    renderer.draw_image(&mut target, &atlas, Rect { x: 2, y: 2, width: 2, height: 2 }, 5, 5, WHITE);
    let px = |x: i32, y: i32| target.pixels[(y * 10 + x) as usize];
    let blended = Color { b: 252, g: 252, r: 252, a: 0 };
    assert_eq!(px(5, 5), blended);
    assert_eq!(px(6, 6), blended);
    assert_eq!(px(4, 5), BLACK);
    assert_eq!(px(7, 7), BLACK);
}

#[test]
fn draw_rect_negative_size_rectangle_is_empty() {
    let mut target = Image::new(10, 10);
    let renderer = Renderer::init(10, 10);
    renderer.draw_rect(
        &mut target,
        Rect { x: 5, y: 5, width: -3, height: 4 },
        Color { b: 1, g: 2, r: 3, a: 255 },
    );
    assert!(target.pixels.iter().all(|p| *p == BLACK));
}

#[test]
fn debug_overlay_blends_over_each_dirty_rect() {
    let mut cache = RenCache::init(800, 600);
    cache.show_debug(true);
    cache.begin_frame(800, 600);
    let dirty = cache.end_frame();
    // The first frame is fully invalidated and the log is empty, so the only
    // painting is the overlay: one translucent rectangle per dirty rectangle,
    // with the first generated color blended at alpha 50 over black.
    assert!(!dirty.is_empty());
    assert_eq!(cache.surface.pixels[0], Color { b: 31, g: 8, r: 15, a: 0 });
}

#[test]
fn no_overlay_is_painted_with_the_debug_flag_off() {
    let mut cache = RenCache::init(800, 600);
    cache.begin_frame(800, 600);
    let dirty = cache.end_frame();
    // Fully invalidated, empty log, flag off: the replay paints nothing.
    assert!(!dirty.is_empty());
    assert!(cache.surface.pixels.iter().all(|p| *p == BLACK));
}
