use rencache::color::Color;
use rencache::hash::{fnv_byte, fnv_word, FNV_SEED};

#[test]
fn blend_pixel_half_alpha_exact() {
    // dst = black, src = red at alpha 128:
    // each channel is (src * 128 + dst * 127) / 256, so red becomes 127.
    let dst = Color { b: 0, g: 0, r: 0, a: 0 };
    let src = Color { b: 0, g: 0, r: 255, a: 128 };
    let out = dst.blend_pixel(src);
    assert_eq!(out, Color { b: 0, g: 0, r: 127, a: 0 });
}

#[test]
fn blend_pixel_opaque_source() {
    // At alpha 255 the blend formula gives (c * 255 + dst * 0) / 256: one
    // less than the source value. The compositor's opaque fast path never
    // calls the blend, exactly to avoid this off-by-one.
    let dst = Color { b: 9, g: 9, r: 9, a: 3 };
    let src = Color { b: 255, g: 128, r: 0, a: 255 };
    let out = dst.blend_pixel(src);
    assert_eq!(out, Color { b: 254, g: 127, r: 0, a: 3 });
}

#[test]
fn blend_pixel_transparent_source_still_rounds_down() {
    // Even at source alpha 0 the raw formula gives dst*255/256, one less for
    // most values: the compositor never calls the blend for a fully
    // transparent color, it returns before touching any pixel.
    let dst = Color { b: 10, g: 20, r: 30, a: 40 };
    let src = Color { b: 200, g: 200, r: 200, a: 0 };
    assert_eq!(dst.blend_pixel(src), Color { b: 9, g: 19, r: 29, a: 40 });
}

#[test]
fn blend_pixel2_tints_atlas_pixel() {
    // White fully-covered atlas pixel tinted by (r=10, g=20, b=30, a=255):
    // sa = 255*255/256 = 254, channel = (255*c*254)/65536 + dst*(255-254)/256.
    let dst = Color { b: 0, g: 0, r: 0, a: 0 };
    let src = Color { b: 255, g: 255, r: 255, a: 255 };
    let tint = Color { b: 30, g: 20, r: 10, a: 255 };
    let out = dst.blend_pixel2(src, tint);
    assert_eq!(out, Color { b: 29, g: 19, r: 9, a: 0 });
}

#[test]
fn fnv_step_exact_values() {
    // hash = (hash ^ byte) * 16777619 in wrapping 32-bit arithmetic, from
    // the seed 2166136261.
    assert_eq!(fnv_byte(FNV_SEED, 0), 84696351);
    assert_eq!(fnv_byte(fnv_byte(FNV_SEED, 0), 255), 3531065248);
}

#[test]
fn fnv_word_folds_little_endian_bytes() {
    // Folding the word 0x04030201 is folding the bytes 1, 2, 3, 4.
    let expected = {
        let mut h = FNV_SEED;
        for b in [1u8, 2, 3, 4] {
            h = fnv_byte(h, b);
        }
        h
    };
    assert_eq!(expected, 1463068797);
    assert_eq!(fnv_word(FNV_SEED, 0x04030201), expected);
}
