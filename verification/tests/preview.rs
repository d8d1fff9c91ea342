use roextract::image_cache::{get_cached_texture, ImageCache};
use roextract::preview::{decode_preview, load_image, needs_downscale, LoadedImage};

fn png(width: u32, height: u32) -> Vec<u8> {
    let img = image::RgbaImage::from_pixel(width, height, image::Rgba([10, 20, 30, 255]));
    let mut out = std::io::Cursor::new(Vec::new());
    img.write_to(&mut out, image::ImageFormat::Png).expect("encode");
    out.into_inner()
}

#[test]
fn downscale_only_past_the_limit() {
    assert!(needs_downscale(300, 10, Some(256)));
    assert!(needs_downscale(10, 257, Some(256)));
    assert!(!needs_downscale(256, 256, Some(256)));
    assert!(!needs_downscale(5000, 5000, None));
}

#[test]
fn small_image_decodes_unchanged() {
    let preview = decode_preview(&png(4, 2), Some(256)).expect("decodes");
    assert_eq!((preview.width, preview.height), (4, 2));
    assert_eq!(preview.pixels.len(), 4 * 4 * 2);
    assert_eq!(&preview.pixels[0..4], &[10, 20, 30, 255]);
}

#[test]
fn large_image_is_scaled_to_fit() {
    let preview = decode_preview(&png(600, 300), Some(256)).expect("decodes");
    assert_eq!((preview.width, preview.height), (256, 128));
    assert_eq!(preview.pixels.len(), 256 * 128 * 4);
    assert_eq!(&preview.pixels[0..4], &[10, 20, 30, 255]);
}

#[test]
fn no_limit_keeps_size() {
    let preview = decode_preview(&png(600, 300), None).expect("decodes");
    assert_eq!((preview.width, preview.height), (600, 300));
}

#[test]
fn garbage_does_not_decode() {
    assert!(decode_preview(b"not an image at all", Some(256)).is_err());
    assert!(decode_preview(&[], None).is_err());
}

#[test]
fn cached_texture_is_used_before_decoding() {
    let mut cache: ImageCache<u32> = ImageCache::new();
    cache.insert("x".to_string(), 9, 4);
    match load_image(get_cached_texture(&mut cache, "x"), b"garbage", Some(256)) {
        Ok(LoadedImage::Cached(t)) => assert_eq!(t, 9),
        _ => panic!("expected the cached texture"),
    }
    match load_image(get_cached_texture(&mut cache, "y"), &png(3, 3), Some(256)) {
        Ok(LoadedImage::Decoded(p)) => assert_eq!((p.width, p.height, p.pixels.len()), (3, 3, 36)),
        _ => panic!("expected a decoded image"),
    }
    assert!(load_image(get_cached_texture(&mut cache, "z"), b"garbage", Some(256)).is_err());
    match load_image(get_cached_texture(&mut cache, "x"), b"garbage", Some(u32::MAX)) {
        Ok(LoadedImage::Cached(t)) => assert_eq!(t, 9),
        _ => panic!("expected the cached texture"),
    }
}

#[test]
fn zero_limit_gives_one_pixel() {
    let preview = decode_preview(&png(3, 2), Some(0)).expect("decodes");
    assert_eq!((preview.width, preview.height, preview.pixels.len()), (1, 1, 4));
}

#[test]
fn tall_image_is_scaled_by_its_height() {
    let preview = decode_preview(&png(100, 1000), Some(256)).expect("decodes");
    assert_eq!((preview.width, preview.height), (26, 256));
    assert_eq!(preview.pixels.len(), 26 * 256 * 4);
}

#[test]
fn largest_limit_keeps_size() {
    let preview = decode_preview(&png(5, 4), Some(u32::MAX)).expect("decodes");
    assert_eq!((preview.width, preview.height), (5, 4));
}
