use std::collections::hash_map::DefaultHasher;
use std::hash::{Hash, Hasher};
use mac_wallpaper_tui::preview::{
    AfterGeneration, ImageCache, ImageInfo, ImageSource, ThumbnailPlan, PREVIEW_HEIGHT, PREVIEW_WIDTH,
};

#[test]
fn thumbnail_directory() {
    assert_eq!(
        ImageCache::thumbnail_dir(Some("/c".to_string())),
        "/c/mac-wallpaper-tui/thumbnails"
    );
    assert_eq!(ImageCache::thumbnail_dir(None), ".cache/mac-wallpaper-tui/thumbnails");
}

#[test]
fn thumbnail_names_are_hex_hashes() {
    assert_eq!(ImageCache::thumbnail_path_for_hash("/t", 0xbeef), "/t/beef.jpg");
    assert_eq!(ImageCache::thumbnail_path_for_hash("/t/", 0), "/t/0.jpg");
    let mut hasher = DefaultHasher::new();
    "/w/a.png".hash(&mut hasher);
    let h = hasher.finish();
    assert_eq!(ImageCache::hash_path("/w/a.png"), format!("{:x}", h));
    assert_eq!(ImageCache::get_thumbnail_path("/t", "/w/a.png"), format!("/t/{:x}.jpg", h));
}

#[test]
fn image_kinds() {
    assert!(ImageCache::is_image_file("/a/b.JPEG"));
    assert!(!ImageCache::is_image_file("/a/b.madesktop"));
    assert!(ImageCache::is_heic_file("/a/b.HEIC"));
    assert!(!ImageCache::is_heic_file("/a/b.jpg"));
    assert!(!ImageCache::is_heic_file("/a/heic"));
}

#[test]
fn sips_arguments() {
    let args = ImageCache::sips_arguments(PREVIEW_WIDTH, PREVIEW_HEIGHT, "/a/b.heic", "/t/x.jpg");
    assert_eq!(
        args,
        vec!["-s", "format", "jpeg", "-s", "formatOptions", "70", "-Z", "100", "/a/b.heic", "--out", "/t/x.jpg"]
    );
    let args = ImageCache::sips_arguments(75, 640, "s", "o");
    assert_eq!(args[7], "640");
}

fn png_bytes(width: u32, height: u32) -> Vec<u8> {
    let img = image::RgbaImage::from_pixel(width, height, image::Rgba([10, 20, 30, 255]));
    let mut out = std::io::Cursor::new(Vec::new());
    image::DynamicImage::ImageRgba8(img).write_to(&mut out, image::ImageFormat::Png).unwrap();
    out.into_inner()
}

#[test]
fn thumbnail_plan_skips_non_images() {
    let plan = ImageCache::thumbnail_step("/t", "/w/notes.txt", None, 100, 75);
    assert!(matches!(plan, ThumbnailPlan::NotAnImage));
}

#[test]
fn thumbnail_plan_reuses_a_thumbnail_that_decodes() {
    // The kept thumbnail is read by its path's extension; a PNG named .png decodes.
    let dir = "/t";
    let path = "/w/a.png";
    let thumb = ImageCache::get_thumbnail_path(dir, path);
    assert!(thumb.ends_with(".jpg"));
    // A `.jpg` thumbnail holding bytes that are not JPEG does not decode.
    match ImageCache::thumbnail_step(dir, path, Some(png_bytes(3, 2)), 100, 75) {
        ThumbnailPlan::Generate => {}
        _ => panic!("expected a new thumbnail"),
    }
    let jpeg = ImageCache::generate_thumbnail(&thumb, path, &png_bytes(3, 2), 100, 75)
        .expect("a PNG makes a thumbnail")
        .2;
    match ImageCache::thumbnail_step(dir, path, Some(jpeg), 100, 75) {
        ThumbnailPlan::Reuse(info) => {
            assert_eq!(info.thumbnail_path, thumb);
            // `thumbnail` scales the 3 by 2 image up to fit 100 by 75.
            assert_eq!(info.dimensions, (100, 67));
        }
        _ => panic!("expected the kept thumbnail"),
    }
}

#[test]
fn thumbnail_plan_converts_heic_with_sips() {
    let thumb = ImageCache::get_thumbnail_path("/t", "/w/b.HEIC");
    match ImageCache::thumbnail_step("/t", "/w/b.HEIC", None, 100, 75) {
        ThumbnailPlan::ConvertHeic(args) => {
            assert_eq!(args, ImageCache::sips_arguments(100, 75, "/w/b.HEIC", &thumb));
        }
        _ => panic!("expected a conversion"),
    }
}

#[test]
fn generated_thumbnails_keep_the_image_size_and_fit() {
    let (info, size, jpeg) =
        ImageCache::generate_thumbnail("/t/x.jpg", "/w/a.png", &png_bytes(400, 300), 100, 75)
            .expect("a PNG makes a thumbnail");
    assert_eq!(info.thumbnail_path, "/t/x.jpg");
    assert_eq!(info.dimensions, (400, 300));
    assert_eq!(size, (100, 75));
    let (_, size, _) =
        ImageCache::generate_thumbnail("/t/y.jpg", "/w/b.png", &png_bytes(300, 600), 100, 75)
            .expect("a PNG makes a thumbnail");
    assert!(size.0 <= 100 && size.1 <= 75, "{:?}", size);
    let small = ImageCache::converted_thumbnail("/t/x.jpg", &jpeg).expect("the thumbnail decodes");
    assert_eq!(small.dimensions, (100, 75));
    assert!(ImageCache::generate_thumbnail("/t/x.jpg", "/w/a.png", &vec![1, 2, 3], 100, 75).is_none());
    assert!(ImageCache::generate_thumbnail("/t/x.jpg", "/w/a.xyz", &png_bytes(4, 4), 100, 75).is_none());
}

#[test]
fn decoded_thumbnails_are_rgba() {
    let p = ImageCache::decode_thumbnail("/t/x.png", &png_bytes(3, 2)).expect("decodes");
    assert_eq!((p.width, p.height), (3, 2));
    assert_eq!(p.pixels.len(), 3 * 2 * 4);
    assert_eq!(&p.pixels[0..4], &[10, 20, 30, 255]);
    assert!(ImageCache::decode_thumbnail("/t/x.png", &vec![0, 1]).is_none());
    assert!(ImageCache::converted_thumbnail("/t/x.png", &vec![0, 1]).is_none());
}

#[test]
fn each_image_keeps_its_own_thumbnail() {
    let a = ImageCache::get_thumbnail_path("/t", "/w/a.png");
    let b = ImageCache::get_thumbnail_path("/t", "/w/b.png");
    assert_ne!(a, b);
    assert_eq!(a, ImageCache::get_thumbnail_path("/t", "/w/a.png"));
}

#[test]
fn preview_sources() {
    let known = ImageInfo { thumbnail_path: "/t/k.jpg".to_string(), dimensions: (1, 2) };
    match ImageCache::image_source("/t", "/w/a.png", Some(known), false) {
        ImageSource::Known(t) => assert_eq!(t, "/t/k.jpg"),
        _ => panic!("expected the cached thumbnail"),
    }
    match ImageCache::image_source("/t", "/w/a.png", None, true) {
        ImageSource::OnDisk(t) => assert_eq!(t, ImageCache::get_thumbnail_path("/t", "/w/a.png")),
        _ => panic!("expected the kept thumbnail"),
    }
    assert!(matches!(ImageCache::image_source("/t", "/w/a.png", None, false), ImageSource::Generate));
}

#[test]
fn after_generating_a_preview() {
    let info = ImageInfo { thumbnail_path: "/t/g.jpg".to_string(), dimensions: (5, 6) };
    match ImageCache::after_generation(Some(info)) {
        AfterGeneration::CacheAndLoad(i) => {
            assert_eq!(i.thumbnail_path, "/t/g.jpg");
            assert_eq!(i.dimensions, (5, 6));
        }
        AfterGeneration::PreloadAndWait => panic!("expected the thumbnail to load"),
    }
    assert!(matches!(ImageCache::after_generation(None), AfterGeneration::PreloadAndWait));
}
