use desktop_entry_daemon::errors::{EntryManagerError, IconValidationError};
use desktop_entry_daemon::imaging::{classify_icon, resize_to_fit, IconClass};
use desktop_entry_daemon::manager::EntryManager;
use desktop_entry_daemon::store::FileData;
use desktop_entry_daemon::Lifetime;

fn fresh() -> EntryManager {
    EntryManager::new(String::from("base"))
}

fn png_bytes(w: u32, h: u32) -> Vec<u8> {
    let img = image::DynamicImage::ImageRgba8(image::RgbaImage::from_pixel(
        w,
        h,
        image::Rgba([10, 20, 30, 255]),
    ));
    let mut out: Vec<u8> = Vec::new();
    img.write_to(&mut std::io::Cursor::new(&mut out), image::ImageFormat::Png).unwrap();
    out
}

fn binary_at(mgr: &EntryManager, path: &str) -> Option<Vec<u8>> {
    match mgr.file_content(&String::from(path)) {
        Some(FileData::Binary(v)) => Some(v.clone()),
        _ => None,
    }
}

fn decoded_dims(data: &[u8]) -> (u32, u32) {
    let img = image::ImageReader::new(std::io::Cursor::new(data))
        .with_guessed_format()
        .unwrap()
        .decode()
        .unwrap();
    (img.width(), img.height())
}

#[test]
fn square_icon_is_stored_at_its_side() {
    let mut mgr = fresh();
    let r = mgr.register_icon("com.example.App", &png_bytes(200, 200), Lifetime::Persistent);
    assert!(r.is_ok());
    let stored = binary_at(&mgr, "base/icons/hicolor/200x200/apps/com.example.App.png").unwrap();
    assert_eq!(decoded_dims(&stored), (200, 200));
}

#[test]
fn non_square_icon_is_rejected_without_write() {
    let mut mgr = fresh();
    let r = mgr.register_icon("x", &png_bytes(300, 400), Lifetime::Session);
    assert!(matches!(
        r,
        Err(EntryManagerError::IconValidation(IconValidationError::NotSquare))
    ));
    assert!(mgr.cache.icons.is_empty());
    assert!(mgr.file_content(&String::from("base/icons/hicolor/300x400/apps/x.png")).is_none());
    assert!(mgr.file_content(&String::from("base/icons/hicolor/400x300/apps/x.png")).is_none());
}

#[test]
fn oversized_icon_is_downscaled_to_the_bound() {
    let mut mgr = fresh();
    let r = mgr.register_icon("big", &png_bytes(1024, 1024), Lifetime::Session);
    assert!(r.is_ok());
    let stored = binary_at(&mgr, "base/icons/hicolor/512x512/apps/big.png").unwrap();
    assert_eq!(decoded_dims(&stored), (512, 512));
    assert!(mgr.file_content(&String::from("base/icons/hicolor/1024x1024/apps/big.png")).is_none());
}

#[test]
fn small_icon_is_not_resized() {
    let mut mgr = fresh();
    let r = mgr.register_icon("small", &png_bytes(300, 300), Lifetime::Session);
    assert!(r.is_ok());
    let stored = binary_at(&mgr, "base/icons/hicolor/300x300/apps/small.png").unwrap();
    assert_eq!(decoded_dims(&stored), (300, 300));
}

#[test]
fn vector_markup_is_written_verbatim() {
    let mut mgr = fresh();
    let svg = b"<svg xmlns=\"http://www.w3.org/2000/svg\" width=\"16\" height=\"16\"><rect width=\"16\" height=\"16\"/></svg>";
    let r = mgr.register_icon("x", svg, Lifetime::Session);
    assert!(r.is_ok());
    let stored = binary_at(&mgr, "base/icons/hicolor/scalable/apps/x.svg").unwrap();
    assert_eq!(stored, svg.to_vec());
}

#[test]
fn undecodable_payload_is_rejected() {
    let mut mgr = fresh();
    let r = mgr.register_icon("x", &[0xff, 0xfe, 0x00, 0x01], Lifetime::Session);
    assert!(matches!(
        r,
        Err(EntryManagerError::IconValidation(IconValidationError::NoTypeFound))
    ));
    assert!(mgr.cache.icons.is_empty());
}

#[test]
fn raster_takes_priority_over_utf8_text() {
    // a plain-text bitmap: valid UTF-8 and decodable raster data at once
    let pbm = b"P1\n2 2\n0 1\n1 0\n";
    assert!(std::str::from_utf8(pbm).is_ok());
    assert_eq!(classify_icon(pbm), IconClass::Raster(2, 2));
    let mut mgr = fresh();
    let r = mgr.register_icon("prio", pbm, Lifetime::Session);
    assert!(r.is_ok());
    // stored as a raster icon, not under the vector path
    assert!(binary_at(&mgr, "base/icons/hicolor/2x2/apps/prio.png").is_some());
    assert!(mgr.file_content(&String::from("base/icons/hicolor/scalable/apps/prio.svg")).is_none());
}

#[test]
fn jpeg_icon_is_reencoded_as_png() {
    let mut mgr = fresh();
    let img = image::DynamicImage::ImageRgb8(image::RgbImage::from_pixel(64, 64, image::Rgb([9, 8, 7])));
    let mut jpeg: Vec<u8> = Vec::new();
    img.write_to(&mut std::io::Cursor::new(&mut jpeg), image::ImageFormat::Jpeg).unwrap();
    let r = mgr.register_icon("photo", &jpeg, Lifetime::Session);
    assert!(r.is_ok());
    let stored = binary_at(&mgr, "base/icons/hicolor/64x64/apps/photo.png").unwrap();
    assert_eq!(decoded_dims(&stored), (64, 64));
    // stored as PNG, whatever came in
    assert!(stored.starts_with(&[0x89, b'P', b'N', b'G']));
}

#[test]
fn zero_dimension_raster_is_rejected() {
    // a farbfeld header declaring a 0x0 image decodes, but cannot be
    // stored as PNG
    let ff = b"farbfeld\x00\x00\x00\x00\x00\x00\x00\x00";
    assert_eq!(classify_icon(ff), IconClass::Raster(0, 0));
    let mut mgr = fresh();
    let r = mgr.register_icon("empty", ff, Lifetime::Session);
    assert!(matches!(
        r,
        Err(EntryManagerError::IconValidation(IconValidationError::ImageFormat))
    ));
    assert!(mgr.cache.icons.is_empty());
}

#[test]
fn rollback_undoes_the_latest_icon() {
    let mut mgr = fresh();
    assert!(mgr.register_icon("x", &png_bytes(64, 64), Lifetime::Session).is_ok());
    let undone = mgr.rollback_icon(Lifetime::Session);
    assert_eq!(undone.as_deref(), Some("base/icons/hicolor/64x64/apps/x.png"));
    assert!(mgr.file_content(&String::from("base/icons/hicolor/64x64/apps/x.png")).is_none());
    assert!(mgr.rollback_icon(Lifetime::Persistent).is_none());
}

#[test]
fn icon_path_collision_is_rejected() {
    let mut mgr = fresh();
    assert!(mgr.register_icon("x", &png_bytes(64, 64), Lifetime::Session).is_ok());
    let r = mgr.register_icon("x", &png_bytes(64, 64), Lifetime::Persistent);
    match r {
        Err(EntryManagerError::PathCollision(p)) => {
            assert_eq!(p, "base/icons/hicolor/64x64/apps/x.png");
        },
        _ => panic!("expected a path collision"),
    }
}

#[test]
fn resize_policy_exact_values() {
    assert_eq!(resize_to_fit(1024, 512), 512);
    assert_eq!(resize_to_fit(512, 512), 512);
    assert_eq!(resize_to_fit(300, 512), 300);
    assert_eq!(resize_to_fit(513, 512), 512);
}

#[test]
fn icon_error_messages() {
    assert_eq!(IconValidationError::NotSquare.message(), "Icon is not square!");
    assert_eq!(
        IconValidationError::NoTypeFound.message(),
        "Icon specified does not match binary image data nor UTF-8 encoded .svg data."
    );
}
