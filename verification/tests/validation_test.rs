use std::io::Cursor;

use icon_scraper::errors::IconError;
use icon_scraper::util::{AsImageFormat, ImageFormat};
use icon_scraper::{Dimensions, FetchResponse, Icon, IconCollection};

fn b(s: &str) -> Vec<u8> {
    s.as_bytes().to_vec()
}

fn encoded(w: u32, h: u32, fmt: image::ImageFormat) -> Vec<u8> {
    let img = image::RgbaImage::new(w, h);
    let mut buf = Cursor::new(Vec::new());
    image::DynamicImage::ImageRgba8(img).write_to(&mut buf, fmt).unwrap();
    buf.into_inner()
}

fn response(status: u16, ct: Option<&str>, body: Vec<u8>) -> FetchResponse {
    FetchResponse { status, content_type: ct.map(|s| s.as_bytes().to_vec()), body }
}

#[test]
fn test_decode_success_records_size_and_mime() {
    let mut icon = Icon::from_url(b("http://example.com/icon.png"));
    let r = icon.apply_response(response(200, Some("image/png"), encoded(2, 3, image::ImageFormat::Png)));
    assert!(r.is_ok());
    assert_eq!(icon.size, Some(Dimensions { width: 2, height: 3 }));
    assert_eq!(icon.mime_type, Some(b("image/png")));
    assert!(icon.raw.is_some());
}

#[test]
fn test_content_type_case_and_parameters_are_normalized() {
    let mut icon = Icon::from_url(b("u"));
    let r = icon.apply_response(response(
        200,
        Some(" IMAGE/PNG ; charset=utf-8"),
        encoded(1, 1, image::ImageFormat::Png),
    ));
    assert!(r.is_ok());
    assert_eq!(icon.mime_type, Some(b("image/png")));
}

#[test]
fn test_bad_status_fails_candidate() {
    let mut icon = Icon::from_url(b("u"));
    let r = icon.apply_response(response(404, Some("image/png"), encoded(1, 1, image::ImageFormat::Png)));
    assert_eq!(r, Err(IconError::BadStatus));
    assert_eq!(icon.size, None);
    assert!(icon.raw.is_none());
}

#[test]
fn test_missing_content_type_fails_candidate() {
    let mut icon = Icon::from_url(b("u"));
    let r = icon.apply_response(response(200, None, encoded(1, 1, image::ImageFormat::Png)));
    assert_eq!(r, Err(IconError::MissingContentType));
    assert_eq!(icon.size, None);
}

#[test]
fn test_unsupported_content_type_after_failed_sniff() {
    let mut icon = Icon::from_url(b("u"));
    let r = icon.apply_response(response(200, Some("text/plain"), b("certainly not an image")));
    assert_eq!(r, Err(IconError::UnsupportedContentType));
    assert_eq!(icon.size, None);
}

#[test]
fn test_decode_error_on_claimed_format() {
    let mut icon = Icon::from_url(b("u"));
    let r = icon.apply_response(response(200, Some("image/png"), b("garbage bytes")));
    assert_eq!(r, Err(IconError::DecodeError));
    assert_eq!(icon.size, None);
}

#[test]
fn test_sniffing_rescues_unknown_content_type() {
    let mut icon = Icon::from_url(b("u"));
    let r = icon.apply_response(response(
        200,
        Some("application/octet-stream"),
        encoded(4, 5, image::ImageFormat::Png),
    ));
    assert!(r.is_ok());
    assert_eq!(icon.size, Some(Dimensions { width: 4, height: 5 }));
    assert_eq!(icon.mime_type, Some(b("image/png")));
}

#[test]
fn test_ico_content_types_normalize_to_one_value() {
    let mut a = Icon::from_url(b("a"));
    let ra = a.apply_response(response(200, Some("image/x-icon"), encoded(1, 1, image::ImageFormat::Ico)));
    let mut c = Icon::from_url(b("c"));
    let rc = c.apply_response(response(
        200,
        Some("image/vnd.microsoft.icon"),
        encoded(1, 1, image::ImageFormat::Ico),
    ));
    assert!(ra.is_ok());
    assert!(rc.is_ok());
    assert_eq!(a.mime_type, Some(b("image/x-icon")));
    assert_eq!(c.mime_type, Some(b("image/x-icon")));
    assert_eq!(a.size, Some(Dimensions { width: 1, height: 1 }));
    assert_eq!(c.size, Some(Dimensions { width: 1, height: 1 }));
}

#[test]
fn test_validation_happens_once() {
    let mut icon = Icon::from_url(b("u"));
    let first = icon.apply_response(response(200, Some("image/gif"), encoded(2, 2, image::ImageFormat::Gif)));
    assert!(first.is_ok());
    let again = icon.apply_response(response(404, None, b("irrelevant")));
    assert!(again.is_ok());
    assert_eq!(icon.size, Some(Dimensions { width: 2, height: 2 }));
    assert_eq!(icon.mime_type, Some(b("image/gif")));
}

#[test]
fn test_resolver_answers() {
    assert_eq!(b("image/gif").parse_image_format(), Some((b("image/gif"), ImageFormat::Gif)));
    assert_eq!(
        b("IMAGE/JPEG; q=1").parse_image_format(),
        Some((b("image/jpeg"), ImageFormat::Jpeg))
    );
    assert_eq!(b("text/x-icon").parse_image_format(), Some((b("image/x-icon"), ImageFormat::Ico)));
    assert_eq!(
        b("image/vnd.microsoft.icon").parse_image_format(),
        Some((b("image/x-icon"), ImageFormat::Ico))
    );
    assert_eq!(b("text/html").parse_image_format(), None);
    assert_eq!(b("imagepng").parse_image_format(), None);
}

#[test]
fn test_failed_candidate_excluded_without_aborting() {
    let mut bad = Icon::from_url(b("http://example.com/bad.png"));
    let mut good = Icon::from_url(b("http://example.com/good.png"));
    let bad_result = bad.apply_response(response(404, Some("image/png"), encoded(1, 1, image::ImageFormat::Png)));
    assert!(bad_result.is_err());
    let good_result = good.apply_response(response(200, Some("image/png"), encoded(8, 8, image::ImageFormat::Png)));
    assert!(good_result.is_ok());
    let mut survivors = Vec::new();
    for ic in [bad, good] {
        if ic.is_sized() {
            survivors.push(ic);
        }
    }
    assert_eq!(survivors.len(), 1);
    let c = IconCollection::from_raw(survivors);
    let top = c.largest().unwrap();
    assert_eq!(top.url, b("http://example.com/good.png"));
}
