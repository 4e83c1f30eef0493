use pdf_viewer::archive::{archive_body, ArchiveError, ArchiveHandle};
use pdf_viewer::decimal::decimal_text;
use pdf_viewer::extension::{extension, is_image_name, is_img_extension};
use pdf_viewer::listing::{image_listing, is_comparable, is_pair_comparable, sort_natural};
use pdf_viewer::range::{clamp, compute, content_range, plan, ByteRange, RangeError, RangeOutcome, MAX_CHUNK};
use pdf_viewer::request::{image_mime, parse_index, pdf_target, split_query, zip_target, RequestError};
use pdf_viewer::base64::decode_base64;
use pdf_viewer::resolve::{decode_percent, resolve, Encoding, ResolveError};
use std::io::Write;

fn names(v: &[&str]) -> Vec<String> {
    v.iter().map(|s| s.to_string()).collect()
}

fn zip_of(entries: &[(&str, &[u8])]) -> Vec<u8> {
    let mut w = zip::ZipWriter::new(std::io::Cursor::new(Vec::new()));
    for (name, body) in entries {
        w.start_file(*name, zip::write::SimpleFileOptions::default()).unwrap();
        w.write_all(body).unwrap();
    }
    w.finish().unwrap().into_inner()
}

#[test]
fn natural_order_by_embedded_number() {
    let r = image_listing(names(&["p10.png", "p2.png", "p1.png"]));
    assert_eq!(r, Some(names(&["p1.png", "p2.png", "p10.png"])));
}

#[test]
fn natural_order_of_many_numbers() {
    let r = sort_natural(names(&["a10", "a2", "a1", "a9", "a3"]));
    assert_eq!(r, names(&["a1", "a2", "a3", "a9", "a10"]));
}

#[test]
fn listing_keeps_only_images_ignoring_case() {
    let r = image_listing(names(&["a.png", "b.txt", "c.JPEG", "d"]));
    assert_eq!(r, Some(names(&["a.png", "c.JPEG"])));
}

#[test]
fn listing_of_nothing_is_empty() {
    assert_eq!(image_listing(Vec::new()), Some(Vec::new()));
}

#[test]
fn listing_refuses_overlong_numbers() {
    assert!(!is_comparable("IMG_20230101123456.jpg"));
    assert!(is_comparable("img123456789.jpg"));
    assert!(!is_pair_comparable("x12345678901.png", "x22345678901.png"));
    assert!(is_pair_comparable("IMG_20230101123456.jpg", "IMG_20230101123457.jpg"));
    assert!(is_pair_comparable("IMG_20230101123456.jpg", "a.png"));
    assert_eq!(image_listing(names(&["x22345678901.png", "x12345678901.png"])), None);
    assert_eq!(image_listing(names(&["x22345678901.txt", "x12345678901.png"])), Some(names(&["x12345678901.png"])));
}

#[test]
fn listing_of_timestamped_names() {
    let r = image_listing(names(&["IMG_20230101123457.jpg", "a.png", "IMG_20230101123456.jpg"]));
    assert_eq!(r, Some(names(&["IMG_20230101123456.jpg", "IMG_20230101123457.jpg", "a.png"])));
}

#[test]
fn image_extensions() {
    assert!(is_img_extension("png"));
    assert!(is_img_extension("JPG"));
    assert!(is_img_extension("WebP"));
    assert!(is_img_extension("bmp"));
    assert!(!is_img_extension("gif"));
    assert!(!is_img_extension(""));
    assert!(!is_img_extension("pngx"));
}

#[test]
fn extensions_of_names() {
    assert_eq!(extension("a.tar.gz"), "gz");
    assert_eq!(extension(".png"), "");
    assert_eq!(extension("noext"), "");
    assert_eq!(extension("a."), "");
    assert_eq!(extension("x.png"), "png");
    assert!(is_image_name("x.JPEG"));
    assert!(!is_image_name(".png"));
}

#[test]
fn long_request_is_clamped() {
    let o = compute(Some("bytes=0-899999"), 900000, 409600);
    assert_eq!(o, RangeOutcome::Partial(ByteRange { start: 0, length: 409600 }));
    assert_eq!(o.status_code(), 206);
    let h = o.headers(900000);
    assert_eq!(h[3], ("Content-Range".to_string(), "bytes 0-409599/900000".to_string()));
    assert_eq!(h[2], ("Content-Length".to_string(), "409600".to_string()));
    assert_eq!(h[0], ("Connection".to_string(), "Keep-Alive".to_string()));
    assert_eq!(h[1], ("Accept-Ranges".to_string(), "bytes".to_string()));
}

#[test]
fn clamp_near_the_end_stays_inside() {
    let s = clamp(ByteRange { start: 990, length: 10 }, 1000, MAX_CHUNK);
    assert_eq!(s, ByteRange { start: 990, length: 10 });
    let o = compute(Some("bytes=990-1089"), 1000, MAX_CHUNK);
    assert_eq!(o, RangeOutcome::Partial(ByteRange { start: 990, length: 10 }));
    let w = clamp(ByteRange { start: 600, length: 400 }, 1000, 100);
    assert_eq!(w, ByteRange { start: 600, length: 100 });
    let o = compute(Some("bytes=0-"), 1000, MAX_CHUNK);
    assert_eq!(o, RangeOutcome::Partial(ByteRange { start: 0, length: 1000 }));
}

#[test]
fn short_request_is_served_as_asked() {
    let o = compute(Some("bytes=10-19"), 1000, MAX_CHUNK);
    assert_eq!(o, RangeOutcome::Partial(ByteRange { start: 10, length: 10 }));
    assert_eq!(content_range(ByteRange { start: 10, length: 10 }, 1000), "bytes 10-19/1000");
}

#[test]
fn no_range_serves_everything() {
    let o = compute(None, 1000, MAX_CHUNK);
    assert_eq!(o, RangeOutcome::Full);
    assert_eq!(o.status_code(), 200);
    assert_eq!(o.headers(1000), vec![("Content-Length".to_string(), "1000".to_string())]);
}

#[test]
fn unusable_range_falls_back_to_whole() {
    let o = compute(Some("items=0-1"), 1000, MAX_CHUNK);
    assert_eq!(o, RangeOutcome::WholeFallback);
    assert_eq!(o.status_code(), 206);
    assert!(o.headers(1000).is_empty());
    assert_eq!(compute(Some(""), 1000, MAX_CHUNK), RangeOutcome::WholeFallback);
    assert_eq!(compute(Some("bytes=5000-"), 1000, MAX_CHUNK), RangeOutcome::WholeFallback);
    assert_eq!(plan(Some(Err(RangeError::Unparsable)), 1000, MAX_CHUNK), RangeOutcome::WholeFallback);
    assert_eq!(compute(Some("bytes=0-"), 0, MAX_CHUNK), RangeOutcome::WholeFallback);
}

#[test]
fn only_first_range_is_honoured() {
    let o = compute(Some("bytes=100-199, 0-9"), 1000, MAX_CHUNK);
    assert_eq!(o, RangeOutcome::Partial(ByteRange { start: 100, length: 100 }));
    let p = plan(
        Some(Ok(vec![ByteRange { start: 5, length: 5 }, ByteRange { start: 0, length: 1 }])),
        1000,
        MAX_CHUNK,
    );
    assert_eq!(p, RangeOutcome::Partial(ByteRange { start: 5, length: 5 }));
}

#[test]
fn archive_count_and_entries() {
    let bytes = zip_of(&[("a.png", b"first"), ("b.png", b"second entry"), ("c.png", b"")]);
    let mut h = ArchiveHandle::open(bytes).unwrap();
    assert_eq!(h.count(), 3);
    assert_eq!(archive_body(&mut h, None), Ok(b"3".to_vec()));
    assert_eq!(archive_body(&mut h, Some(0)), Ok(b"first".to_vec()));
    assert_eq!(archive_body(&mut h, Some(1)), Ok(b"second entry".to_vec()));
    assert_eq!(archive_body(&mut h, Some(2)), Ok(Vec::new()));
    assert_eq!(archive_body(&mut h, Some(3)), Err(ArchiveError::IndexOutOfBounds));
    assert_eq!(h.read_entry(usize::MAX), Err(ArchiveError::IndexOutOfBounds));
}

#[test]
fn archive_of_twelve_counts_in_decimal() {
    let bodies: Vec<(String, Vec<u8>)> = (0..12).map(|i| (format!("{}.png", i), vec![i as u8])).collect();
    let refs: Vec<(&str, &[u8])> = bodies.iter().map(|(n, b)| (n.as_str(), b.as_slice())).collect();
    let mut h = ArchiveHandle::open(zip_of(&refs)).unwrap();
    assert_eq!(archive_body(&mut h, None), Ok(b"12".to_vec()));
    assert_eq!(archive_body(&mut h, Some(11)), Ok(vec![11u8]));
}

#[test]
fn corrupt_archive_is_refused() {
    assert!(matches!(ArchiveHandle::open(b"not a zip".to_vec()), Err(ArchiveError::InvalidArchive)));
}

#[test]
fn percent_decoding() {
    assert_eq!(decode_percent("plain/path.pdf"), "plain/path.pdf");
    assert_eq!(decode_percent("C:/docs/é.pdf"), "C:/docs/é.pdf");
    assert_eq!(decode_percent("a%20b%3f"), "a b?");
    assert_eq!(decode_percent("100%"), "100%");
    assert_eq!(decode_percent("%zz%4"), "%zz%4");
    assert_eq!(decode_percent("%C3%A9"), "é");
    assert_eq!(decode_percent("%FF"), "\u{FFFD}");
    assert_eq!(decode_percent(""), "");
}

#[test]
fn document_requests() {
    assert_eq!(pdf_target("GET", "pdf://localhost/C%3A/a%20b.pdf"), Ok("C:/a b.pdf".to_string()));
    assert_eq!(pdf_target("POST", "pdf://localhost/a.pdf"), Err(RequestError::BadMethod));
    assert_eq!(pdf_target("GET", "zip://localhost/a.pdf"), Err(RequestError::BadUri));
}

#[test]
fn archive_requests() {
    let t = zip_target("zip://localhost/C%3A/a.zip?2").unwrap();
    assert_eq!(t.path, "C:/a.zip");
    assert_eq!(t.index, Some(2));
    let t = zip_target("zip://localhost/a%3Fb.zip").unwrap();
    assert_eq!(t.path, "a?b.zip");
    assert_eq!(t.index, None);
    let t = zip_target("zip://localhost/a?b.zip?+7").unwrap();
    assert_eq!(t.path, "a?b.zip");
    assert_eq!(t.index, Some(7));
    assert!(matches!(zip_target("zip://localhost/a.zip?x"), Err(RequestError::BadIndex)));
    assert!(matches!(zip_target("zip://localhost/a.zip?"), Err(RequestError::BadIndex)));
    assert!(matches!(zip_target("pdf://localhost/a.zip"), Err(RequestError::BadUri)));
}

#[test]
fn query_splitting() {
    assert_eq!(split_query("a?b?c"), ("a?b", Some("c")));
    assert_eq!(split_query("abc"), ("abc", None));
    assert_eq!(split_query("?"), ("", Some("")));
}

#[test]
fn index_parsing() {
    assert_eq!(parse_index("0"), Some(0));
    assert_eq!(parse_index("42"), Some(42));
    assert_eq!(parse_index("+5"), Some(5));
    assert_eq!(parse_index(""), None);
    assert_eq!(parse_index("+"), None);
    assert_eq!(parse_index("-1"), None);
    assert_eq!(parse_index("12a"), None);
    assert_eq!(parse_index("18446744073709551615"), Some(usize::MAX));
    assert_eq!(parse_index("18446744073709551616"), None);
    assert_eq!(parse_index("99999999999999999999999"), None);
}

#[test]
fn image_media_types() {
    assert_eq!(image_mime("x.JPG"), Ok("image/JPG".to_string()));
    assert_eq!(image_mime("dir.v2/x.webp"), Ok("image/webp".to_string()));
    assert_eq!(image_mime("x.gif"), Err(RequestError::UnsupportedType));
    assert_eq!(image_mime("x"), Err(RequestError::UnsupportedType));
}

#[test]
fn decimal_texts() {
    assert_eq!(decimal_text(0), "0");
    assert_eq!(decimal_text(409599), "409599");
    assert_eq!(decimal_text(u64::MAX), "18446744073709551615");
}

#[test]
fn base64_decoding() {
    assert_eq!(decode_base64("L3RtcC9hLnBkZg"), Some(b"/tmp/a.pdf".to_vec()));
    assert_eq!(decode_base64("YWI"), Some(b"ab".to_vec()));
    assert_eq!(decode_base64("YQ"), Some(b"a".to_vec()));
    assert_eq!(decode_base64(""), Some(Vec::new()));
    assert_eq!(decode_base64("//4"), Some(vec![0xff, 0xfe]));
    assert_eq!(decode_base64("Y"), None);
    assert_eq!(decode_base64("YR"), None);
    assert_eq!(decode_base64("YQ=="), None);
    assert_eq!(decode_base64("Y*Q"), None);
}

#[test]
fn resolving_identifiers() {
    assert_eq!(resolve("/tmp/a%20b.pdf", Encoding::Plain), Ok("/tmp/a%20b.pdf".to_string()));
    assert_eq!(resolve("/tmp/a%20b.pdf", Encoding::PercentEncoded), Ok("/tmp/a b.pdf".to_string()));
    assert_eq!(resolve("L3RtcC9hLnBkZg", Encoding::Base64), Ok("/tmp/a.pdf".to_string()));
    assert_eq!(resolve("QzovZG9jcy/DqS5wZGY", Encoding::Base64), Ok("C:/docs/é.pdf".to_string()));
    assert_eq!(resolve("//4", Encoding::Base64), Err(ResolveError::InvalidEncoding));
    assert_eq!(resolve("L3RtcC9hLnBkZg==", Encoding::Base64), Err(ResolveError::InvalidEncoding));
}

#[test]
fn repeated_range_requests_agree() {
    let first = compute(Some("bytes=1000-"), 5_000_000, MAX_CHUNK);
    assert_eq!(first, RangeOutcome::Partial(ByteRange { start: 1000, length: 409600 }));
    for _ in 0..16 {
        let again = compute(Some("bytes=1000-"), 5_000_000, MAX_CHUNK);
        assert_eq!(again, first);
        assert_eq!(again.headers(5_000_000), first.headers(5_000_000));
    }
}

#[test]
fn stray_percent_signs_decode_unchanged() {
    assert_eq!(decode_percent("100% done"), "100% done");
    assert_eq!(decode_percent("%g1%%"), "%g1%%");
    assert_eq!(resolve("50%off.pdf", Encoding::PercentEncoded), Ok("50%off.pdf".to_string()));
}

#[test]
fn damaged_entry_fails_to_read() {
    let mut w = zip::ZipWriter::new(std::io::Cursor::new(Vec::new()));
    let stored = zip::write::SimpleFileOptions::default().compression_method(zip::CompressionMethod::Stored);
    w.start_file("a.png", stored).unwrap();
    w.write_all(b"intact bytes here").unwrap();
    w.start_file("b.png", stored).unwrap();
    w.write_all(b"DAMAGED-PAYLOAD").unwrap();
    let mut bytes = w.finish().unwrap().into_inner();
    let at = bytes.windows(15).position(|s| s == b"DAMAGED-PAYLOAD").unwrap();
    bytes[at] = b'X';
    let mut h = ArchiveHandle::open(bytes).unwrap();
    assert_eq!(h.count(), 2);
    assert_eq!(archive_body(&mut h, Some(0)), Ok(b"intact bytes here".to_vec()));
    assert_eq!(archive_body(&mut h, Some(1)), Err(ArchiveError::ReadFailed));
    assert_eq!(archive_body(&mut h, Some(2)), Err(ArchiveError::IndexOutOfBounds));
}
