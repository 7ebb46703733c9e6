use fusion_core::headers::apply_fingerprint_headers_except;
use fusion_core::headers::{
    attachment, cache_control, content_disposition_attachment, content_disposition_inline,
    content_type, content_type_value, download, fingerprint_headers, framework_version, headers_map,
    location, CACHE_CONTROL, CONTENT_DISPOSITION, CONTENT_TYPE, LOCATION, TEXT_CSV,
};

#[test]
fn attachment_includes_filename() {
    let v = content_disposition_attachment("report.pdf");
    assert!(v.starts_with("attachment;"));
    assert!(v.contains("filename=\"report.pdf\""));
    assert!(v.contains("filename*=UTF-8''report.pdf"));
}

#[test]
fn attachment_strips_path() {
    let v = content_disposition_attachment("/tmp/docs/my file.pdf");
    assert!(v.contains("filename=\"my file.pdf\""));
    assert!(v.contains("filename*=UTF-8''my%20file.pdf"));
}

#[test]
fn download_sets_both_headers() {
    let h = download("a.csv", Some(TEXT_CSV));
    assert_eq!(h.get(CONTENT_TYPE).map(String::as_str), Some(TEXT_CSV));
    assert!(h.get(CONTENT_DISPOSITION).unwrap().contains("attachment"));
}

#[test]
fn disposition_exact_values() {
    assert_eq!(
        content_disposition_attachment("C:\\dir\\a\"b.txt"),
        "attachment; filename=\"a\\\"b.txt\"; filename*=UTF-8''a%22b.txt"
    );
    assert_eq!(content_disposition_inline(None), "inline");
    assert_eq!(
        content_disposition_inline(Some("é.png")),
        "inline; filename=\"é.png\"; filename*=UTF-8''%C3%A9.png"
    );
}

#[test]
fn content_type_with_and_without_charset() {
    assert_eq!(content_type_value("text/html", Some("utf-8")), "text/html; charset=utf-8");
    assert_eq!(content_type_value("image/png", None), "image/png");
    assert_eq!(content_type("text/plain", None).get(CONTENT_TYPE).map(String::as_str), Some("text/plain"));
}

#[test]
fn single_header_maps() {
    assert_eq!(location("/next").get(LOCATION).map(String::as_str), Some("/next"));
    assert_eq!(cache_control("no-store").get(CACHE_CONTROL).map(String::as_str), Some("no-store"));
    assert!(attachment("x.bin").get(CONTENT_DISPOSITION).is_some());
    assert_eq!(fusion_core::headers::inline(None).get(CONTENT_DISPOSITION).map(String::as_str), Some("inline"));
    let m = headers_map(&[("a", "1".to_string()), ("a", "2".to_string())]);
    assert_eq!(m.get("a").map(String::as_str), Some("2"));
}

#[test]
fn fingerprint_names_the_version() {
    assert_eq!(framework_version(), "2.0.1");
    let f = fingerprint_headers();
    assert_eq!(f.len(), 3);
    assert!(f.entries().iter().any(|(_, v)| v == "2.0.1"));
}

#[test]
fn attachment_value_has_no_line_break() {
    let v = content_disposition_attachment("dir/ev\r\nil\".txt");
    assert!(!v.contains('\r') && !v.contains('\n'));
    assert_eq!(v, "attachment; filename=\"evil\\\".txt\"; filename*=UTF-8''ev%0D%0Ail%22.txt");
}

#[test]
fn fingerprint_except_adds_only_missing_unsuppressed() {
    let mut h = vec![("Content-Type".to_string(), "text/plain".to_string())];
    apply_fingerprint_headers_except(&mut h, &vec!["x-framework".to_string()]);
    assert_eq!(h[0], ("Content-Type".to_string(), "text/plain".to_string()));
    let names: Vec<&str> = h.iter().map(|(k, _)| k.as_str()).collect();
    assert_eq!(names, vec!["Content-Type", "X-Powered-By", "X-Fusion-Version"]);
}
