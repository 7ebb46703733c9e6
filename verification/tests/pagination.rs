use fusion_core::json::JsonValue;
use fusion_core::pagination::{paginate_slice, paginated_body, parse_page_params, PageConfig, PageParams};
use fusion_core::strmap::StrMap;

fn q(pairs: &[(&str, &str)]) -> StrMap<String> {
    let mut m = StrMap::new();
    for (k, v) in pairs {
        m.insert(k.to_string(), v.to_string());
    }
    m
}

#[test]
fn defaults_page_and_size() {
    let params = parse_page_params(&q(&[]), &PageConfig::default()).unwrap();
    assert_eq!(
        params,
        PageParams {
            page: 1,
            page_size: 20,
            offset: 0,
        }
    );
}

#[test]
fn parses_page_and_page_size() {
    let params =
        parse_page_params(&q(&[("page", "3"), ("page_size", "10")]), &PageConfig::default())
            .unwrap();
    assert_eq!(
        params,
        PageParams {
            page: 3,
            page_size: 10,
            offset: 20,
        }
    );
}

#[test]
fn per_page_and_limit_aliases() {
    let from_per_page = parse_page_params(&q(&[("per_page", "5")]), &PageConfig::default()).unwrap();
    assert_eq!(from_per_page.page_size, 5);

    let from_limit = parse_page_params(&q(&[("limit", "15")]), &PageConfig::default()).unwrap();
    assert_eq!(from_limit.page_size, 15);
}

#[test]
fn explicit_offset_overrides_page_math() {
    let params = parse_page_params(
        &q(&[("page", "2"), ("page_size", "10"), ("offset", "50")]),
        &PageConfig::default(),
    )
    .unwrap();
    assert_eq!(params.offset, 50);
    assert_eq!(params.page, 2);
}

#[test]
fn clamps_to_max_page_size() {
    let params = parse_page_params(
        &q(&[("page_size", "500")]),
        &PageConfig {
            default_page_size: 20,
            max_page_size: 100,
        },
    )
    .unwrap();
    assert_eq!(params.page_size, 100);
}

#[test]
fn rejects_invalid_page() {
    assert!(parse_page_params(&q(&[("page", "0")]), &PageConfig::default()).is_err());
}

#[test]
fn paginated_body_shape() {
    let params = PageParams {
        page: 2,
        page_size: 10,
        offset: 10,
    };
    let body = paginated_body(JsonValue::Array(vec![JsonValue::from_u64(1)]), 25, &params);
    assert!(body.as_object().is_some());
    assert!(body.get("items").is_some());
    let meta = body.get("pagination").unwrap();
    assert!(meta.as_object().is_some());
    assert_eq!(meta.get("total").and_then(JsonValue::as_u64), Some(25));
    assert_eq!(meta.get("total_pages").and_then(JsonValue::as_u64), Some(3));
    assert_eq!(meta.get("has_next").and_then(JsonValue::as_bool), Some(true));
    assert_eq!(meta.get("has_prev").and_then(JsonValue::as_bool), Some(true));
}

#[test]
fn paginate_slice_bounds() {
    let items: Vec<i32> = (0..25).collect();
    let params = PageParams {
        page: 3,
        page_size: 10,
        offset: 20,
    };
    let slice = paginate_slice(&items, &params);
    assert_eq!(slice, vec![20, 21, 22, 23, 24]);
}

#[test]
fn rejects_zero_page_size_with_message() {
    let err = parse_page_params(&q(&[("per_page", "0")]), &PageConfig::default()).unwrap_err();
    assert_eq!(err.status, 400);
    assert_eq!(err.detail, JsonValue::String("page_size must be >= 1".to_string()));
}

#[test]
fn page_zero_message() {
    let err = parse_page_params(&q(&[("page", "0")]), &PageConfig::default()).unwrap_err();
    assert_eq!(err.detail, JsonValue::String("page must be >= 1".to_string()));
}

#[test]
fn ignores_blank_and_invalid_numbers() {
    let p = parse_page_params(&q(&[("page", " "), ("page_size", "abc"), ("per_page", " 7 ")]), &PageConfig::default()).unwrap();
    assert_eq!(p.page, 1);
    assert_eq!(p.page_size, 7);
    assert_eq!(p.offset, 0);
}

#[test]
fn huge_page_saturates_offset() {
    let p = parse_page_params(&q(&[("page", "18446744073709551615"), ("page_size", "100")]), &PageConfig::default()).unwrap();
    assert_eq!(p.offset, u64::MAX);
}

#[test]
fn total_pages_values() {
    assert_eq!(PageParams::total_pages(0, 10), 0);
    assert_eq!(PageParams::total_pages(25, 10), 3);
    assert_eq!(PageParams::total_pages(30, 10), 3);
    assert_eq!(PageParams::total_pages(5, 0), 0);
}

#[test]
fn last_page_has_no_next() {
    let p = PageParams { page: 3, page_size: 10, offset: 20 };
    assert!(!p.has_next(25));
    assert!(p.has_prev());
    assert_eq!(p.limit(), 10);
}

#[test]
fn slice_past_end_is_empty() {
    let items: Vec<i32> = (0..5).collect();
    let p = PageParams { page: 9, page_size: 10, offset: 80 };
    assert!(paginate_slice(&items, &p).is_empty());
}
