use checkbox_frontend::bookmark::query_pairs;

fn pairs(q: &str) -> Vec<(String, String)> {
    query_pairs(q)
}

fn owned(v: &[(&str, &str)]) -> Vec<(String, String)> {
    v.iter().map(|(k, s)| (k.to_string(), s.to_string())).collect()
}

/// The bookmark a query describes: `(x, y, zoom)`, defaults `(0, 0, 1)`;
/// values that do not parse, and a zoom that is not positive, are ignored.
fn bookmark_of(q: &str) -> (f64, f64, f64) {
    let (mut x, mut y, mut zoom) = (0.0, 0.0, 1.0);
    for (key, value) in query_pairs(q) {
        match key.as_str() {
            "x" => {
                if let Ok(v) = value.parse::<f64>() {
                    x = v;
                }
            }
            "y" => {
                if let Ok(v) = value.parse::<f64>() {
                    y = v;
                }
            }
            "z" => {
                if let Ok(v) = value.parse::<f64>() {
                    if v > 0.0 {
                        zoom = v;
                    }
                }
            }
            _ => {}
        }
    }
    (x, y, zoom)
}

#[test]
fn test_parse_empty() {
    assert_eq!(bookmark_of(""), (0.0, 0.0, 1.0));
}

#[test]
fn test_parse_positive_coords() {
    let (x, y, zoom) = bookmark_of("x=1000&y=2000&z=1.5");
    assert_eq!(x, 1000.0);
    assert_eq!(y, 2000.0);
    assert_eq!(zoom, 1.5);
}

#[test]
fn test_parse_negative_coords() {
    let (x, y, zoom) = bookmark_of("x=-5000&y=-10000&z=0.5");
    assert_eq!(x, -5000.0);
    assert_eq!(y, -10000.0);
    assert_eq!(zoom, 0.5);
}

#[test]
fn test_parse_partial() {
    let (x, y, zoom) = bookmark_of("x=500");
    assert_eq!(x, 500.0);
    assert_eq!(y, 0.0);
    assert_eq!(zoom, 1.0);
}

#[test]
fn test_parse_invalid_values() {
    let (x, y, zoom) = bookmark_of("x=abc&y=100&z=-1");
    assert_eq!(x, 0.0);
    assert_eq!(y, 100.0);
    assert_eq!(zoom, 1.0);
}

#[test]
fn test_parse_large_coords() {
    let (x, y, zoom) = bookmark_of("x=1000000000&y=-999999999&z=0.1");
    assert_eq!(x, 1_000_000_000.0);
    assert_eq!(y, -999_999_999.0);
    assert_eq!(zoom, 0.1);
}

#[test]
fn query_pairs_empty_query_has_no_pairs() {
    assert_eq!(pairs(""), owned(&[]));
}

#[test]
fn query_pairs_in_order() {
    assert_eq!(
        pairs("x=1000&y=2000&z=1.5"),
        owned(&[("x", "1000"), ("y", "2000"), ("z", "1.5")])
    );
}

#[test]
fn query_pairs_skip_fields_without_equals() {
    assert_eq!(pairs("x&y=2&&z"), owned(&[("y", "2")]));
}

#[test]
fn query_pairs_cut_at_first_equals() {
    assert_eq!(pairs("x=1=2&=3&y="), owned(&[("x", "1=2"), ("", "3"), ("y", "")]));
}

#[test]
fn query_pairs_keep_repeated_keys() {
    assert_eq!(pairs("x=1&x=2"), owned(&[("x", "1"), ("x", "2")]));
}

#[test]
fn query_pairs_handle_non_ascii() {
    assert_eq!(pairs("ключ=значение&é=ü"), owned(&[("ключ", "значение"), ("é", "ü")]));
}

#[test]
fn query_pairs_trailing_separator() {
    assert_eq!(pairs("x=1&"), owned(&[("x", "1")]));
}
