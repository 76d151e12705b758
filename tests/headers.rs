use httplatencies::headers::{cycle_headers, ConfigurationError, HeaderNamePathPair, HeaderValues};
use reqwest::header::{HeaderName, HeaderValue};

fn load(spec: &str, contents: &str) -> HeaderValues {
    let pair = HeaderNamePathPair::try_from_os_string(spec.as_bytes()).unwrap();
    HeaderValues::new(pair, contents.as_bytes()).unwrap()
}

fn values_under(m: &reqwest::header::HeaderMap, name: &str) -> Vec<Vec<u8>> {
    m.get_all(HeaderName::from_bytes(name.as_bytes()).unwrap())
        .iter()
        .map(|v| v.as_bytes().to_vec())
        .collect()
}

#[test]
fn spec_splits_at_first_colon() {
    let pair = HeaderNamePathPair::try_from_os_string(b"Authorization:/tmp/a:b.txt").unwrap();
    assert_eq!(pair.path().as_slice(), b"/tmp/a:b.txt");
}

#[test]
fn spec_without_colon_is_refused() {
    let r = HeaderNamePathPair::try_from_os_string(b"Authorization/tmp/tokens");
    assert!(matches!(r, Err(ConfigurationError::MissingSeparator)));
}

#[test]
fn spec_with_bad_name_is_refused() {
    let r = HeaderNamePathPair::try_from_os_string(b"Bad Name:/tmp/tokens");
    assert!(matches!(r, Err(ConfigurationError::InvalidHeaderName)));
    let r = HeaderNamePathPair::try_from_os_string(b":/tmp/tokens");
    assert!(matches!(r, Err(ConfigurationError::InvalidHeaderName)));
}

#[test]
fn spec_with_empty_path_is_accepted() {
    let pair = HeaderNamePathPair::try_from_os_string(b"x-a:").unwrap();
    assert!(pair.path().is_empty());
}

#[test]
fn values_are_lines_without_terminator() {
    let pair = HeaderNamePathPair::try_from_os_string(b"x-token:/f").unwrap();
    let hv = HeaderValues::new(pair, b"Bearer a\nBearer b\nlast").unwrap();
    let mut cycle = cycle_headers(std::slice::from_ref(&hv));
    let mut seen = Vec::new();
    for _ in 0..3 {
        let m = cycle.next().unwrap();
        seen.push(values_under(&m, "x-token"));
    }
    assert_eq!(seen, vec![vec![b"Bearer a".to_vec()], vec![b"Bearer b".to_vec()], vec![b"last".to_vec()]]);
}

#[test]
fn empty_line_is_an_empty_value() {
    let hv = load("x-a:/f", "\n\nz\n");
    let mut cycle = cycle_headers(std::slice::from_ref(&hv));
    assert_eq!(values_under(&cycle.next().unwrap(), "x-a"), vec![Vec::<u8>::new()]);
    assert_eq!(values_under(&cycle.next().unwrap(), "x-a"), vec![Vec::<u8>::new()]);
    assert_eq!(values_under(&cycle.next().unwrap(), "x-a"), vec![b"z".to_vec()]);
    assert_eq!(values_under(&cycle.next().unwrap(), "x-a"), vec![Vec::<u8>::new()]);
}

#[test]
fn invalid_value_line_is_reported() {
    let pair = HeaderNamePathPair::try_from_os_string(b"x-a:/f").unwrap();
    let r = HeaderValues::new(pair, b"ok\nalso ok\nbad\x7fvalue\nfine\n");
    assert!(matches!(r, Err(ConfigurationError::InvalidHeaderValue { line: 2 })));
    let pair = HeaderNamePathPair::try_from_os_string(b"x-a:/f").unwrap();
    let r = HeaderValues::new(pair, b"ok\nbad\x00");
    assert!(matches!(r, Err(ConfigurationError::InvalidHeaderValue { line: 1 })));
}

#[test]
fn tab_and_high_bytes_are_valid_values() {
    let hv = load("x-a:/f", "a\tb\n");
    let mut cycle = cycle_headers(std::slice::from_ref(&hv));
    assert_eq!(values_under(&cycle.next().unwrap(), "x-a"), vec![b"a\tb".to_vec()]);
    let pair = HeaderNamePathPair::try_from_os_string(b"x-b:/f").unwrap();
    assert!(HeaderValues::new(pair, &[0xc3, 0xa9, b'\n']).is_ok());
}

#[test]
fn cycle_value_is_line_i_mod_k() {
    let a = load("x-a:/a", "a0\na1\na2\n");
    let b = load("x-b:/b", "b0\nb1\n");
    let headers = vec![a, b];
    let mut cycle = cycle_headers(&headers);
    for i in 0..12usize {
        let m = cycle.next().unwrap();
        assert_eq!(values_under(&m, "x-a"), vec![format!("a{}", i % 3).into_bytes()]);
        assert_eq!(values_under(&m, "x-b"), vec![format!("b{}", i % 2).into_bytes()]);
        assert_eq!(m.len(), 2);
    }
}

#[test]
fn same_name_twice_gives_both_values() {
    let a = load("x-a:/a", "p\nq\n");
    let b = load("X-A:/b", "r\n");
    let headers = vec![a, b];
    let mut cycle = cycle_headers(&headers);
    let m = cycle.next().unwrap();
    assert_eq!(values_under(&m, "x-a"), vec![b"p".to_vec(), b"r".to_vec()]);
    let m = cycle.next().unwrap();
    assert_eq!(values_under(&m, "x-a"), vec![b"q".to_vec(), b"r".to_vec()]);
}

#[test]
fn empty_file_ends_the_cycle_at_once() {
    let a = load("x-a:/a", "a0\na1\n");
    let b = load("x-b:/b", "");
    let headers = vec![a, b];
    let mut cycle = cycle_headers(&headers);
    assert!(cycle.next().is_none());
    assert!(cycle.next().is_none());
}

#[test]
fn no_headers_gives_empty_combinations() {
    let headers: Vec<HeaderValues> = Vec::new();
    let mut cycle = cycle_headers(&headers);
    for _ in 0..3 {
        assert!(cycle.next().unwrap().is_empty());
    }
}

#[test]
fn header_value_keeps_bytes() {
    let hv = load("x-a:/a", "Bearer xyz\n");
    let mut cycle = cycle_headers(std::slice::from_ref(&hv));
    let m = cycle.next().unwrap();
    assert_eq!(m.get("x-a"), Some(&HeaderValue::from_static("Bearer xyz")));
}

#[test]
fn carriage_return_line_is_refused() {
    let pair = HeaderNamePathPair::try_from_os_string(b"x-a:/f").unwrap();
    let r = HeaderValues::new(pair, b"a\r\n");
    assert!(matches!(r, Err(ConfigurationError::InvalidHeaderValue { line: 0 })));
}

#[test]
fn too_many_header_names_end_the_cycle() {
    let headers: Vec<HeaderValues> = (0..6554).map(|k| load(&format!("x-h{}:/f", k), "v\n")).collect();
    let mut cycle = cycle_headers(&headers);
    assert!(cycle.next().is_none());
    let headers: Vec<HeaderValues> = (0..300).map(|k| load(&format!("x-h{}:/f", k), "v\n")).collect();
    let mut cycle = cycle_headers(&headers);
    assert_eq!(cycle.next().unwrap().len(), 300);
}
