use static_mem_cache::http_range::{
    bytes_range, parse_range_header, BadRangeError, ByteRangeSpec, ConditionalHeaders,
    ConditionalOutcome,
};

#[test]
fn parses_the_three_forms() {
    assert_eq!(parse_range_header(b"bytes=0-49"), Some(ByteRangeSpec::FromTo(0, 49)));
    assert_eq!(parse_range_header(b"bytes=5-"), Some(ByteRangeSpec::From(5)));
    assert_eq!(parse_range_header(b"bytes=-10"), Some(ByteRangeSpec::Suffix(10)));
}

#[test]
fn rejects_malformed_values() {
    assert_eq!(parse_range_header(b"items=0-1"), None);
    assert_eq!(parse_range_header(b"bytes=a-1"), None);
    assert_eq!(parse_range_header(b"bytes=1-2-3"), None);
    assert_eq!(parse_range_header(b"bytes=-"), None);
    assert_eq!(parse_range_header(b"bytes=12"), None);
    assert_eq!(parse_range_header(b"bytes"), None);
    assert_eq!(parse_range_header(b"bytes=99999999999999999999-"), None);
}

#[test]
fn largest_number_is_accepted() {
    assert_eq!(
        parse_range_header(b"bytes=18446744073709551615-"),
        Some(ByteRangeSpec::From(u64::MAX))
    );
}

#[test]
fn resolves_intervals() {
    assert_eq!(bytes_range(None, 100), Ok((0, 100)));
    assert_eq!(bytes_range(Some(b"bytes=0-49"), 100), Ok((0, 50)));
    assert_eq!(bytes_range(Some(b"bytes=0-200"), 100), Ok((0, 100)));
    assert_eq!(bytes_range(Some(b"bytes=90-"), 100), Ok((90, 100)));
    assert_eq!(bytes_range(Some(b"bytes=-10"), 100), Ok((90, 100)));
    assert_eq!(bytes_range(Some(b"bytes=-500"), 100), Ok((0, 100)));
}

#[test]
fn unsatisfiable_intervals_fail() {
    assert_eq!(bytes_range(Some(b"bytes=100-200"), 100), Err(BadRangeError));
    assert_eq!(bytes_range(Some(b"bytes=50-10"), 100), Err(BadRangeError));
    assert_eq!(bytes_range(Some(b"bytes=-0"), 100), Err(BadRangeError));
    assert_eq!(bytes_range(Some(b"bytes=0-0"), 0), Err(BadRangeError));
    assert_eq!(bytes_range(Some(b"nonsense"), 100), Err(BadRangeError));
}

#[test]
fn conditional_outcomes() {
    let none = ConditionalHeaders { if_modified_since: None, if_unmodified_since: None, if_range: None };
    assert_eq!(none.check(Some(10)), ConditionalOutcome::WithBody(true));
    let ims = ConditionalHeaders { if_modified_since: Some(10), ..none };
    assert_eq!(ims.check(Some(10)), ConditionalOutcome::NotModified);
    assert_eq!(ims.check(Some(11)), ConditionalOutcome::WithBody(true));
    assert_eq!(ims.check(None), ConditionalOutcome::WithBody(true));
    let ius = ConditionalHeaders { if_unmodified_since: Some(10), ..none };
    assert_eq!(ius.check(Some(11)), ConditionalOutcome::PreconditionFailed);
    assert_eq!(ius.check(None), ConditionalOutcome::PreconditionFailed);
    assert_eq!(ius.check(Some(10)), ConditionalOutcome::WithBody(true));
    let if_range = ConditionalHeaders { if_range: Some(10), ..none };
    assert_eq!(if_range.check(Some(11)), ConditionalOutcome::WithBody(false));
    assert_eq!(if_range.check(Some(9)), ConditionalOutcome::WithBody(true));
}
