use utils::extract::{
    check_content_length, content_length_limit, finish_extract, is_chunked, parse_content_length,
};
use utils::response::ErrCode;

#[test]
fn limits_by_setting() {
    assert_eq!(content_length_limit("large"), 2147483648);
    assert_eq!(content_length_limit("medium"), 1073741824);
    assert_eq!(content_length_limit("small"), 536870912);
    assert_eq!(content_length_limit("tiny"), 0);
    assert_eq!(content_length_limit(""), 0);
}

#[test]
fn bodiless_method_with_length_is_refused() {
    let r = check_content_length(true, Some(3), false, 100).unwrap_err();
    assert_eq!(r.0, 405);
    assert_eq!(r.1.meta.err_code, ErrCode::MethodNotAllowed);
    assert_eq!(
        r.1.meta.err_message,
        "`GET`, `HEAD`, `OPTIONS` requests are not allowed to have a `Content-Length` header"
    );
}

#[test]
fn bodiless_method_chunked_is_refused() {
    let r = check_content_length(true, None, true, 100).unwrap_err();
    assert_eq!(r.0, 400);
    assert_eq!(r.1.meta.err_message, "Content length header is required");
}

#[test]
fn bodiless_method_without_body_passes() {
    assert!(check_content_length(true, None, false, 0).is_ok());
}

#[test]
fn missing_length_is_refused() {
    let r = check_content_length(false, None, false, 100).unwrap_err();
    assert_eq!(r.0, 400);
    assert_eq!(r.1.meta.err_code, ErrCode::BadRequest);
    assert_eq!(r.1.meta.err_message, "Content length header is required");
}

#[test]
fn too_large_is_refused_at_the_edge() {
    assert!(check_content_length(false, Some(100), false, 100).is_ok());
    let r = check_content_length(false, Some(101), false, 100).unwrap_err();
    assert_eq!(r.0, 400);
    assert_eq!(r.1.meta.err_message, "Request payload is too large");
    assert!(r.1.body.is_none());
}

#[test]
fn inner_failure_is_bad_request() {
    let ok = finish_extract::<u8, ()>(Ok(4)).ok().unwrap();
    assert_eq!(ok.0, 4);
    let r = finish_extract::<u8, ()>(Err(())).err().unwrap();
    assert_eq!(r.0, 400);
    assert_eq!(r.1.meta.err_message, "Content length header is required");
}

#[test]
fn content_length_header_reads_as_a_number() {
    assert_eq!(parse_content_length(b"0"), Some(0));
    assert_eq!(parse_content_length(b"1024"), Some(1024));
    assert_eq!(parse_content_length(b"+7"), Some(7));
    assert_eq!(parse_content_length(b"007"), Some(7));
    assert_eq!(parse_content_length(b"18446744073709551615"), Some(u64::MAX));
    assert_eq!(parse_content_length(b"18446744073709551616"), None);
    assert_eq!(parse_content_length(b""), None);
    assert_eq!(parse_content_length(b"+"), None);
    assert_eq!(parse_content_length(b"-1"), None);
    assert_eq!(parse_content_length(b"12a"), None);
    assert_eq!(parse_content_length(b" 12"), None);
    assert_eq!(parse_content_length(&[0x31, 0x80]), None);
}

#[test]
fn content_length_reads_as_std_parses() {
    for s in ["0", "42", "+42", "0042", "99999999999999999999", "", "+", "4 2", "x"] {
        assert_eq!(parse_content_length(s.as_bytes()), s.parse::<u64>().ok(), "{}", s);
    }
}

#[test]
fn only_chunked_is_chunked() {
    assert!(is_chunked(b"chunked"));
    assert!(!is_chunked(b"Chunked"));
    assert!(!is_chunked(b"chunked, gzip"));
    assert!(!is_chunked(b""));
    assert!(!is_chunked(b"chunke"));
}
