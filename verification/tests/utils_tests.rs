use nntp_rs::utils::{normalize_subject, parse_references};

#[test]
fn test_parse_references_empty() {
    assert!(parse_references(None).is_empty());
    assert!(parse_references(Some("")).is_empty());
}

#[test]
fn test_parse_references_single() {
    let refs = parse_references(Some("<abc@example.com>"));
    assert_eq!(refs, vec!["<abc@example.com>"]);
}

#[test]
fn test_parse_references_multiple() {
    let refs = parse_references(Some("<a@x.com> <b@x.com> <c@x.com>"));
    assert_eq!(refs, vec!["<a@x.com>", "<b@x.com>", "<c@x.com>"]);
}

#[test]
fn test_parse_references_filters_invalid() {
    let refs = parse_references(Some("<valid@x.com> invalid <also-valid@y.com>"));
    assert_eq!(refs, vec!["<valid@x.com>", "<also-valid@y.com>"]);
}

#[test]
fn test_normalize_subject_no_prefix() {
    assert_eq!(normalize_subject("Hello World"), "Hello World");
}

#[test]
fn test_normalize_subject_re_prefix() {
    assert_eq!(normalize_subject("Re: Hello World"), "Hello World");
    assert_eq!(normalize_subject("RE: Hello World"), "Hello World");
    assert_eq!(normalize_subject("re: Hello World"), "Hello World");
}

#[test]
fn test_normalize_subject_multiple_re() {
    assert_eq!(normalize_subject("Re: Re: Hello World"), "Hello World");
}

#[test]
fn test_normalize_subject_fwd_prefix() {
    assert_eq!(normalize_subject("Fwd: Hello World"), "Hello World");
    assert_eq!(normalize_subject("FWD: Hello World"), "Hello World");
    assert_eq!(normalize_subject("Fw: Hello World"), "Hello World");
}

#[test]
fn test_normalize_subject_mixed_prefixes() {
    assert_eq!(normalize_subject("Re: Fwd: Hello World"), "Hello World");
}

#[test]
fn test_normalize_subject_international_prefixes() {
    assert_eq!(normalize_subject("Aw: Hello World"), "Hello World"); // German
    assert_eq!(normalize_subject("Sv: Hello World"), "Hello World"); // Swedish
    assert_eq!(normalize_subject("Antw: Hello World"), "Hello World"); // German alternate
}

#[test]
fn test_normalize_subject_bracket_style() {
    assert_eq!(
        normalize_subject("[Fwd: Something] Hello World"),
        "Hello World"
    );
}
