use blogcore::dates::{format_rfc3339, get_date, is_valid_date};
use blogcore::matter::{parse_front_matter, MetadataParseError};

#[test]
fn parse_full_front_matter() {
    let doc = "---\ntitle: Hello\npublished_at: 2024-01-01\nsnippet: s\ntags:\n- rust\n- verification\n---\n# Heading One\n\nSome *text*.";
    let (fm, body) = parse_front_matter(doc).unwrap();
    assert_eq!(fm.title, "Hello");
    assert_eq!(fm.published_at, "2024-01-01");
    assert_eq!(fm.snippet, "s");
    assert_eq!(fm.tags, Some(vec!["rust".to_string(), "verification".to_string()]));
    assert_eq!(body, "# Heading One\n\nSome *text*.");
}

#[test]
fn parse_flow_tags_and_quotes() {
    let doc = "---\ntitle: \"Quoted Title\"\ntags: [a, \"b c\", d]\n---\nbody";
    let (fm, body) = parse_front_matter(doc).unwrap();
    assert_eq!(fm.title, "Quoted Title");
    assert_eq!(fm.tags, Some(vec!["a".to_string(), "b c".to_string(), "d".to_string()]));
    assert_eq!(body, "body");
}

#[test]
fn parse_missing_fields_default() {
    let doc = "---\ntitle: Only Title\n---\nbody";
    let (fm, _) = parse_front_matter(doc).unwrap();
    assert_eq!(fm.title, "Only Title");
    assert_eq!(fm.published_at, "");
    assert_eq!(fm.snippet, "");
    assert_eq!(fm.tags, None);
}

#[test]
fn parse_no_front_matter_is_all_body() {
    let doc = "just a document\nwith two lines";
    let (fm, body) = parse_front_matter(doc).unwrap();
    assert_eq!(fm.title, "");
    assert_eq!(fm.tags, None);
    assert_eq!(body, doc);
}

#[test]
fn parse_unterminated_block_fails() {
    let doc = "---\ntitle: Hello\nno closing fence";
    assert_eq!(parse_front_matter(doc).unwrap_err(), MetadataParseError::MissingClose);
}

#[test]
fn parse_bad_line_fails() {
    let doc = "---\nthis line has no colon\n---\nbody";
    assert_eq!(parse_front_matter(doc).unwrap_err(), MetadataParseError::BadEntry);
}

#[test]
fn parse_scalar_tags_fails() {
    let doc = "---\ntags: notalist\n---\nbody";
    assert_eq!(parse_front_matter(doc).unwrap_err(), MetadataParseError::BadTags);
}

#[test]
fn parse_comments_and_blanks_ignored() {
    let doc = "---\n# a comment\n\ntitle: T\n---\nbody";
    let (fm, _) = parse_front_matter(doc).unwrap();
    assert_eq!(fm.title, "T");
}

#[test]
fn parse_unknown_keys_ignored() {
    let doc = "---\nauthor: someone\ntitle: T\nextra:\n- swallowed\n---\nbody";
    let (fm, _) = parse_front_matter(doc).unwrap();
    assert_eq!(fm.title, "T");
    assert_eq!(fm.tags, None);
}

#[test]
fn rfc3339_with_time() {
    assert_eq!(format_rfc3339("2024-05-12 21:34"), "2024-05-12T21:34:00Z");
}

#[test]
fn rfc3339_date_only() {
    assert_eq!(format_rfc3339("2024-05-12"), "2024-05-12T00:00:00Z");
}

#[test]
fn rfc3339_unparsable_passes_through() {
    assert_eq!(format_rfc3339("not-a-date"), "not-a-date");
}

#[test]
fn rfc3339_rejects_invalid_calendar_dates() {
    assert_eq!(format_rfc3339("2024-13-01"), "2024-13-01");
    assert_eq!(format_rfc3339("2023-02-29"), "2023-02-29");
    assert_eq!(format_rfc3339("2024-02-29"), "2024-02-29T00:00:00Z");
    assert_eq!(format_rfc3339("2024-05-12 24:00"), "2024-05-12 24:00");
}

#[test]
fn date_validity() {
    assert!(is_valid_date("2000-02-29"));
    assert!(!is_valid_date("1900-02-29"));
    assert!(!is_valid_date("2024-04-31"));
    assert!(!is_valid_date("2024-05-12 21:34"));
}

#[test]
fn date_display_short() {
    assert_eq!(get_date("2024-01-01", false), "Jan 01, 2024");
    assert_eq!(get_date("2026-01-12", false), "Jan 12, 2026");
}

#[test]
fn date_display_long() {
    // 2024-01-01 was a Monday; single-digit days are space-padded.
    assert_eq!(get_date("2024-01-01", true), "Monday, January  1, 2024");
    assert_eq!(get_date("2024-11-25", true), "Monday, November 25, 2024");
}

#[test]
fn date_display_passthrough() {
    assert_eq!(get_date("soon", true), "soon");
    assert_eq!(get_date("soon", false), "soon");
}

#[test]
fn parse_crlf_document() {
    let doc = "---\r\ntitle: T\r\npublished_at: 2024-01-01\r\n---\r\nbody";
    let (fm, body) = parse_front_matter(doc).unwrap();
    assert_eq!(fm.title, "T");
    assert_eq!(fm.published_at, "2024-01-01");
    assert_eq!(body, "body");
}
