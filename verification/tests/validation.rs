use mcm_finder::validation::is_valid_minecraft_version;
use mcm_finder::text::sanitize_text;
use mcm_finder::validation::{
    parse_uuid, parse_uuid_list, sanitize_optional_text, sanitize_string_list,
    validate_comparison_notes, validate_keywords, validate_minecraft_version,
};
use uuid::Uuid;

#[test]
fn validates_keyword_count_and_sanitization() {
    let keywords = vec![
        "  sodium ".to_string(),
        "\n".to_string(),
        "fabric".to_string(),
    ];
    let validated = validate_keywords(&keywords).unwrap();
    assert_eq!(validated, vec!["sodium".to_string(), "fabric".to_string()]);
}

#[test]
fn validates_minecraft_version_patterns() {
    assert_eq!(
        validate_minecraft_version(Some("1.20.1")).unwrap(),
        Some("1.20.1".to_string())
    );
    assert!(validate_minecraft_version(Some("1.20-rc1")).is_err());
}

#[test]
fn validates_uuid_lists() {
    let values = vec![Uuid::new_v4().to_string()];
    let parsed = parse_uuid_list(&values, "ids", 5).unwrap();
    assert_eq!(parsed.len(), 1);
}

#[test]
fn sanitize_text_collapses_whitespace_and_drops_controls() {
    assert_eq!(sanitize_text("  a \t b\u{7}c  \n d "), "a bc d");
    assert_eq!(sanitize_text("\u{3000}x\u{a0}y"), "x y");
    assert_eq!(sanitize_text(""), "");
    assert_eq!(sanitize_text(" \n\t "), "");
}

#[test]
fn sanitize_text_is_idempotent_on_examples() {
    for s in ["  a  b ", "x\u{0}y", "\t\tq", "plain"] {
        let once = sanitize_text(s);
        assert_eq!(sanitize_text(&once), once);
    }
}

#[test]
fn keywords_empty_after_sanitizing_are_refused() {
    let keywords = vec![" ".to_string(), "\n".to_string()];
    assert_eq!(
        validate_keywords(&keywords).unwrap_err(),
        "keywords must contain between 1 and 10 non-empty values"
    );
    assert!(validate_keywords(&[]).is_err());
}

#[test]
fn keywords_more_than_ten_are_refused() {
    let keywords: Vec<String> = (0..11).map(|i| format!("k{}", i)).collect();
    assert_eq!(
        validate_keywords(&keywords).unwrap_err(),
        "keywords must contain between 1 and 10 non-empty values"
    );
    let ten: Vec<String> = (0..10).map(|i| format!("k{}", i)).collect();
    assert_eq!(validate_keywords(&ten).unwrap().len(), 10);
}

#[test]
fn keywords_longer_than_64_bytes_are_refused() {
    let long = "a".repeat(65);
    assert_eq!(
        validate_keywords(&[long]).unwrap_err(),
        "each keyword must be 64 characters or fewer"
    );
    let exact = "a".repeat(64);
    assert_eq!(validate_keywords(&[exact.clone()]).unwrap(), vec![exact]);
    // 33 two-byte characters are 66 bytes.
    let wide = "é".repeat(33);
    assert!(validate_keywords(&[wide]).is_err());
}

#[test]
fn string_list_limits_and_messages() {
    let values = vec![" a ".to_string(), "".to_string(), "b".to_string()];
    assert_eq!(
        sanitize_string_list(&values, "tags", 2, 5).unwrap(),
        vec!["a".to_string(), "b".to_string()]
    );
    assert_eq!(
        sanitize_string_list(&values, "tags", 1, 5).unwrap_err(),
        "tags supports at most 1 values"
    );
    let long = vec!["abcdef".to_string()];
    assert_eq!(
        sanitize_string_list(&long, "tags", 3, 5).unwrap_err(),
        "tags values must be 5 characters or fewer"
    );
}

#[test]
fn minecraft_version_accepted_shapes() {
    for v in ["1.20", "1.20.1", "1.20.x", "1.20.X", "1.20+", "1.20.1++"] {
        assert_eq!(
            validate_minecraft_version(Some(v)).unwrap(),
            Some(v.to_string()),
            "{}",
            v
        );
    }
    assert_eq!(
        validate_minecraft_version(Some(" 1.20 ")).unwrap(),
        Some("1.20".to_string())
    );
    assert_eq!(validate_minecraft_version(None).unwrap(), None);
    assert_eq!(validate_minecraft_version(Some("   ")).unwrap(), None);
}

#[test]
fn minecraft_version_errors() {
    assert_eq!(
        validate_minecraft_version(Some("1.20-rc1")).unwrap_err(),
        "minecraft_version must only contain digits, dots, optional x-range, or + suffix"
    );
    assert_eq!(
        validate_minecraft_version(Some("1.2.3.4.5.6.7.8.9.10.11")).unwrap_err(),
        "minecraft_version must be 20 characters or fewer"
    );
    for v in ["1", "1.2.3.4", "1..2", ".1", "x", "1.x.2", "1.20.xx"] {
        assert_eq!(
            validate_minecraft_version(Some(v)).unwrap_err(),
            "minecraft_version must match format like 1.20, 1.20.1, 1.20.x, or 1.20+",
            "{}",
            v
        );
    }
}

#[test]
fn optional_text_limits() {
    assert_eq!(sanitize_optional_text(None, "notes", 3).unwrap(), None);
    assert_eq!(sanitize_optional_text(Some(" \n "), "notes", 3).unwrap(), None);
    assert_eq!(
        sanitize_optional_text(Some(" a  b "), "notes", 3).unwrap(),
        Some("a b".to_string())
    );
    assert_eq!(
        sanitize_optional_text(Some("abcd"), "notes", 3).unwrap_err(),
        "notes must be 3 characters or fewer"
    );
}

#[test]
fn parse_uuid_reads_text_and_names_field() {
    let id = Uuid::new_v4();
    assert_eq!(parse_uuid(&id.to_string(), "id").unwrap(), id.as_u128());
    assert_eq!(
        parse_uuid("not-a-uuid", "session_id").unwrap_err(),
        "session_id must be a valid UUID (xxxxxxxx-xxxx-xxxx-xxxx-xxxxxxxxxxxx)"
    );
    let upper = "67E55044-10B1-426F-9247-BB680E5FE0C8";
    assert_eq!(
        parse_uuid(upper, "id").unwrap(),
        0x67e5504410b1426f9247bb680e5fe0c8u128
    );
}

#[test]
fn uuid_list_errors_name_count_and_index() {
    let good = Uuid::new_v4().to_string();
    let values = vec![good.clone(), "bad".to_string(), "worse".to_string()];
    assert_eq!(
        parse_uuid_list(&values, "ids", 5).unwrap_err(),
        "ids[1] must be a valid UUID (xxxxxxxx-xxxx-xxxx-xxxx-xxxxxxxxxxxx)"
    );
    assert_eq!(
        parse_uuid_list(&values, "ids", 2).unwrap_err(),
        "ids supports at most 2 values"
    );
    let ids = vec![good.clone(), good.clone()];
    let parsed = parse_uuid_list(&ids, "ids", 2).unwrap();
    assert_eq!(parsed, vec![Uuid::parse_str(&good).unwrap().as_u128(); 2]);
}

#[test]
fn comparison_notes_are_checked_and_kept() {
    let a = Uuid::new_v4();
    let b = Uuid::new_v4();
    let notes = vec![
        (a.to_string(), "  good   mod ".to_string()),
        (b.to_string(), " \n ".to_string()),
    ];
    let kept = validate_comparison_notes(&notes, 5, 20).unwrap();
    assert_eq!(kept, vec![(a.as_u128(), "good mod".to_string())]);

    assert_eq!(
        validate_comparison_notes(&notes, 1, 20).unwrap_err(),
        "comparison_notes supports at most 1 entries"
    );
    let bad_key = vec![("nope".to_string(), "x".to_string())];
    assert_eq!(
        validate_comparison_notes(&bad_key, 5, 20).unwrap_err(),
        "comparison_notes key must be a valid UUID (xxxxxxxx-xxxx-xxxx-xxxx-xxxxxxxxxxxx)"
    );
    let long = vec![(a.to_string(), "abcdef".to_string())];
    assert_eq!(
        validate_comparison_notes(&long, 5, 5).unwrap_err(),
        format!("comparison note for {} exceeds 5 characters", a)
    );
}

#[test]
fn minecraft_version_shapes_without_sanitizing() {
    assert!(is_valid_minecraft_version("1.20"));
    assert!(is_valid_minecraft_version("1.20.1+"));
    assert!(is_valid_minecraft_version("1.20.X"));
    assert!(is_valid_minecraft_version("1.20.x++"));
    assert!(!is_valid_minecraft_version("1.20.x.x"));
    assert!(!is_valid_minecraft_version(" 1.20"));
    assert!(!is_valid_minecraft_version("1"));
    assert!(!is_valid_minecraft_version(""));
}

#[test]
fn accepted_keywords_are_accepted_again_unchanged() {
    let keywords = vec![" a\u{1}  b ".to_string(), "\tc".to_string(), "".to_string()];
    let once = validate_keywords(&keywords).unwrap();
    assert_eq!(once, vec!["a b".to_string(), "c".to_string()]);
    assert_eq!(validate_keywords(&once).unwrap(), once);
}

#[test]
fn comparison_notes_keep_the_last_note_per_uuid() {
    let id = Uuid::new_v4();
    let other = Uuid::new_v4();
    let notes = vec![
        (id.to_string(), "first".to_string()),
        (other.to_string(), "other".to_string()),
        (id.to_string().to_uppercase(), " later ".to_string()),
        (id.to_string(), "   ".to_string()),
    ];
    let kept = validate_comparison_notes(&notes, 10, 100).unwrap();
    assert_eq!(
        kept,
        vec![(id.as_u128(), "later".to_string()), (other.as_u128(), "other".to_string())]
    );
}

#[test]
fn sanitized_text_splits_back_into_words() {
    let s = sanitize_text(" alpha\u{7}beta \t gamma\n\u{3000}delta ");
    assert_eq!(s, "alphabeta gamma delta");
    let words: Vec<&str> = s.split(' ').collect();
    assert_eq!(words, vec!["alphabeta", "gamma", "delta"]);
    let expected: Vec<String> = " alpha\u{7}beta \t gamma\n\u{3000}delta "
        .chars()
        .filter(|c| !c.is_control())
        .collect::<String>()
        .split_whitespace()
        .map(|w| w.to_string())
        .collect();
    assert_eq!(words, expected);
}
