use idota::vdf::{escape_vdf, library_paths_from_vdf, unescape_vdf};

#[test]
fn parses_modern_libraryfolders_vdf() {
    let vdf = r#"
"libraryfolders"
{
    "contentstatsid" "-3072164613065168484"
    "0"
    {
        "path" "C:\\Program Files (x86)\\Steam\\steamapps"
        "label" ""
        "apps"
        {
            "570" "1896152561"
        }
    }
    "1"
    {
        "path" "D:\\Games\\SteamLibrary\\steamapps"
    }
}
"#;
    let paths = library_paths_from_vdf(vdf);
    assert_eq!(
        paths,
        vec![
            String::from(r"C:\Program Files (x86)\Steam\steamapps"),
            String::from(r"D:\Games\SteamLibrary\steamapps"),
        ]
    );
}

#[test]
fn parses_legacy_libraryfolders_vdf() {
    let vdf = r#"
"libraryfolders"
{
    "0"
    {
        "path" "D:\\SteamLibrary"
    }
}
"#;
    assert_eq!(
        library_paths_from_vdf(vdf),
        vec![String::from(r"D:\SteamLibrary")]
    );
}

#[test]
fn path_key_ignores_ascii_case() {
    let vdf = r#""PATH" "/a" "Path" "/b" "paths" "/c""#;
    assert_eq!(
        library_paths_from_vdf(vdf),
        vec![String::from("/a"), String::from("/b")]
    );
}

#[test]
fn path_value_is_not_a_key() {
    // The second `path` is the value of the first; "x" is a key without a value.
    let vdf = r#""path" "path" "x""#;
    assert_eq!(library_paths_from_vdf(vdf), vec![String::from("path")]);
}

#[test]
fn path_as_a_value_of_another_key_is_not_taken() {
    let vdf = r#""libraryfolders" { "0" { "label" "path" "apps" { } } }"#;
    assert!(library_paths_from_vdf(vdf).is_empty());
}

#[test]
fn path_key_with_a_block_gives_nothing() {
    let vdf = r#""path" { "a" "b" } "path" "/c""#;
    assert_eq!(library_paths_from_vdf(vdf), vec![String::from("/c")]);
}

#[test]
fn braces_end_an_unfinished_pair() {
    // "k" waits for a value; the `}` ends it, so the next string is a key.
    let vdf = r#"{ "k" } "path" "/d""#;
    assert_eq!(library_paths_from_vdf(vdf), vec![String::from("/d")]);
}

#[test]
fn no_tokens_no_paths() {
    assert!(library_paths_from_vdf("").is_empty());
    assert!(library_paths_from_vdf("\"path\"").is_empty());
    assert!(library_paths_from_vdf("path /a").is_empty());
}

#[test]
fn unterminated_quote_still_counts_as_token() {
    // Splitting on `"` puts the text after an unmatched quote at an odd position.
    let vdf = "\"path\" \"/tail";
    assert_eq!(library_paths_from_vdf(vdf), vec![String::from("/tail")]);
}

#[test]
fn unescape_known_escapes() {
    assert_eq!(unescape_vdf(r"a\\b"), "a\\b");
    assert_eq!(unescape_vdf(r#"a\"b"#), "a\"b");
    assert_eq!(unescape_vdf(r"a\nb"), "a\nb");
    assert_eq!(unescape_vdf(r"a\tb"), "a\tb");
}

#[test]
fn unescape_keeps_unknown_escapes_and_trailing_backslash() {
    assert_eq!(unescape_vdf(r"a\qb"), "a\\qb");
    assert_eq!(unescape_vdf("ab\\"), "ab\\");
    assert_eq!(unescape_vdf(""), "");
}

#[test]
fn escape_quotes_and_backslashes() {
    assert_eq!(escape_vdf("a\"b\\c"), "a\\\"b\\\\c");
    assert_eq!(escape_vdf("plain"), "plain");
    assert_eq!(escape_vdf("\n"), "\n");
}

#[test]
fn escape_then_unescape_round_trips() {
    for s in ["", "a\"b\\c", "\\\\", "\"\"", "x\\ny", "tab\there", "ünï\\cödé\""] {
        assert_eq!(unescape_vdf(&escape_vdf(s)), s);
    }
}
