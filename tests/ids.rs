use readtomyshoe::{derive_article_id, truncate_to_bytes, ArticleTextSubmission, StrEncoding, FILENAME_TITLE_MAXLEN};

fn submission(title: &str, body: &str) -> ArticleTextSubmission {
    ArticleTextSubmission { title: title.to_string(), body: body.to_string() }
}

#[test]
fn test_title_truncation() {
    let title = "Money Stuff: AMC’s APEs Might Stick Around";
    assert_eq!(
        truncate_to_bytes(title, FILENAME_TITLE_MAXLEN, StrEncoding::Utf8),
        "Money Stuff: AMC’s"
    );
}

#[test]
fn utf16_truncation_counts_code_units() {
    // 'a' is one code unit (two bytes), '😀' two code units (four bytes).
    assert_eq!(truncate_to_bytes("aa😀b", 6, StrEncoding::Utf16), "aa");
    assert_eq!(truncate_to_bytes("aa😀b", 8, StrEncoding::Utf16), "aa😀");
    assert_eq!(truncate_to_bytes("abc", 4, StrEncoding::Utf8), "abc");
}

#[test]
fn id_is_deterministic() {
    let a = derive_article_id(&submission("Test", "A. B. C."));
    let b = derive_article_id(&submission("Test", "A. B. C."));
    assert_eq!(a, b);
}

#[test]
fn id_has_short_title_and_hash() {
    let id = derive_article_id(&submission("Money Stuff: AMC’s APEs Might Stick Around", "body"));
    // The colon is replaced, then the title is cut to 20 bytes.
    assert!(id.starts_with("Money Stuff_ AMC’s-"));
    let hash = &id["Money Stuff_ AMC’s-".len()..];
    assert_eq!(hash.len(), 26);
    assert!(hash.chars().all(|c| "ybndrfg8ejkmcpqxot1uwisza345h769".contains(c)));
}

#[test]
fn id_differs_for_different_content() {
    let base = derive_article_id(&submission("Title", "Body"));
    assert_ne!(base, derive_article_id(&submission("Title", "Body!")));
    assert_ne!(base, derive_article_id(&submission("Title!", "Body")));
    // The title's length is hashed first, so moving text between title and body changes the ID.
    let ab_c = derive_article_id(&submission("ab", "c"));
    let a_bc = derive_article_id(&submission("a", "bc"));
    assert_ne!(ab_c.split('-').last(), a_bc.split('-').last());
}

#[test]
fn id_is_filesystem_safe() {
    let title = "a/b\\c:d*e?f\"g<h>i|j\u{1}k\u{85}";
    let id = derive_article_id(&submission(title, "text"));
    for bad in ['/', '\\', ':', '*', '?', '"', '<', '>', '|', '\u{1}', '\u{85}'] {
        assert!(!id.contains(bad), "{id:?} holds {bad:?}");
    }
    assert!(id.starts_with("a_b_c_d_e_f_g_h_i_j_"));
}

#[test]
fn reserved_title_is_replaced() {
    let id = derive_article_id(&submission("..", "text"));
    assert!(id.starts_with("_-"));
}

#[test]
fn delete_character_is_replaced() {
    let id = derive_article_id(&submission("a\u{7f}b", "text"));
    assert!(!id.contains('\u{7f}'));
    assert!(id.starts_with("a_b-"));
}

#[test]
fn kept_characters_stay_in_the_title() {
    assert!(derive_article_id(&submission("Test", "x")).starts_with("Test-"));
    assert!(derive_article_id(&submission("../x/y:z", "x")).starts_with(".._x_y_z-"));
    assert!(derive_article_id(&submission("CON", "x")).starts_with("_-"));
}
