use quire_ui::dict::{fold, stems, strip_markup};
use quire_ui::textutil::{from_utf8_lossy, to_lowercase, to_uppercase};

#[test]
fn stems_undo_inflections() {
    assert_eq!(stems("wadded"), vec!["wadd", "wadde", "wad"]);
    assert_eq!(stems("whales"), vec!["whal", "whale"]);
    assert_eq!(stems("a"), Vec::<String>::new());
}

#[test]
fn markup_is_stripped() {
    assert_eq!(strip_markup("<b>wad</b> a small mass &amp; lump"), "wad a small mass & lump");
    assert_eq!(strip_markup("&lt;tag&gt; &quot;q&quot;"), "<tag> \"q\"");
}

#[test]
fn case_folds_beyond_ascii() {
    assert_eq!(fold("ÉCOLE"), "école");
    assert_eq!(to_lowercase("ΣΑ"), "σα");
    assert_eq!(to_uppercase("straße"), "STRASSE");
}

#[test]
fn invalid_bytes_become_replacement_characters() {
    assert_eq!(from_utf8_lossy(b"ok\xffok"), "ok\u{fffd}ok");
    assert_eq!(from_utf8_lossy("é".as_bytes()), "é");
}
