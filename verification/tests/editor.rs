use chronicle::editor::{apply_format, enter_opens_blank_line, format_edit, utf16_len, FormatKind};

#[test]
fn utf16_counts_astral_characters_twice() {
    assert_eq!(utf16_len(""), 0);
    assert_eq!(utf16_len("abc"), 3);
    assert_eq!(utf16_len("漢字"), 2);
    assert_eq!(utf16_len("a😀"), 3);
}

#[test]
fn samples_for_empty_selection() {
    assert_eq!(apply_format("", FormatKind::Bold), ("**太文字**".to_string(), 2, 5));
    assert_eq!(apply_format("", FormatKind::Italic), ("*斜体*".to_string(), 1, 3));
    assert_eq!(apply_format("", FormatKind::Link), ("[リンクテキスト](url)".to_string(), 1, 7));
    assert_eq!(apply_format("", FormatKind::Ruby), ("{漢字|かんじ}".to_string(), 1, 3));
}

#[test]
fn wrapping_a_selection() {
    assert_eq!(apply_format("abc", FormatKind::Bold), ("**abc**".to_string(), 7, 7));
    assert_eq!(apply_format("abc", FormatKind::Italic), ("*abc*".to_string(), 5, 5));
    assert_eq!(apply_format("abc", FormatKind::Link), ("[abc](url)".to_string(), 1, 4));
    assert_eq!(apply_format("漢字", FormatKind::Ruby), ("{漢字|ルビ}".to_string(), 4, 6));
    assert_eq!(apply_format("😀", FormatKind::Bold), ("**😀**".to_string(), 6, 6));
}

#[test]
fn block_samples() {
    assert_eq!(apply_format("x", FormatKind::Heading), ("# 見出し".to_string(), 2, 2));
    assert_eq!(apply_format("x", FormatKind::SubHeading), ("## 見出し".to_string(), 3, 3));
    assert_eq!(apply_format("x", FormatKind::SubSubHeading), ("### 見出し".to_string(), 4, 4));
    assert_eq!(apply_format("x", FormatKind::Quote), ("> 引用文".to_string(), 2, 2));
    assert_eq!(apply_format("x", FormatKind::BulletList), ("- 箇条書き".to_string(), 2, 2));
    assert_eq!(apply_format("x", FormatKind::NumberedList), ("1. 番号付き".to_string(), 3, 3));
    assert_eq!(apply_format("x", FormatKind::Separator), ("---".to_string(), 3, 3));
}

#[test]
fn inline_edit_replaces_selection() {
    assert_eq!(format_edit("前", "選択", "後", FormatKind::Bold), ("前**選択**後".to_string(), 7, 7));
}

#[test]
fn separator_goes_on_its_own_line() {
    assert_eq!(format_edit("ab", "", "cd", FormatKind::Separator), ("ab\n---\ncd".to_string(), 7, 7));
    assert_eq!(format_edit("ab", "X", "cd", FormatKind::Separator), ("ab\n---\nXcd".to_string(), 7, 7));
}

#[test]
fn block_edit_inserts_line_before_selection() {
    assert_eq!(
        format_edit("ab", "sel", "cd", FormatKind::Heading),
        ("ab\n# 見出し\nselcd".to_string(), 5, 5)
    );
}

#[test]
fn selection_stays_inside_text() {
    let kinds = [
        FormatKind::Bold,
        FormatKind::Italic,
        FormatKind::Heading,
        FormatKind::SubHeading,
        FormatKind::SubSubHeading,
        FormatKind::Quote,
        FormatKind::BulletList,
        FormatKind::NumberedList,
        FormatKind::Link,
        FormatKind::Ruby,
        FormatKind::Separator,
    ];
    for k in kinds {
        for sel in ["", "ab", "😀x"] {
            let (t, s, e) = format_edit("前文", sel, "後", k);
            assert!(s <= e && e <= utf16_len(&t));
            assert!(t.starts_with("前文") && t.ends_with("後"));
        }
    }
}

#[test]
fn enter_after_closing_quote() {
    assert!(enter_opens_blank_line("「はい」"));
    assert!(!enter_opens_blank_line("はい"));
    assert!(!enter_opens_blank_line(""));
}

#[test]
fn ruby_command_writes_ruby_syntax() {
    let (t, s, e) = apply_format("漢字", FormatKind::Ruby);
    assert_eq!(chronicle::markdown::renderer::preprocess(&t), "<ruby>漢字<rt>ルビ</rt></ruby>");
    let units: Vec<u16> = t.encode_utf16().collect();
    assert_eq!(String::from_utf16(&units[s..e]).unwrap(), "ルビ");
}
