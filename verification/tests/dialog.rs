use chronicle::dialog::{
    name_accepted, parse_u32_or, parse_usize_or, rename_kind, settings_can_save, PendingDelete, RenameKind,
};

#[test]
fn deletion_messages() {
    assert_eq!(
        PendingDelete::Chapter("第一章".to_string()).message(),
        "章「第一章」を削除しますか？\nこの操作は元に戻せません。"
    );
    assert_eq!(
        PendingDelete::Tale("01-a".to_string(), "出会い".to_string()).message(),
        "話「出会い」(01-a)を削除しますか？\nこの操作は元に戻せません。"
    );
    assert_eq!(
        PendingDelete::Material("地図".to_string()).message(),
        "資料「地図」を削除しますか？\nこの操作は元に戻せません。"
    );
}

#[test]
fn rename_dialog_tells_what_is_renamed() {
    let k = rename_kind("01-a|01-x.md");
    assert!(matches!(k, RenameKind::Tale));
    assert_eq!(k.title(), "話名の変更");
    assert_eq!(k.label(), "新しい話名");
    let k = rename_kind("人物.md");
    assert!(matches!(k, RenameKind::Material));
    assert_eq!(k.title(), "資料名の変更");
    assert_eq!(k.label(), "新しい資料名");
    let k = rename_kind("01-a");
    assert!(matches!(k, RenameKind::Chapter));
    assert_eq!(k.title(), "章名の変更");
    assert_eq!(k.label(), "新しい章名");
    assert!(matches!(rename_kind(".m"), RenameKind::Chapter));
}

#[test]
fn empty_names_are_not_accepted() {
    assert!(!name_accepted(""));
    assert!(name_accepted("作品"));
    assert!(settings_can_save(false, ""));
    assert!(!settings_can_save(true, ""));
    assert!(settings_can_save(true, "作品"));
}

#[test]
fn numbers_fall_back_to_defaults() {
    assert_eq!(parse_usize_or("2500", 1000), 2500);
    assert_eq!(parse_usize_or("+7", 1000), 7);
    assert_eq!(parse_usize_or("", 1000), 1000);
    assert_eq!(parse_usize_or("+", 1000), 1000);
    assert_eq!(parse_usize_or("-3", 1000), 1000);
    assert_eq!(parse_usize_or("12a", 1000), 1000);
    assert_eq!(parse_usize_or(" 5", 1000), 1000);
    assert_eq!(parse_usize_or("99999999999999999999999", 1000), 1000);
    assert_eq!(parse_u32_or("4294967295", 800), 4294967295);
    assert_eq!(parse_u32_or("4294967296", 800), 800);
    assert_eq!(parse_u32_or("640", 800), 640);
    for s in ["0", "007", "+12", "x", "4294967296", "18446744073709551615", "18446744073709551616"] {
        assert_eq!(parse_usize_or(s, 1000), s.parse::<usize>().unwrap_or(1000));
        assert_eq!(parse_u32_or(s, 800), s.parse::<u32>().unwrap_or(800));
    }
}

#[test]
fn typed_numbers_read_back() {
    for n in [0usize, 7, 10, 800, 1000, 123456789, usize::MAX] {
        assert_eq!(parse_usize_or(&n.to_string(), 1), n);
    }
    for n in [0u32, 9, 800, u32::MAX] {
        assert_eq!(parse_u32_or(&n.to_string(), 1), n);
    }
}
