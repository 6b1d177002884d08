use chronicle::model::project::{DailyStats, DocRef, Project};
use chronicle::session::{
    char_count, close_tab, close_tabs_of, daily_progress, doc_belongs_to, editor_placeholder,
    push_recent, record_char_count, replace_first_tab, retarget_chapter_doc, retarget_chapter_tabs,
    roll_daily_stats, same_doc, step_font_size, total_chars, open_tab, AutoSave, DocTarget,
    close_deleted, copy_doc, doc_listed, retarget_material, recent_label, recent_shown,
};

fn tale(c: &str, t: &str) -> DocRef {
    DocRef::Tale {
        chapter_dir: c.to_string(),
        tale_file: t.to_string(),
        chapter_title: "ch".to_string(),
        tale_title: "t".to_string(),
    }
}

#[test]
fn char_count_skips_white_space() {
    assert_eq!(char_count("あ い\nう"), 3);
    assert_eq!(char_count("\u{3000}全角\t"), 2);
    assert_eq!(char_count(""), 0);
}

#[test]
fn daily_progress_saturates() {
    assert_eq!(daily_progress(100, 50, 120), 30);
    assert_eq!(daily_progress(10, 0, 20), 0);
}

#[test]
fn daily_stats_roll_over_on_a_new_day() {
    let mut s = DailyStats { last_date: "2024-01-01".to_string(), start_count: 5 };
    assert!(!roll_daily_stats(&mut s, "2024-01-01", 99));
    assert_eq!(s.start_count, 5);
    assert!(roll_daily_stats(&mut s, "2024-01-02", 99));
    assert_eq!(s.last_date, "2024-01-02");
    assert_eq!(s.start_count, 99);
}

#[test]
fn recent_list_moves_entry_to_end() {
    let mut l = vec!["a".to_string(), "b".to_string(), "c".to_string()];
    push_recent(&mut l, "a".to_string());
    assert_eq!(l, vec!["b", "c", "a"]);
    push_recent(&mut l, "d".to_string());
    assert_eq!(l, vec!["b", "c", "a", "d"]);
}

#[test]
fn recent_list_keeps_twenty() {
    let mut l: Vec<String> = (0..20).map(|i| i.to_string()).collect();
    push_recent(&mut l, "new".to_string());
    assert_eq!(l.len(), 20);
    assert_eq!(l[0], "1");
    assert_eq!(l[19], "new");
}

#[test]
fn same_doc_compares_all_fields() {
    assert!(same_doc(&tale("a", "b"), &tale("a", "b")));
    assert!(!same_doc(&tale("a", "b"), &tale("a", "c")));
    let m = DocRef::Material { file_name: "a".to_string(), title: "t".to_string() };
    assert!(!same_doc(&tale("a", "b"), &m));
}

#[test]
fn closing_tabs_picks_neighbour() {
    let mut tabs = vec![tale("a", "1"), tale("a", "2"), tale("a", "3")];
    assert_eq!(close_tab(&mut tabs, &tale("a", "2")), Some(1));
    assert_eq!(tabs.len(), 2);
    assert!(same_doc(&tabs[1], &tale("a", "3")));
    assert_eq!(close_tab(&mut tabs, &tale("a", "3")), Some(0));
    assert_eq!(close_tab(&mut tabs, &tale("x", "x")), Some(0));
    assert_eq!(close_tab(&mut tabs, &tale("a", "1")), None);
    assert!(tabs.is_empty());
}

#[test]
fn totals_use_cache_then_loaded_counts_and_skip_active() {
    let mut p = Project::new("n", "/r".to_string());
    p.add_chapter("a");
    p.add_tale("01-a", "x");
    p.add_tale("01-a", "y");
    p.add_chapter("b");
    p.add_tale("02-b", "z");
    record_char_count(&mut p, "01-a", "01-x.md", 10);
    assert_eq!(p.chapters[0].tales[0].cached_char_count, Some(10));
    let loaded = vec![vec![Some(1000), Some(7)], vec![None]];
    assert_eq!(total_chars(&p, &None, &loaded), 17);
    let active = Some(tale("01-a", "02-y.md"));
    assert_eq!(total_chars(&p, &active, &loaded), 10);
    record_char_count(&mut p, "missing", "01-x.md", 3);
    assert_eq!(total_chars(&p, &None, &loaded), 17);
}

#[test]
fn saved_count_reaches_every_chapter_with_that_directory() {
    let mut p = Project::new("n", "/r".to_string());
    p.add_chapter("a");
    p.add_chapter("b");
    p.add_chapter("c");
    p.remove_chapter("01-a");
    p.add_chapter("c");
    assert_eq!(p.chapters[1].dir_name, "03-c");
    assert_eq!(p.chapters[2].dir_name, "03-c");
    p.add_tale("03-c", "t");
    p.chapters[2].tales = p.chapters[1].tales.clone();
    record_char_count(&mut p, "03-c", "01-t.md", 42);
    assert_eq!(p.chapters[1].tales[0].cached_char_count, Some(42));
    assert_eq!(p.chapters[2].tales[0].cached_char_count, Some(42));
}

fn material(f: &str) -> DocRef {
    DocRef::Material { file_name: f.to_string(), title: "m".to_string() }
}

#[test]
fn deleting_closes_the_tabs_that_belong() {
    let mut tabs = vec![tale("a", "1"), material("m.md"), tale("b", "1"), tale("a", "2")];
    close_tabs_of(&mut tabs, &DocTarget::Chapter("a".to_string()));
    assert_eq!(tabs.len(), 2);
    assert!(same_doc(&tabs[0], &material("m.md")));
    close_tabs_of(&mut tabs, &DocTarget::Tale("b".to_string(), "1".to_string()));
    assert_eq!(tabs.len(), 1);
    close_tabs_of(&mut tabs, &DocTarget::Material("m.md".to_string()));
    assert!(tabs.is_empty());
}

#[test]
fn belonging_to_targets() {
    assert!(doc_belongs_to(&tale("a", "1"), &DocTarget::Chapter("a".to_string())));
    assert!(!doc_belongs_to(&tale("a", "1"), &DocTarget::Tale("a".to_string(), "2".to_string())));
    assert!(!doc_belongs_to(&material("a"), &DocTarget::Chapter("a".to_string())));
    assert!(doc_belongs_to(&material("a"), &DocTarget::Material("a".to_string())));
}

#[test]
fn renamed_chapter_moves_its_tabs() {
    let mut tabs = vec![tale("a", "1"), material("x"), tale("b", "1")];
    retarget_chapter_tabs(&mut tabs, "a", "01-new", "新");
    match &tabs[0] {
        DocRef::Tale { chapter_dir, chapter_title, tale_file, .. } => {
            assert_eq!(chapter_dir, "01-new");
            assert_eq!(chapter_title, "新");
            assert_eq!(tale_file, "1");
        }
        _ => panic!("expected a tale"),
    }
    assert!(same_doc(&tabs[2], &tale("b", "1")));
    assert!(same_doc(&retarget_chapter_doc(material("x"), "a", "b", "c"), &material("x")));
}

#[test]
fn renamed_tale_replaces_first_tab() {
    let mut tabs = vec![tale("a", "1"), tale("a", "2"), tale("a", "2")];
    replace_first_tab(&mut tabs, &DocTarget::Tale("a".to_string(), "2".to_string()), tale("a", "9"));
    assert!(same_doc(&tabs[1], &tale("a", "9")));
    assert!(same_doc(&tabs[2], &tale("a", "2")));
    replace_first_tab(&mut tabs, &DocTarget::Material("zz".to_string()), material("q"));
    assert_eq!(tabs.len(), 3);
}

#[test]
fn placeholders() {
    let t = DocRef::Tale {
        chapter_dir: "a".to_string(),
        tale_file: "b".to_string(),
        chapter_title: "c".to_string(),
        tale_title: "出会い".to_string(),
    };
    assert_eq!(editor_placeholder(&Some(t)), "「出会い」を書き始めましょう...");
    let m = DocRef::Material { file_name: "x".to_string(), title: "地図".to_string() };
    assert_eq!(editor_placeholder(&Some(m)), "「地図」の内容を入力...");
    assert_eq!(editor_placeholder(&None), "章・話を選択してください");
}

#[test]
fn font_size_steps_stay_in_range() {
    assert_eq!(step_font_size(16, true), 17);
    assert_eq!(step_font_size(32, true), 32);
    assert_eq!(step_font_size(16, false), 15);
    assert_eq!(step_font_size(8, false), 8);
}

#[test]
fn opening_a_document_adds_a_tab_once() {
    let mut tabs = Vec::new();
    assert!(open_tab(&mut tabs, tale("01-a", "01-x.md")));
    assert!(open_tab(&mut tabs, tale("01-a", "02-y.md")));
    assert!(!open_tab(&mut tabs, tale("01-a", "01-x.md")));
    assert_eq!(tabs.len(), 2);
    assert!(same_doc(&tabs[0], &tale("01-a", "01-x.md")));
}

#[test]
fn auto_save_schedules_only_changes_and_keeps_the_latest() {
    let mut a = AutoSave::new();
    assert!(a.on_change(Some(tale("01-a", "01-x.md")), "", true).is_none());
    let (g1, d1) = a.on_change(Some(tale("01-a", "01-x.md")), "本文", true).unwrap();
    assert_eq!(g1, 1);
    assert!(same_doc(&d1, &tale("01-a", "01-x.md")));
    assert!(a.on_change(Some(tale("01-a", "01-x.md")), "本文", true).is_none());
    assert!(a.on_change(Some(tale("01-a", "01-x.md")), "本文。", false).is_none());
    assert_eq!(a.generation, 1);
    assert!(a.on_change(None, "別", true).is_none());
    assert_eq!(a.generation, 2);
    assert_eq!(a.last_text, "別");
    assert!(!a.is_latest(g1));
    assert!(a.is_latest(2));
}

#[test]
fn deleting_the_active_tale_activates_the_first_tab_left() {
    let mut tabs = vec![tale("a", "1"), tale("b", "1"), tale("a", "2")];
    let mut keys = vec![tale("a", "2"), material("m.md"), tale("a", "1")];
    let mut active = Some(tale("a", "2"));
    let changed = close_deleted(&mut tabs, &mut active, &mut keys, &DocTarget::Chapter("a".to_string()));
    assert!(changed);
    assert_eq!(tabs.len(), 1);
    assert!(same_doc(active.as_ref().unwrap(), &tale("b", "1")));
    assert_eq!(keys.len(), 1);
    assert!(same_doc(&keys[0], &material("m.md")));
}

#[test]
fn deleting_another_document_keeps_the_active_one() {
    let mut tabs = vec![tale("a", "1"), material("m.md")];
    let mut keys = vec![];
    let mut active = Some(tale("a", "1"));
    let changed = close_deleted(&mut tabs, &mut active, &mut keys, &DocTarget::Material("m.md".to_string()));
    assert!(!changed);
    assert!(same_doc(active.as_ref().unwrap(), &tale("a", "1")));
    let changed = close_deleted(&mut tabs, &mut active, &mut keys, &DocTarget::Tale("a".to_string(), "1".to_string()));
    assert!(changed);
    assert!(tabs.is_empty() && active.is_none());
}

#[test]
fn renaming_a_material_moves_its_tab_cache_and_active_document() {
    let mut tabs = vec![tale("a", "1"), material("old.md")];
    let mut keys = vec![material("x.md"), material("old.md")];
    let mut active = Some(material("old.md"));
    let moved = retarget_material(&mut tabs, &mut active, &mut keys, "old.md", "new.md", "新");
    assert_eq!(moved, Some(1));
    let renamed = DocRef::Material { file_name: "new.md".to_string(), title: "新".to_string() };
    assert!(same_doc(&tabs[1], &renamed));
    assert!(same_doc(&keys[1], &renamed));
    assert!(same_doc(active.as_ref().unwrap(), &renamed));
    assert!(same_doc(&copy_doc(&renamed), &renamed));
    assert!(doc_listed(&tabs, &renamed));
    assert!(!doc_listed(&tabs, &material("old.md")));
}

#[test]
fn recent_labels_follow_path_file_name() {
    for p in [
        "/home/u/novel", "/home/u/novel/", "novel", "", "/", ".", "./", "a/.", "a/./", "./.", "/.",
        "a/..", "..", "a//b", "/p/小説", "a/.b", "a/...", "a/b/./.",
    ] {
        let expected = std::path::Path::new(p).file_name().and_then(|n| n.to_str()).unwrap_or(p).to_string();
        assert_eq!(recent_label(p), expected, "{:?}", p);
    }
}

#[test]
fn sidebar_shows_the_newest_five() {
    let list: Vec<String> = (1..=7).map(|i| format!("/p/n{}", i)).collect();
    let shown = recent_shown(&list);
    assert_eq!(shown.len(), 5);
    assert_eq!(shown[0], ("n7".to_string(), "/p/n7".to_string()));
    assert_eq!(shown[4], ("n3".to_string(), "/p/n3".to_string()));
    assert_eq!(recent_shown(&vec!["/x/y".to_string()]), vec![("y".to_string(), "/x/y".to_string())]);
}
