use chronicle::model::project::{
    join_path, project_dir_name, DocRef, MaterialCategory, PanelPosition, Project, ProjectSettings,
    SidebarPosition, WritingMode,
};

fn project() -> Project {
    Project::new("小説", "/home/me/novel".to_string())
}

#[test]
fn new_project_is_empty_with_default_settings() {
    let p = project();
    assert_eq!(p.name, "小説");
    assert_eq!(p.root_dir, "/home/me/novel");
    assert!(p.chapters.is_empty());
    assert!(p.materials.is_empty());
    assert_eq!(p.settings.writing_mode, WritingMode::Horizontal);
    assert_eq!(p.settings.daily_goal, 1000);
    assert_eq!(p.settings.preview_position, PanelPosition::Right);
    assert_eq!(p.settings.sidebar_position, SidebarPosition::Left);
    assert!(p.settings.indent_paragraphs);
    assert_eq!(p.daily_stats.last_date, "");
    assert_eq!(p.daily_stats.start_count, 0);
}

#[test]
fn project_settings_default_values() {
    let s = ProjectSettings::default();
    assert_eq!(s.author, "");
    assert_eq!(s.description, "");
    assert_eq!(s.daily_goal, 1000);
    assert_eq!(PanelPosition::default(), PanelPosition::Right);
    assert_eq!(SidebarPosition::default(), SidebarPosition::Left);
}

#[test]
fn sanitize_drops_symbols_and_trims() {
    assert_eq!(Project::sanitize_name("  Hello, World!  ", 20), "Hello World");
    assert_eq!(Project::sanitize_name("a_b-c", 20), "a_b-c");
    assert_eq!(Project::sanitize_name("第一章 始まり", 20), "第一章 始まり");
}

#[test]
fn sanitize_takes_at_most_max_characters() {
    assert_eq!(Project::sanitize_name("abcdef", 3), "abc");
    assert_eq!(Project::sanitize_name("ab cdef", 3), "ab");
    assert_eq!(Project::sanitize_name("abc", 0), "");
}

#[test]
fn sanitize_is_idempotent_on_examples() {
    for s in ["  x  y ", "!!a!!", "漢字 かな", "   ", "a\u{3000}b"] {
        let once = Project::sanitize_name(s, 5);
        assert_eq!(Project::sanitize_name(&once, 5), once);
    }
}

#[test]
fn add_chapter_numbers_and_names_directories() {
    let mut p = project();
    let a = p.add_chapter("第一章 始まり");
    assert_eq!(a.dir_name, "01-第一章-始まり");
    assert_eq!(a.order, 0);
    assert_eq!(a.title, "第一章 始まり");
    let b = p.add_chapter("!!!");
    assert_eq!(b.dir_name, "02-無題");
    assert_eq!(b.order, 1);
    assert_eq!(p.chapters.len(), 2);
    assert_eq!(p.chapters[1].dir_name, "02-無題");
}

#[test]
fn add_chapter_beyond_nine_uses_two_digits() {
    let mut p = project();
    for _ in 0..9 {
        p.add_chapter("c");
    }
    let c = p.add_chapter("ten");
    assert_eq!(c.dir_name, "10-ten");
    for _ in 0..90 {
        p.add_chapter("c");
    }
    let d = p.add_chapter("x");
    assert_eq!(d.dir_name, "101-x");
}

#[test]
fn rename_chapter_renames_directory_after_title() {
    let mut p = project();
    p.add_chapter("one");
    p.add_chapter("two");
    let r = p.rename_chapter("02-two", "Second Part");
    assert_eq!(r, Some("02-Second-Part".to_string()));
    assert_eq!(p.chapters[1].title, "Second Part");
    assert_eq!(p.chapters[1].dir_name, "02-Second-Part");
    assert_eq!(p.chapters[0].dir_name, "01-one");
}

#[test]
fn rename_missing_chapter_changes_nothing() {
    let mut p = project();
    p.add_chapter("one");
    assert_eq!(p.rename_chapter("nope", "x"), None);
    assert_eq!(p.chapters[0].title, "one");
}

#[test]
fn remove_chapter_renumbers() {
    let mut p = project();
    p.add_chapter("a");
    p.add_chapter("b");
    p.add_chapter("c");
    p.remove_chapter("02-b");
    assert_eq!(p.chapters.len(), 2);
    assert_eq!(p.chapters[0].dir_name, "01-a");
    assert_eq!(p.chapters[1].dir_name, "03-c");
    assert_eq!(p.chapters[1].order, 1);
    p.remove_chapter("missing");
    assert_eq!(p.chapters.len(), 2);
}

#[test]
fn removing_added_chapter_restores() {
    let mut p = project();
    p.add_chapter("a");
    p.add_chapter("b");
    let e = p.add_chapter("c");
    p.remove_chapter(&e.dir_name);
    assert_eq!(p.chapters.len(), 2);
    assert_eq!(p.chapters[0].dir_name, "01-a");
    assert_eq!(p.chapters[1].dir_name, "02-b");
    assert_eq!(p.chapters[1].order, 1);
}

#[test]
fn add_tale_names_files_in_its_chapter() {
    let mut p = project();
    p.add_chapter("a");
    let t = p.add_tale("01-a", "Scene One").unwrap();
    assert_eq!(t.file_name, "01-Scene-One.md");
    assert_eq!(t.order, 0);
    assert_eq!(t.cached_char_count, None);
    let u = p.add_tale("01-a", "").unwrap();
    assert_eq!(u.file_name, "02-無題.md");
    assert_eq!(p.chapters[0].tales.len(), 2);
    assert!(p.add_tale("missing", "x").is_none());
}

#[test]
fn rename_tale_gives_old_and_new_names() {
    let mut p = project();
    p.add_chapter("a");
    p.add_tale("01-a", "one");
    p.add_tale("01-a", "two");
    let r = p.rename_tale("01-a", "02-two.md", "第二話");
    assert_eq!(r, Some(("02-two.md".to_string(), "02-第二話.md".to_string())));
    assert_eq!(p.chapters[0].tales[1].title, "第二話");
    assert_eq!(p.rename_tale("01-a", "nope.md", "x"), None);
    assert_eq!(p.rename_tale("nope", "01-one.md", "x"), None);
}

#[test]
fn remove_tale_renumbers_only_in_its_chapter() {
    let mut p = project();
    p.add_chapter("a");
    p.add_tale("01-a", "one");
    p.add_tale("01-a", "two");
    p.add_tale("01-a", "three");
    p.remove_tale("01-a", "01-one.md");
    assert_eq!(p.chapters[0].tales.len(), 2);
    assert_eq!(p.chapters[0].tales[0].file_name, "02-two.md");
    assert_eq!(p.chapters[0].tales[0].order, 0);
    assert_eq!(p.chapters[0].tales[1].order, 1);
    p.remove_tale("missing", "02-two.md");
    assert_eq!(p.chapters[0].tales.len(), 2);
}

#[test]
fn add_material_avoids_taken_file_names() {
    let mut p = project();
    let a = p.add_material("Hero", MaterialCategory::Character);
    let b = p.add_material("Hero", MaterialCategory::World);
    let c = p.add_material("Hero", MaterialCategory::Other("設定".to_string()));
    assert_eq!(a.file_name, "Hero.md");
    assert_eq!(b.file_name, "Hero-1.md");
    assert_eq!(c.file_name, "Hero-2.md");
    assert_eq!(c.order, 2);
    assert_eq!(c.category.label(), "設定");
    let names: Vec<&str> = p.materials.iter().map(|m| m.file_name.as_str()).collect();
    assert_eq!(names, vec!["Hero.md", "Hero-1.md", "Hero-2.md"]);
}

#[test]
fn add_material_fills_first_free_candidate() {
    let mut p = project();
    p.add_material("Hero", MaterialCategory::Character);
    p.add_material("Hero", MaterialCategory::Character);
    p.add_material("Hero", MaterialCategory::Character);
    p.remove_material("Hero-1.md");
    let d = p.add_material("Hero", MaterialCategory::Glossary);
    assert_eq!(d.file_name, "Hero-1.md");
}

#[test]
fn rename_and_remove_material() {
    let mut p = project();
    p.add_material("a", MaterialCategory::Timeline);
    p.add_material("b", MaterialCategory::Timeline);
    assert_eq!(
        p.rename_material("a.md", "年表 全体"),
        Some(("a.md".to_string(), "年表-全体.md".to_string()))
    );
    assert_eq!(p.materials[0].title, "年表 全体");
    assert_eq!(p.rename_material("zzz.md", "x"), None);
    p.remove_material("年表-全体.md");
    assert_eq!(p.materials.len(), 1);
    assert_eq!(p.materials[0].file_name, "b.md");
    assert_eq!(p.materials[0].order, 0);
}

#[test]
fn removing_added_material_restores() {
    let mut p = project();
    p.add_material("x", MaterialCategory::World);
    let e = p.add_material("x", MaterialCategory::World);
    p.remove_material(&e.file_name);
    assert_eq!(p.materials.len(), 1);
    assert_eq!(p.materials[0].file_name, "x.md");
}

#[test]
fn paths_are_joined_under_the_root() {
    let p = project();
    assert_eq!(p.chapter_dir("01-a"), "/home/me/novel/chapters/01-a");
    assert_eq!(p.tale_path("01-a", "01-b.md"), "/home/me/novel/chapters/01-a/01-b.md");
    assert_eq!(p.material_path("x.md"), "/home/me/novel/materials/x.md");
    assert_eq!(p.project_file_path(), "/home/me/novel/chronicle.json");
    let q = Project::new("q", "/tmp/".to_string());
    assert_eq!(q.project_file_path(), "/tmp/chronicle.json");
}

#[test]
fn join_path_follows_path_join() {
    assert_eq!(join_path("a", "b"), "a/b");
    assert_eq!(join_path("a/", "b"), "a/b");
    assert_eq!(join_path("", "b"), "b");
    assert_eq!(join_path("a", "/b"), "/b");
    assert_eq!(
        std::path::Path::new("a").join("b").to_string_lossy(),
        join_path("a", "b")
    );
}

#[test]
fn category_labels() {
    assert_eq!(MaterialCategory::Character.label(), "キャラクター");
    assert_eq!(MaterialCategory::World.label(), "世界観");
    assert_eq!(MaterialCategory::Glossary.label(), "用語集");
    assert_eq!(MaterialCategory::Timeline.label(), "年表");
    assert_eq!(MaterialCategory::Other("魔法".to_string()).label(), "魔法");
}

#[test]
fn doc_labels() {
    let t = DocRef::Tale {
        chapter_dir: "01-a".to_string(),
        tale_file: "01-b.md".to_string(),
        chapter_title: "第一章".to_string(),
        tale_title: "出会い".to_string(),
    };
    assert_eq!(t.tab_label(), "第一章 / 出会い");
    assert_eq!(t.short_label(), "出会い");
    let m = DocRef::Material { file_name: "x.md".to_string(), title: "登場人物".to_string() };
    assert_eq!(m.tab_label(), "登場人物");
    assert_eq!(m.short_label(), "登場人物");
}

#[test]
fn project_dir_name_falls_back() {
    assert_eq!(project_dir_name("My Novel!", "project"), "My Novel");
    assert_eq!(project_dir_name("???", "project"), "project");
    assert_eq!(project_dir_name("", "imported"), "imported");
}
