use chronicle::export::{
    export_default_name, manuscript_entry_path, manuscript_file_name, manuscript_html,
    replace_all, site_index_html, site_page_file_name, site_page_html, site_toc, ExportFormat,
};
use chronicle::model::project::Project;

#[test]
fn replace_all_matches_str_replace() {
    for (s, p, r) in [("x.md.md", ".md", ""), ("a.mdx", ".md", ".txt"), ("aaa", "aa", "b"), ("", ".md", "x"), ("ab", "", "x"), ("", "", "-"), ("漢字", "", "")] {
        assert_eq!(replace_all(s, p, r), s.replace(p, r));
    }
}

#[test]
fn site_page_names() {
    assert_eq!(site_page_file_name("01-a", "01-b.md"), "01-a-01-b.html");
    assert_eq!(site_page_file_name("01-a", "x.md.md"), "01-a-x.html");
}

#[test]
fn site_page_wraps_title_and_body() {
    let page = site_page_html("題", "<p>本文</p>");
    assert!(page.starts_with("<!DOCTYPE html><html lang=\"ja\"><head><meta charset=\"utf-8\"><title>題</title><style>"));
    assert!(page.ends_with("<h1>題</h1><p>本文</p></body></html>"));
    assert!(page.contains("font-family:\"Noto Serif JP\",\"Yu Mincho\",\"游明朝\",serif;line-height:1.8"));
}

#[test]
fn site_toc_lists_chapters_and_tales() {
    let mut p = Project::new("n", "/r".to_string());
    p.add_chapter("第一章");
    p.add_tale("01-第一章", "話");
    p.add_chapter("二");
    assert_eq!(
        site_toc(&p),
        "<h2>第一章</h2>\n<ul>\n<li><a href=\"01-第一章-01-話.html\">話</a></li>\n</ul>\n<h2>二</h2>\n<ul>\n</ul>\n"
    );
}

#[test]
fn site_index_page() {
    let page = site_index_html("小説", "<h2>x</h2>");
    assert!(page.contains("<title>小説</title>"));
    assert!(page.contains("h1,h2,h3,h4,h5,h6{"));
    assert!(page.ends_with("<body><h2>x</h2></body></html>"));
}

#[test]
fn manuscript_names_and_pages() {
    assert_eq!(manuscript_file_name("01-a.md", ExportFormat::ManuscriptZipTxt), "01-a.txt");
    assert_eq!(manuscript_file_name("01-a.md", ExportFormat::ManuscriptZipHtml), "01-a.html");
    assert_eq!(manuscript_entry_path("01-x", "01-a.txt"), "01-x/01-a.txt");
    let page = manuscript_html("題", "<p>b</p>");
    assert!(page.contains("<title>題</title><style>body{max-width:800px;margin:2em auto;padding:0 1em;line-height:1.6;font-family:sans-serif;}</style>"));
    assert!(page.ends_with("<h1>題</h1><p>b</p></body></html>"));
}

#[test]
fn default_export_names() {
    assert_eq!(export_default_name(ExportFormat::ProjectZip, "小説"), "小説-backup.zip");
    assert_eq!(export_default_name(ExportFormat::ManuscriptZipTxt, "x"), "原稿_テキスト.zip");
    assert_eq!(export_default_name(ExportFormat::ManuscriptZipHtml, "x"), "原稿_HTML.zip");
    assert_eq!(export_default_name(ExportFormat::SiteZip, "x"), "site.zip");
}
