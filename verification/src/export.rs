//! What the exports write: file names, the pages of the site and of the manuscript.

use vstd::prelude::*;
use crate::model::project::{ChapterView, Project, TaleView};
use crate::text::chars_of;

verus! {

/// The kinds of export.
#[derive(Debug, Clone, Copy, PartialEq, Eq, Structural)]
pub enum ExportFormat {
    ProjectZip,
    ManuscriptZipTxt,
    ManuscriptZipHtml,
    SiteZip,
}

// ── Text replacement ──

/// `s` from position `i` on with every occurrence of `pat` replaced by `rep`, matches
/// taken from the left without overlap, as `str::replace` does.
pub open spec fn replace_from(s: Seq<char>, pat: Seq<char>, rep: Seq<char>, i: int) -> Seq<char>
    decreases s.len() - i,
{
    if i < 0 || i >= s.len() || pat.len() == 0 {
        if 0 <= i < s.len() { s.skip(i) } else { Seq::empty() }
    } else if i + pat.len() <= s.len() && s.subrange(i, i + pat.len()) == pat {
        rep + replace_from(s, pat, rep, i + pat.len())
    } else {
        seq![s[i]] + replace_from(s, pat, rep, i + 1)
    }
}

/// `s` with `rep` before, between and after its characters: what replacing the empty
/// pattern gives.
pub open spec fn interleave(s: Seq<char>, rep: Seq<char>) -> Seq<char>
    decreases s.len(),
{
    if s.len() == 0 {
        rep
    } else {
        interleave(s.drop_last(), rep) + seq![s.last()] + rep
    }
}

/// `s` with every occurrence of `pat` replaced by `rep`; the empty pattern occurs before,
/// between and after the characters.
pub open spec fn replace_spec(s: Seq<char>, pat: Seq<char>, rep: Seq<char>) -> Seq<char> {
    if pat.len() == 0 {
        interleave(s, rep)
    } else {
        replace_from(s, pat, rep, 0)
    }
}

/// Replaces every occurrence of `pat` in `s` by `rep`, as `str::replace` does.
pub fn replace_all(s: &str, pat: &str, rep: &str) -> (r: String)
    ensures
        r@ == replace_spec(s@, pat@, rep@),
{
    let ss = chars_of(s);
    let ps = chars_of(pat);
    let n = ss.len();
    let m = ps.len();
    let mut r = String::new();
    if m == 0 {
        r.append(rep);
        let mut k: usize = 0;
        assert(s@.take(0) =~= Seq::<char>::empty());
        while k < n
            invariant
                ss@ == s@,
                n == ss@.len(),
                k <= n,
                r@ == interleave(s@.take(k as int), rep@),
            decreases n - k,
        {
            r.push(ss[k]);
            r.append(rep);
            assert(s@.take(k + 1).drop_last() =~= s@.take(k as int));
            k += 1;
        }
        assert(s@.take(n as int) =~= s@);
        return r;
    }
    let mut i: usize = 0;
    while i < n
        invariant
            ss@ == s@,
            ps@ == pat@,
            n == ss@.len(),
            m == ps@.len(),
            m > 0,
            i <= n,
            r@ + replace_from(s@, pat@, rep@, i as int) == replace_from(s@, pat@, rep@, 0),
        decreases n - i,
    {
        let ghost before = r@;
        let mut matched = m <= n - i;
        let mut j: usize = 0;
        while matched && j < m
            invariant
                ss@ == s@,
                ps@ == pat@,
                n == ss@.len(),
                m == ps@.len(),
                i < n,
                j <= m,
                matched ==> i + m <= n,
                matched ==> forall|x: int| 0 <= x < j ==> ss@[i + x] == ps@[x],
                !matched ==> !(i + m <= n && s@.subrange(i as int, i + m) == pat@),
            decreases m - j,
        {
            if ss[i + j] != ps[j] {
                matched = false;
                assert(s@.subrange(i as int, i + m)[j as int] != pat@[j as int]);
            }
            j += 1;
        }
        if matched {
            assert(s@.subrange(i as int, i + m) =~= pat@);
            r.append(rep);
            i = i + m;
            assert(r@ + replace_from(s@, pat@, rep@, i as int) =~= before + (rep@ + replace_from(
                s@,
                pat@,
                rep@,
                i as int,
            )));
        } else {
            r.push(ss[i]);
            i = i + 1;
            assert(r@ + replace_from(s@, pat@, rep@, i as int) =~= before + (seq![s@[i - 1]]
                + replace_from(s@, pat@, rep@, i as int)));
        }
    }
    assert(r@ =~= replace_from(s@, pat@, rep@, 0));
    r
}

// ── Site export ──

/// The name of a tale's page in the site: `dir-file.html`, the file's `.md` removed.
pub open spec fn site_page_name(dir_name: Seq<char>, tale_file: Seq<char>) -> Seq<char> {
    dir_name + seq!['-'] + replace_spec(tale_file, ".md"@, Seq::empty()) + ".html"@
}

/// The file name of a tale's page in the site.
pub fn site_page_file_name(dir_name: &str, tale_file: &str) -> (r: String)
    ensures
        r@ == site_page_name(dir_name@, tale_file@),
{
    proof {
        reveal_strlit(".md");
    }
    let stem = replace_all(tale_file, ".md", "");
    let mut r = String::from_str(dir_name);
    r.push('-');
    r.append(stem.as_str());
    r.append(".html");
    assert(""@ =~= Seq::<char>::empty()) by {
        reveal_strlit("");
    }
    assert(r@ =~= site_page_name(dir_name@, tale_file@));
    r
}

/// The start of every exported HTML page, up to the title.
pub open spec fn page_head() -> Seq<char> {
    "<!DOCTYPE html><html lang=\"ja\"><head><meta charset=\"utf-8\"><title>"@
}

/// The end of every exported HTML page.
pub open spec fn page_tail() -> Seq<char> {
    "</body></html>"@
}

/// The stylesheet of a site page, between its title and its heading.
pub open spec fn site_page_style() -> Seq<char> {
    "</title><style>:root{--bg-paper:#faf8f5;--text-body:#2c2c2c;--text-heading:#5a4a3a;--text-muted:#8a7a6a}body{background:var(--bg-paper);color:var(--text-body);font-family:\"Noto Serif JP\",\"Yu Mincho\",\"游明朝\",serif;line-height:1.8;max-width:40rem;margin:2rem auto;padding:0 2rem}h1{color:var(--text-heading);margin-top:2rem}p{margin:0.8rem 0}a{color:#0066cc;text-decoration:none}a:hover{text-decoration:underline}ul,ol{margin-left:2rem}blockquote{border-left:.25rem solid #d0c8c0;padding-left:1rem;color:var(--text-muted);margin:1rem 0}</style></head><body><h1>"@
}

/// The stylesheet of the site's index, between its title and its body.
pub open spec fn site_index_style() -> Seq<char> {
    "</title><style>:root{--bg-paper:#faf8f5;--text-body:#2c2c2c;--text-heading:#5a4a3a;--text-muted:#8a7a6a}body{background:var(--bg-paper);color:var(--text-body);font-family:\"Noto Serif JP\",\"Yu Mincho\",\"游明朝\",serif;line-height:1.8;max-width:40rem;margin:2rem auto;padding:0 2rem}h1,h2,h3,h4,h5,h6{color:var(--text-heading);margin-top:2rem}p{margin:0.8rem 0}a{color:#0066cc;text-decoration:none}a:hover{text-decoration:underline}ul,ol{margin-left:2rem}blockquote{border-left:.25rem solid #d0c8c0;padding-left:1rem;color:var(--text-muted);margin:1rem 0}</style></head><body>"@
}

/// The stylesheet of a manuscript page, between its title and its heading.
pub open spec fn manuscript_style() -> Seq<char> {
    "</title><style>body{max-width:800px;margin:2em auto;padding:0 1em;line-height:1.6;font-family:sans-serif;}</style></head><body><h1>"@
}

/// A tale's page in the site: its title as page title and heading, then its HTML body.
pub open spec fn site_page_spec(title: Seq<char>, body: Seq<char>) -> Seq<char> {
    page_head() + title + site_page_style() + title + "</h1>"@ + body + page_tail()
}

/// The HTML page of a tale in the site.
pub fn site_page_html(title: &str, body: &str) -> (r: String)
    ensures
        r@ == site_page_spec(title@, body@),
{
    let mut r = String::from_str("<!DOCTYPE html><html lang=\"ja\"><head><meta charset=\"utf-8\"><title>");
    r.append(title);
    r.append("</title><style>:root{--bg-paper:#faf8f5;--text-body:#2c2c2c;--text-heading:#5a4a3a;--text-muted:#8a7a6a}body{background:var(--bg-paper);color:var(--text-body);font-family:\"Noto Serif JP\",\"Yu Mincho\",\"游明朝\",serif;line-height:1.8;max-width:40rem;margin:2rem auto;padding:0 2rem}h1{color:var(--text-heading);margin-top:2rem}p{margin:0.8rem 0}a{color:#0066cc;text-decoration:none}a:hover{text-decoration:underline}ul,ol{margin-left:2rem}blockquote{border-left:.25rem solid #d0c8c0;padding-left:1rem;color:var(--text-muted);margin:1rem 0}</style></head><body><h1>");
    r.append(title);
    r.append("</h1>");
    r.append(body);
    r.append("</body></html>");
    assert(r@ =~= site_page_spec(title@, body@));
    r
}

/// The index entry of a tale: a list item linking its page.
pub open spec fn toc_item(dir_name: Seq<char>, t: TaleView) -> Seq<char> {
    "<li><a href=\""@ + site_page_name(dir_name, t.file_name) + "\">"@ + t.title + "</a></li>\n"@
}

/// The index entries of the first `k` tales of a chapter.
pub open spec fn toc_items(c: ChapterView, k: int) -> Seq<char>
    decreases k,
{
    if k <= 0 || k > c.tales.len() {
        Seq::empty()
    } else {
        toc_items(c, k - 1) + toc_item(c.dir_name, c.tales[k - 1])
    }
}

/// The index section of a chapter: its title as a heading and a list of its tales.
pub open spec fn toc_chapter(c: ChapterView) -> Seq<char> {
    "<h2>"@ + c.title + "</h2>\n<ul>\n"@ + toc_items(c, c.tales.len() as int) + "</ul>\n"@
}

/// The index sections of the first `k` chapters.
pub open spec fn toc_spec(cs: Seq<ChapterView>, k: int) -> Seq<char>
    decreases k,
{
    if k <= 0 || k > cs.len() {
        Seq::empty()
    } else {
        toc_spec(cs, k - 1) + toc_chapter(cs[k - 1])
    }
}

/// The table of contents of the site: each chapter with links to its tales' pages.
pub fn site_toc(p: &Project) -> (r: String)
    ensures
        r@ == toc_spec(p@.chapters, p@.chapters.len() as int),
{
    let ghost cs = p@.chapters;
    let mut toc = String::new();
    let mut i: usize = 0;
    while i < p.chapters.len()
        invariant
            cs == p@.chapters,
            i <= cs.len(),
            toc@ == toc_spec(cs, i as int),
        decreases cs.len() - i,
    {
        let ch = &p.chapters[i];
        let ghost c = cs[i as int];
        assert(c == ch@);
        let ghost start = toc@;
        toc.append("<h2>");
        toc.append(ch.title.as_str());
        toc.append("</h2>\n<ul>\n");
        let ghost head = toc@;
        let mut j: usize = 0;
        while j < ch.tales.len()
            invariant
                c == ch@,
                c.tales.len() == ch.tales@.len(),
                j <= c.tales.len(),
                toc@ == head + toc_items(c, j as int),
            decreases c.tales.len() - j,
        {
            let t = &ch.tales[j];
            assert(c.tales[j as int] == t@);
            let name = site_page_file_name(ch.dir_name.as_str(), t.file_name.as_str());
            let ghost before = toc@;
            toc.append("<li><a href=\"");
            toc.append(name.as_str());
            toc.append("\">");
            toc.append(t.title.as_str());
            toc.append("</a></li>\n");
            assert(toc@ =~= before + toc_item(c.dir_name, c.tales[j as int]));
            j += 1;
            assert(toc@ =~= head + toc_items(c, j as int));
        }
        toc.append("</ul>\n");
        assert(toc@ =~= start + toc_chapter(c));
        i += 1;
    }
    toc
}

/// The site's index page: the project's name as title, then the table of contents.
pub open spec fn site_index_spec(name: Seq<char>, toc: Seq<char>) -> Seq<char> {
    page_head() + name + site_index_style() + toc + page_tail()
}

/// The HTML of the site's index page.
pub fn site_index_html(name: &str, toc: &str) -> (r: String)
    ensures
        r@ == site_index_spec(name@, toc@),
{
    let mut r = String::from_str("<!DOCTYPE html><html lang=\"ja\"><head><meta charset=\"utf-8\"><title>");
    r.append(name);
    r.append("</title><style>:root{--bg-paper:#faf8f5;--text-body:#2c2c2c;--text-heading:#5a4a3a;--text-muted:#8a7a6a}body{background:var(--bg-paper);color:var(--text-body);font-family:\"Noto Serif JP\",\"Yu Mincho\",\"游明朝\",serif;line-height:1.8;max-width:40rem;margin:2rem auto;padding:0 2rem}h1,h2,h3,h4,h5,h6{color:var(--text-heading);margin-top:2rem}p{margin:0.8rem 0}a{color:#0066cc;text-decoration:none}a:hover{text-decoration:underline}ul,ol{margin-left:2rem}blockquote{border-left:.25rem solid #d0c8c0;padding-left:1rem;color:var(--text-muted);margin:1rem 0}</style></head><body>");
    r.append(toc);
    r.append("</body></html>");
    assert(r@ =~= site_index_spec(name@, toc@));
    r
}

// ── Manuscript export ──

/// A tale's page in the HTML manuscript.
pub open spec fn manuscript_page_spec(title: Seq<char>, body: Seq<char>) -> Seq<char> {
    page_head() + title + manuscript_style() + title + "</h1>"@ + body + page_tail()
}

/// The HTML page of a tale in the manuscript.
pub fn manuscript_html(title: &str, body: &str) -> (r: String)
    ensures
        r@ == manuscript_page_spec(title@, body@),
{
    let mut r = String::from_str("<!DOCTYPE html><html lang=\"ja\"><head><meta charset=\"utf-8\"><title>");
    r.append(title);
    r.append("</title><style>body{max-width:800px;margin:2em auto;padding:0 1em;line-height:1.6;font-family:sans-serif;}</style></head><body><h1>");
    r.append(title);
    r.append("</h1>");
    r.append(body);
    r.append("</body></html>");
    assert(r@ =~= manuscript_page_spec(title@, body@));
    r
}

/// The name of a tale's file in the manuscript: `.md` made `.txt` or `.html`.
pub open spec fn manuscript_name_spec(tale_file: Seq<char>, format: ExportFormat) -> Seq<char> {
    if format == ExportFormat::ManuscriptZipTxt {
        replace_spec(tale_file, ".md"@, ".txt"@)
    } else {
        replace_spec(tale_file, ".md"@, ".html"@)
    }
}

/// The file name of a tale in a text or HTML manuscript.
pub fn manuscript_file_name(tale_file: &str, format: ExportFormat) -> (r: String)
    requires
        format == ExportFormat::ManuscriptZipTxt || format == ExportFormat::ManuscriptZipHtml,
    ensures
        r@ == manuscript_name_spec(tale_file@, format),
{
    proof {
        reveal_strlit(".md");
    }
    match format {
        ExportFormat::ManuscriptZipTxt => replace_all(tale_file, ".md", ".txt"),
        _ => replace_all(tale_file, ".md", ".html"),
    }
}

/// The path of a file in a chapter's folder of the manuscript archive: `dir/file`.
pub fn manuscript_entry_path(dir_name: &str, file_name: &str) -> (r: String)
    ensures
        r@ == dir_name@ + seq!['/'] + file_name@,
{
    let mut r = String::from_str(dir_name);
    r.push('/');
    r.append(file_name);
    r
}

/// The file name an export suggests.
pub open spec fn export_default_name_spec(format: ExportFormat, project_name: Seq<char>) -> Seq<char> {
    match format {
        ExportFormat::ProjectZip => project_name + "-backup.zip"@,
        ExportFormat::ManuscriptZipTxt => "原稿_テキスト.zip"@,
        ExportFormat::ManuscriptZipHtml => "原稿_HTML.zip"@,
        ExportFormat::SiteZip => "site.zip"@,
    }
}

/// The file name an export suggests: a backup named after the project, or a fixed name.
pub fn export_default_name(format: ExportFormat, project_name: &str) -> (r: String)
    ensures
        r@ == export_default_name_spec(format, project_name@),
{
    match format {
        ExportFormat::ProjectZip => {
            let mut r = String::from_str(project_name);
            r.append("-backup.zip");
            r
        },
        ExportFormat::ManuscriptZipTxt => String::from_str("原稿_テキスト.zip"),
        ExportFormat::ManuscriptZipHtml => String::from_str("原稿_HTML.zip"),
        ExportFormat::SiteZip => String::from_str("site.zip"),
    }
}

/// A chapter's index lists its tales in their order: the entries of its first `k` tales
/// begin its list, and the entry of tale `k` comes right after them.
pub proof fn toc_lists_tales_in_order(c: ChapterView, k: int, n: int)
    requires
        0 <= k < n <= c.tales.len(),
    ensures
        toc_items(c, n).subrange(0, toc_items(c, k).len() as int) == toc_items(c, k),
        toc_items(c, n).subrange(
            toc_items(c, k).len() as int,
            (toc_items(c, k).len() + toc_item(c.dir_name, c.tales[k]).len()) as int,
        ) == toc_item(c.dir_name, c.tales[k]),
    decreases n - k,
{
    let a = toc_items(c, k);
    let item = toc_item(c.dir_name, c.tales[k]);
    if n == k + 1 {
        assert(toc_items(c, n) == a + item);
        assert((a + item).subrange(0, a.len() as int) =~= a);
        assert((a + item).subrange(a.len() as int, (a.len() + item.len()) as int) =~= item);
    } else {
        toc_lists_tales_in_order(c, k, n - 1);
        let m = toc_items(c, n - 1);
        let last = toc_item(c.dir_name, c.tales[n - 2 + 1]);
        assert(toc_items(c, n) == m + last);
        lemma_toc_items_len(c, k + 1, n - 1);
        assert(toc_items(c, k + 1) == a + item);
        assert((m + last).subrange(0, a.len() as int) =~= m.subrange(0, a.len() as int));
        assert((m + last).subrange(a.len() as int, (a.len() + item.len()) as int) =~= m.subrange(
            a.len() as int,
            (a.len() + item.len()) as int,
        ));
    }
}

proof fn lemma_toc_items_len(c: ChapterView, k: int, n: int)
    requires
        0 <= k <= n <= c.tales.len(),
    ensures
        toc_items(c, k).len() <= toc_items(c, n).len(),
    decreases n - k,
{
    if k < n {
        lemma_toc_items_len(c, k, n - 1);
    }
}

} // verus!
