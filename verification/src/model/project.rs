//! A writing project and the rules by which its entries are named, renamed and removed.

use vstd::prelude::*;
use crate::text::{
    chars_of, char_is_alphanumeric, char_is_whitespace, decimal, is_white_space, push_decimal,
    push_two_digits, str_eq, string_of, two_digits, unicode_alphanumeric,
};

verus! {

// ── Types ──

/// The character count a writing day started from.
#[derive(Debug, Clone)]
pub struct DailyStats {
    pub last_date: String,
    pub start_count: usize,
}

/// A project: its name, where it lives, its chapters and materials, its settings.
#[derive(Debug, Clone)]
pub struct Project {
    pub name: String,
    pub root_dir: String,
    pub chapters: Vec<ChapterEntry>,
    pub materials: Vec<MaterialEntry>,
    pub settings: ProjectSettings,
    pub daily_stats: DailyStats,
}

/// A chapter: a directory of tales.
#[derive(Debug, Clone)]
pub struct ChapterEntry {
    pub title: String,
    pub dir_name: String,
    pub order: usize,
    pub tales: Vec<TaleEntry>,
}

/// A tale: one Markdown file of a chapter.
#[derive(Debug, Clone)]
pub struct TaleEntry {
    pub title: String,
    pub file_name: String,
    pub order: usize,
    pub cached_char_count: Option<usize>,
}

/// A material: a reference document (characters, world, ...).
#[derive(Debug, Clone)]
pub struct MaterialEntry {
    pub title: String,
    pub file_name: String,
    pub category: MaterialCategory,
    pub order: usize,
}

/// The kind of a material.
#[derive(Debug, Clone, PartialEq)]
pub enum MaterialCategory {
    Character,
    World,
    Glossary,
    Timeline,
    Other(String),
}

/// Per-project settings.
#[derive(Debug, Clone)]
pub struct ProjectSettings {
    pub writing_mode: WritingMode,
    pub author: String,
    pub description: String,
    pub daily_goal: usize,
    pub preview_position: PanelPosition,
    pub sidebar_position: SidebarPosition,
    pub indent_paragraphs: bool,
}

/// Vertical (tategaki) or horizontal text.
#[derive(Debug, Clone, Copy, PartialEq, Eq, Structural)]
pub enum WritingMode {
    Vertical,
    Horizontal,
}

/// Where the preview pane stands.
#[derive(Debug, Clone, Copy, PartialEq, Eq, Structural)]
pub enum PanelPosition {
    Right,
    Bottom,
}

/// Where the sidebar stands.
#[derive(Debug, Clone, Copy, PartialEq, Eq, Structural)]
pub enum SidebarPosition {
    Left,
    Right,
}

/// The sidebar's tabs.
#[derive(Debug, Clone, Copy, PartialEq, Eq, Structural)]
pub enum ActivityTab {
    Explorer,
    Materials,
}

// ── Views ──

pub struct TaleView {
    pub title: Seq<char>,
    pub file_name: Seq<char>,
    pub order: usize,
    pub cached_char_count: Option<usize>,
}

pub struct ChapterView {
    pub title: Seq<char>,
    pub dir_name: Seq<char>,
    pub order: usize,
    pub tales: Seq<TaleView>,
}

pub enum CategoryView {
    Character,
    World,
    Glossary,
    Timeline,
    Other(Seq<char>),
}

pub struct MaterialView {
    pub title: Seq<char>,
    pub file_name: Seq<char>,
    pub category: CategoryView,
    pub order: usize,
}

pub struct SettingsView {
    pub writing_mode: WritingMode,
    pub author: Seq<char>,
    pub description: Seq<char>,
    pub daily_goal: usize,
    pub preview_position: PanelPosition,
    pub sidebar_position: SidebarPosition,
    pub indent_paragraphs: bool,
}

pub struct StatsView {
    pub last_date: Seq<char>,
    pub start_count: usize,
}

pub struct ProjectView {
    pub name: Seq<char>,
    pub root_dir: Seq<char>,
    pub chapters: Seq<ChapterView>,
    pub materials: Seq<MaterialView>,
    pub settings: SettingsView,
    pub daily_stats: StatsView,
}

impl View for TaleEntry {
    type V = TaleView;

    open spec fn view(&self) -> TaleView {
        TaleView {
            title: self.title@,
            file_name: self.file_name@,
            order: self.order,
            cached_char_count: self.cached_char_count,
        }
    }
}

pub open spec fn tale_views(ts: Seq<TaleEntry>) -> Seq<TaleView> {
    ts.map_values(|t: TaleEntry| t@)
}

impl View for ChapterEntry {
    type V = ChapterView;

    open spec fn view(&self) -> ChapterView {
        ChapterView {
            title: self.title@,
            dir_name: self.dir_name@,
            order: self.order,
            tales: tale_views(self.tales@),
        }
    }
}

pub open spec fn chapter_views(cs: Seq<ChapterEntry>) -> Seq<ChapterView> {
    cs.map_values(|c: ChapterEntry| c@)
}

impl View for MaterialCategory {
    type V = CategoryView;

    open spec fn view(&self) -> CategoryView {
        match self {
            MaterialCategory::Character => CategoryView::Character,
            MaterialCategory::World => CategoryView::World,
            MaterialCategory::Glossary => CategoryView::Glossary,
            MaterialCategory::Timeline => CategoryView::Timeline,
            MaterialCategory::Other(s) => CategoryView::Other(s@),
        }
    }
}

impl View for MaterialEntry {
    type V = MaterialView;

    open spec fn view(&self) -> MaterialView {
        MaterialView {
            title: self.title@,
            file_name: self.file_name@,
            category: self.category@,
            order: self.order,
        }
    }
}

pub open spec fn material_views(ms: Seq<MaterialEntry>) -> Seq<MaterialView> {
    ms.map_values(|m: MaterialEntry| m@)
}

impl View for ProjectSettings {
    type V = SettingsView;

    open spec fn view(&self) -> SettingsView {
        SettingsView {
            writing_mode: self.writing_mode,
            author: self.author@,
            description: self.description@,
            daily_goal: self.daily_goal,
            preview_position: self.preview_position,
            sidebar_position: self.sidebar_position,
            indent_paragraphs: self.indent_paragraphs,
        }
    }
}

impl View for DailyStats {
    type V = StatsView;

    open spec fn view(&self) -> StatsView {
        StatsView { last_date: self.last_date@, start_count: self.start_count }
    }
}

impl View for Project {
    type V = ProjectView;

    open spec fn view(&self) -> ProjectView {
        ProjectView {
            name: self.name@,
            root_dir: self.root_dir@,
            chapters: chapter_views(self.chapters@),
            materials: material_views(self.materials@),
            settings: self.settings@,
            daily_stats: self.daily_stats@,
        }
    }
}

impl ProjectView {
    pub open spec fn with_chapters(self, chapters: Seq<ChapterView>) -> ProjectView {
        ProjectView { chapters, ..self }
    }

    pub open spec fn with_materials(self, materials: Seq<MaterialView>) -> ProjectView {
        ProjectView { materials, ..self }
    }
}

// ── Defaults ──

/// The settings of a new project: horizontal text, no author or description, a daily
/// goal of 1000 characters, preview right, sidebar left, indented paragraphs.
pub open spec fn default_settings() -> SettingsView {
    SettingsView {
        writing_mode: WritingMode::Horizontal,
        author: Seq::empty(),
        description: Seq::empty(),
        daily_goal: 1000,
        preview_position: PanelPosition::Right,
        sidebar_position: SidebarPosition::Left,
        indent_paragraphs: true,
    }
}

impl Default for ProjectSettings {
    fn default() -> (r: Self)
        ensures
            r@ == default_settings(),
    {
        ProjectSettings {
            writing_mode: WritingMode::Horizontal,
            author: String::new(),
            description: String::new(),
            daily_goal: 1000,
            preview_position: PanelPosition::Right,
            sidebar_position: SidebarPosition::Left,
            indent_paragraphs: true,
        }
    }
}

impl Default for DailyStats {
    fn default() -> (r: Self)
        ensures
            r@ == (StatsView { last_date: Seq::empty(), start_count: 0 }),
    {
        DailyStats { last_date: String::new(), start_count: 0 }
    }
}

impl Default for PanelPosition {
    fn default() -> (r: Self)
        ensures
            r == PanelPosition::Right,
    {
        PanelPosition::Right
    }
}

impl Default for SidebarPosition {
    fn default() -> (r: Self)
        ensures
            r == SidebarPosition::Left,
    {
        SidebarPosition::Left
    }
}

// ── Names ──

/// The characters a file or directory name keeps: alphanumerics, space, `-`, `_`.
pub open spec fn name_char_kept(c: char) -> bool {
    unicode_alphanumeric(c) || c == ' ' || c == '-' || c == '_'
}

pub open spec fn keep_name_chars(s: Seq<char>) -> Seq<char>
    decreases s.len(),
{
    if s.len() == 0 {
        Seq::empty()
    } else if name_char_kept(s.last()) {
        keep_name_chars(s.drop_last()).push(s.last())
    } else {
        keep_name_chars(s.drop_last())
    }
}

pub open spec fn trim_start_ws(s: Seq<char>) -> Seq<char>
    decreases s.len(),
{
    if s.len() > 0 && is_white_space(s[0]) {
        trim_start_ws(s.drop_first())
    } else {
        s
    }
}

pub open spec fn trim_end_ws(s: Seq<char>) -> Seq<char>
    decreases s.len(),
{
    if s.len() > 0 && is_white_space(s.last()) {
        trim_end_ws(s.drop_last())
    } else {
        s
    }
}

/// `s` without leading and trailing Unicode white space.
pub open spec fn trim_ws(s: Seq<char>) -> Seq<char> {
    trim_end_ws(trim_start_ws(s))
}

/// The first `max` characters of `s`, all but the kept characters dropped, trimmed.
pub open spec fn sanitize_spec(s: Seq<char>, max: nat) -> Seq<char> {
    trim_ws(keep_name_chars(if max < s.len() { s.take(max as int) } else { s }))
}

/// `s` with every space made a hyphen.
pub open spec fn dash_spaces(s: Seq<char>) -> Seq<char> {
    Seq::new(s.len(), |i: int| if s[i] == ' ' { '-' } else { s[i] })
}

/// The stem of a chapter, tale or material name: the sanitized title with hyphens for
/// spaces, or 無題 ("untitled") when nothing is left.
pub open spec fn name_stem(title: Seq<char>, max: nat) -> Seq<char> {
    let safe = dash_spaces(sanitize_spec(title, max));
    if safe.len() == 0 {
        "無題"@
    } else {
        safe
    }
}

/// The directory name of the chapter at `order`: `NN-stem`.
pub open spec fn chapter_dir_name(order: nat, title: Seq<char>) -> Seq<char> {
    two_digits(order + 1) + seq!['-'] + name_stem(title, 20)
}

/// The file name of the tale at `order`: `NN-stem.md`.
pub open spec fn tale_file_name(order: nat, title: Seq<char>) -> Seq<char> {
    two_digits(order + 1) + seq!['-'] + name_stem(title, 30) + ".md"@
}

/// The `k`-th candidate file name of a material: `stem.md`, then `stem-1.md`, `stem-2.md`, ...
pub open spec fn material_file_name(title: Seq<char>, k: nat) -> Seq<char> {
    if k == 0 {
        name_stem(title, 30) + ".md"@
    } else {
        name_stem(title, 30) + seq!['-'] + decimal(k) + ".md"@
    }
}

proof fn lemma_trim_start_step(f: Seq<char>, st: int)
    requires
        0 <= st < f.len(),
        is_white_space(f[st]),
    ensures
        trim_start_ws(f.subrange(st, f.len() as int)) == trim_start_ws(
            f.subrange(st + 1, f.len() as int),
        ),
{
    assert(f.subrange(st, f.len() as int).drop_first() =~= f.subrange(st + 1, f.len() as int));
}

proof fn lemma_trim_end_step(f: Seq<char>, st: int, en: int)
    requires
        0 <= st < en <= f.len(),
        is_white_space(f[en - 1]),
    ensures
        trim_end_ws(f.subrange(st, en)) == trim_end_ws(f.subrange(st, en - 1)),
{
    assert(f.subrange(st, en).drop_last() =~= f.subrange(st, en - 1));
}

impl Project {
    /// A new, empty project named `name` at `root_dir`, with default settings.
    pub fn new(name: &str, root_dir: String) -> (p: Self)
        ensures
            p@ == (ProjectView {
                name: name@,
                root_dir: root_dir@,
                chapters: Seq::empty(),
                materials: Seq::empty(),
                settings: default_settings(),
                daily_stats: StatsView { last_date: Seq::empty(), start_count: 0 },
            }),
    {
        let p = Project {
            name: String::from_str(name),
            root_dir,
            chapters: Vec::new(),
            materials: Vec::new(),
            settings: ProjectSettings::default(),
            daily_stats: DailyStats::default(),
        };
        assert(chapter_views(p.chapters@) =~= Seq::empty());
        assert(material_views(p.materials@) =~= Seq::empty());
        p
    }

    /// A name safe for the file system: at most `max` characters of `s`, only
    /// alphanumerics, spaces, `-` and `_`, without surrounding white space.
    pub fn sanitize_name(s: &str, max: usize) -> (r: String)
        ensures
            r@ == sanitize_spec(s@, max as nat),
    {
        let cs = chars_of(s);
        let lim = if max < cs.len() { max } else { cs.len() };
        let ghost taken = if (max as nat) < s@.len() { s@.take(max as int) } else { s@ };
        assert(taken =~= cs@.take(lim as int));
        let mut kept: Vec<char> = Vec::new();
        let mut i: usize = 0;
        assert(cs@.take(0) =~= Seq::<char>::empty());
        while i < lim
            invariant
                lim <= cs@.len(),
                i <= lim,
                kept@ == keep_name_chars(cs@.take(i as int)),
            decreases lim - i,
        {
            let c = cs[i];
            let keep = char_is_alphanumeric(c) || c == ' ' || c == '-' || c == '_';
            if keep {
                kept.push(c);
            }
            assert(cs@.take(i + 1).drop_last() =~= cs@.take(i as int));
            i += 1;
        }
        let ghost f = kept@;
        let n = kept.len();
        let mut st: usize = 0;
        assert(f.subrange(0, n as int) =~= f);
        while st < n && char_is_whitespace(kept[st])
            invariant
                n == f.len(),
                kept@ == f,
                st <= n,
                trim_start_ws(f) == trim_start_ws(f.subrange(st as int, n as int)),
            decreases n - st,
        {
            proof {
                lemma_trim_start_step(f, st as int);
            }
            st += 1;
        }
        assert(trim_start_ws(f.subrange(st as int, n as int)) == f.subrange(st as int, n as int));
        let mut en: usize = n;
        while en > st && char_is_whitespace(kept[en - 1])
            invariant
                n == f.len(),
                kept@ == f,
                st <= en <= n,
                trim_ws(f) == trim_end_ws(f.subrange(st as int, en as int)),
            decreases en,
        {
            proof {
                lemma_trim_end_step(f, st as int, en as int);
            }
            en -= 1;
        }
        assert(trim_end_ws(f.subrange(st as int, en as int)) == f.subrange(st as int, en as int));
        let mut out: Vec<char> = Vec::new();
        let mut j: usize = st;
        while j < en
            invariant
                n == f.len(),
                kept@ == f,
                st <= j <= en <= n,
                out@ == f.subrange(st as int, j as int),
            decreases en - j,
        {
            out.push(kept[j]);
            j += 1;
            assert(out@ =~= f.subrange(st as int, j as int));
        }
        string_of(&out)
    }
}

/// The stem of a name: sanitized, spaces made hyphens, 無題 when empty.
pub fn entry_stem(title: &str, max: usize) -> (r: String)
    ensures
        r@ == name_stem(title@, max as nat),
{
    let safe = Project::sanitize_name(title, max);
    let cs = chars_of(safe.as_str());
    if cs.len() == 0 {
        return String::from_str("無題");
    }
    let mut out = String::new();
    let mut i: usize = 0;
    while i < cs.len()
        invariant
            i <= cs@.len(),
            cs@ == safe@,
            out@ == dash_spaces(safe@).take(i as int),
        decreases cs@.len() - i,
    {
        if cs[i] == ' ' {
            out.push('-');
        } else {
            out.push(cs[i]);
        }
        i += 1;
        assert(out@ =~= dash_spaces(safe@).take(i as int));
    }
    assert(dash_spaces(safe@).take(cs@.len() as int) =~= dash_spaces(safe@));
    out
}

/// The folder of a new or imported project: its sanitized name (at most fifty
/// characters), or `fallback` when nothing of the name is left.
pub open spec fn project_dir_name_spec(name: Seq<char>, fallback: Seq<char>) -> Seq<char> {
    if sanitize_spec(name, 50).len() == 0 {
        fallback
    } else {
        sanitize_spec(name, 50)
    }
}

/// The folder name for a project called `name`.
pub fn project_dir_name(name: &str, fallback: &str) -> (r: String)
    ensures
        r@ == project_dir_name_spec(name@, fallback@),
{
    let safe = Project::sanitize_name(name, 50);
    if safe.as_str().is_empty() {
        String::from_str(fallback)
    } else {
        safe
    }
}

// ── Chapters ──

/// The index of the first chapter whose directory is `d`, looking from `i` on; -1 when none.
pub open spec fn chapter_index_from(cs: Seq<ChapterView>, d: Seq<char>, i: int) -> int
    decreases cs.len() - i,
{
    if i < 0 || i >= cs.len() {
        -1
    } else if cs[i].dir_name == d {
        i
    } else {
        chapter_index_from(cs, d, i + 1)
    }
}

/// The index of the first chapter whose directory is `d`; -1 when none.
pub open spec fn chapter_index(cs: Seq<ChapterView>, d: Seq<char>) -> int {
    chapter_index_from(cs, d, 0)
}

/// The chapters other than those whose directory is `d`, in order.
pub open spec fn chapters_without(cs: Seq<ChapterView>, d: Seq<char>) -> Seq<ChapterView>
    decreases cs.len(),
{
    if cs.len() == 0 {
        Seq::empty()
    } else if cs.last().dir_name != d {
        chapters_without(cs.drop_last(), d).push(cs.last())
    } else {
        chapters_without(cs.drop_last(), d)
    }
}

/// The chapters with their order fields set to their positions.
pub open spec fn renumber_chapters(cs: Seq<ChapterView>) -> Seq<ChapterView> {
    Seq::new(cs.len(), |i: int| ChapterView { order: i as usize, ..cs[i] })
}

pub proof fn lemma_chapter_index(cs: Seq<ChapterView>, d: Seq<char>, i: int)
    requires
        0 <= i <= cs.len(),
    ensures
        chapter_index_from(cs, d, i) == -1 || (i <= chapter_index_from(cs, d, i) < cs.len()),
        chapter_index_from(cs, d, i) == -1 ==> forall|j: int| i <= j < cs.len() ==> cs[j].dir_name != d,
        chapter_index_from(cs, d, i) >= 0 ==> cs[chapter_index_from(cs, d, i)].dir_name == d
            && forall|j: int| i <= j < chapter_index_from(cs, d, i) ==> cs[j].dir_name != d,
    decreases cs.len() - i,
{
    if i < cs.len() {
        lemma_chapter_index(cs, d, i + 1);
    }
}

pub proof fn lemma_chapters_without_len(cs: Seq<ChapterView>, d: Seq<char>)
    ensures
        chapters_without(cs, d).len() <= cs.len(),
    decreases cs.len(),
{
    if cs.len() > 0 {
        lemma_chapters_without_len(cs.drop_last(), d);
    }
}

impl Project {
    /// The position of the first chapter whose directory is `dir_name`.
    pub fn find_chapter(&self, dir_name: &str) -> (r: Option<usize>)
        ensures
            match r {
                Some(k) => k as int == chapter_index(self@.chapters, dir_name@) && k < self.chapters@.len(),
                None => chapter_index(self@.chapters, dir_name@) == -1,
            },
    {
        let mut i: usize = 0;
        while i < self.chapters.len()
            invariant
                i <= self.chapters@.len(),
                chapter_index(self@.chapters, dir_name@) == chapter_index_from(self@.chapters, dir_name@, i as int),
            decreases self.chapters@.len() - i,
        {
            if str_eq(self.chapters[i].dir_name.as_str(), dir_name) {
                return Some(i);
            }
            i += 1;
        }
        None
    }

    /// Appends a chapter titled `title`, numbered after the last one, and gives it back.
    pub fn add_chapter(&mut self, title: &str) -> (entry: ChapterEntry)
        requires
            old(self).chapters@.len() < usize::MAX,
        ensures
            entry@ == (ChapterView {
                title: title@,
                dir_name: chapter_dir_name(old(self).chapters@.len() as nat, title@),
                order: old(self).chapters@.len() as usize,
                tales: Seq::empty(),
            }),
            final(self)@ == old(self)@.with_chapters(old(self)@.chapters.push(entry@)),
    {
        let order = self.chapters.len();
        let stem = entry_stem(title, 20);
        let mut dir_name = String::new();
        push_two_digits(&mut dir_name, order + 1);
        dir_name.push('-');
        dir_name.append(stem.as_str());
        assert(dir_name@ =~= chapter_dir_name(order as nat, title@));
        let entry = ChapterEntry {
            title: String::from_str(title),
            dir_name: dir_name.clone(),
            order,
            tales: Vec::new(),
        };
        self.chapters.push(ChapterEntry { title: String::from_str(title), dir_name, order, tales: Vec::new() });
        assert(tale_views(entry.tales@) =~= Seq::empty());
        assert(tale_views(self.chapters@.last().tales@) =~= Seq::empty());
        assert(chapter_views(self.chapters@) =~= chapter_views(old(self).chapters@).push(entry@));
        entry
    }

    /// Retitles the first chapter whose directory is `old_dir` and renames its directory
    /// after the new title; gives the new directory name, or `None` when there is no
    /// such chapter.
    pub fn rename_chapter(&mut self, old_dir: &str, new_title: &str) -> (r: Option<String>)
        requires
            chapter_index(old(self)@.chapters, old_dir@) >= 0 ==> old(self)@.chapters[chapter_index(
                old(self)@.chapters,
                old_dir@,
            )].order < usize::MAX,
        ensures
            chapter_index(old(self)@.chapters, old_dir@) < 0 ==> r is None && final(self)@ == old(
                self,
            )@,
            chapter_index(old(self)@.chapters, old_dir@) >= 0 ==> {
                let k = chapter_index(old(self)@.chapters, old_dir@);
                let c = old(self)@.chapters[k];
                &&& r is Some
                &&& r->0@ == chapter_dir_name(c.order as nat, new_title@)
                &&& final(self)@ == old(self)@.with_chapters(
                    old(self)@.chapters.update(k, ChapterView { title: new_title@, dir_name: r->0@, ..c }),
                )
            },
    {
        proof {
            lemma_chapter_index(self@.chapters, old_dir@, 0);
        }
        match self.find_chapter(old_dir) {
            None => None,
            Some(k) => {
                let order = self.chapters[k].order;
                let stem = entry_stem(new_title, 20);
                let mut new_dir = String::new();
                push_two_digits(&mut new_dir, order + 1);
                new_dir.push('-');
                new_dir.append(stem.as_str());
                assert(new_dir@ =~= chapter_dir_name(order as nat, new_title@));
                self.chapters[k].title = String::from_str(new_title);
                self.chapters[k].dir_name = new_dir.clone();
                let ghost c = old(self)@.chapters[k as int];
                assert(chapter_views(self.chapters@) =~= chapter_views(old(self).chapters@).update(
                    k as int,
                    ChapterView { title: new_title@, dir_name: new_dir@, ..c },
                ));
                Some(new_dir)
            },
        }
    }

    /// Removes every chapter whose directory is `dir_name` and renumbers the rest.
    pub fn remove_chapter(&mut self, dir_name: &str)
        ensures
            final(self)@ == old(self)@.with_chapters(
                renumber_chapters(chapters_without(old(self)@.chapters, dir_name@)),
            ),
    {
        let ghost orig = old(self)@.chapters;
        let mut rest: Vec<ChapterEntry> = Vec::new();
        std::mem::swap(&mut rest, &mut self.chapters);
        let ghost mut consumed: int = 0;
        assert(chapter_views(rest@) =~= orig.skip(0));
        assert(orig.take(0) =~= Seq::<ChapterView>::empty());
        assert(chapter_views(self.chapters@) =~= renumber_chapters(chapters_without(orig.take(0), dir_name@)));
        while rest.len() > 0
            invariant
                0 <= consumed <= orig.len(),
                chapter_views(rest@) == orig.skip(consumed),
                chapter_views(self.chapters@) == renumber_chapters(chapters_without(orig.take(consumed), dir_name@)),
                self.name == old(self).name,
                self.root_dir == old(self).root_dir,
                self.materials == old(self).materials,
                self.settings == old(self).settings,
                self.daily_stats == old(self).daily_stats,
                orig == old(self)@.chapters,
            decreases rest@.len(),
        {
            let ghost rest0 = rest@;
            assert(chapter_views(rest0).len() == rest0.len());
            assert(consumed < orig.len());
            assert(chapter_views(rest0)[0] == rest0[0]@);
            assert(orig.skip(consumed)[0] == orig[consumed]);
            let mut e = rest.remove(0);
            assert(e@ == orig[consumed]);
            assert forall|j: int| 0 <= j < rest@.len() implies #[trigger] chapter_views(rest@)[j] == orig.skip(consumed + 1)[j] by {
                assert(rest@[j] == rest0[j + 1]);
                assert(chapter_views(rest0)[j + 1] == rest0[j + 1]@);
                assert(orig.skip(consumed)[j + 1] == orig[consumed + 1 + j]);
            }
            assert(chapter_views(rest@) =~= orig.skip(consumed + 1));
            let ghost prev = chapters_without(orig.take(consumed), dir_name@);
            assert(orig.take(consumed + 1).drop_last() =~= orig.take(consumed));
            proof {
                lemma_chapters_without_len(orig.take(consumed), dir_name@);
            }
            if !str_eq(e.dir_name.as_str(), dir_name) {
                let ghost chs0 = self.chapters@;
                let ghost v = orig[consumed];
                assert(chapter_views(chs0).len() == prev.len());
                e.order = self.chapters.len();
                assert(e@ == ChapterView { order: prev.len() as usize, ..v });
                self.chapters.push(e);
                assert forall|j: int| 0 <= j < self.chapters@.len() implies #[trigger] chapter_views(self.chapters@)[j] == renumber_chapters(prev.push(v))[j] by {
                    if j < chs0.len() {
                        assert(self.chapters@[j] == chs0[j]);
                        assert(chapter_views(chs0)[j] == renumber_chapters(prev)[j]);
                    }
                }
                assert(chapter_views(self.chapters@) =~= renumber_chapters(prev.push(orig[consumed])));
            }
            proof {
                consumed = consumed + 1;
            }
        }
        assert(orig.take(consumed) =~= orig);
    }
}

// ── Tales ──

/// The index of the first tale whose file is `f`, looking from `i` on; -1 when none.
pub open spec fn tale_index_from(ts: Seq<TaleView>, f: Seq<char>, i: int) -> int
    decreases ts.len() - i,
{
    if i < 0 || i >= ts.len() {
        -1
    } else if ts[i].file_name == f {
        i
    } else {
        tale_index_from(ts, f, i + 1)
    }
}

/// The index of the first tale whose file is `f`; -1 when none.
pub open spec fn tale_index(ts: Seq<TaleView>, f: Seq<char>) -> int {
    tale_index_from(ts, f, 0)
}

/// The tales other than those whose file is `f`, in order.
pub open spec fn tales_without(ts: Seq<TaleView>, f: Seq<char>) -> Seq<TaleView>
    decreases ts.len(),
{
    if ts.len() == 0 {
        Seq::empty()
    } else if ts.last().file_name != f {
        tales_without(ts.drop_last(), f).push(ts.last())
    } else {
        tales_without(ts.drop_last(), f)
    }
}

/// The tales with their order fields set to their positions.
pub open spec fn renumber_tales(ts: Seq<TaleView>) -> Seq<TaleView> {
    Seq::new(ts.len(), |i: int| TaleView { order: i as usize, ..ts[i] })
}

pub proof fn lemma_tale_index(ts: Seq<TaleView>, f: Seq<char>, i: int)
    requires
        0 <= i <= ts.len(),
    ensures
        tale_index_from(ts, f, i) == -1 || (i <= tale_index_from(ts, f, i) < ts.len()),
        tale_index_from(ts, f, i) == -1 ==> forall|j: int| i <= j < ts.len() ==> ts[j].file_name != f,
        tale_index_from(ts, f, i) >= 0 ==> ts[tale_index_from(ts, f, i)].file_name == f
            && forall|j: int| i <= j < tale_index_from(ts, f, i) ==> ts[j].file_name != f,
    decreases ts.len() - i,
{
    if i < ts.len() {
        lemma_tale_index(ts, f, i + 1);
    }
}

pub proof fn lemma_tales_without_len(ts: Seq<TaleView>, f: Seq<char>)
    ensures
        tales_without(ts, f).len() <= ts.len(),
    decreases ts.len(),
{
    if ts.len() > 0 {
        lemma_tales_without_len(ts.drop_last(), f);
    }
}

/// The position of the first tale of `tales` whose file is `file_name`.
fn find_tale(tales: &Vec<TaleEntry>, file_name: &str) -> (r: Option<usize>)
    ensures
        match r {
            Some(t) => t as int == tale_index(tale_views(tales@), file_name@) && t < tales@.len(),
            None => tale_index(tale_views(tales@), file_name@) == -1,
        },
{
    let mut i: usize = 0;
    while i < tales.len()
        invariant
            i <= tales@.len(),
            tale_index(tale_views(tales@), file_name@) == tale_index_from(tale_views(tales@), file_name@, i as int),
        decreases tales@.len() - i,
    {
        if str_eq(tales[i].file_name.as_str(), file_name) {
            return Some(i);
        }
        i += 1;
    }
    None
}

/// The tales other than those whose file is `file_name`, renumbered.
fn tales_renumbered_without(tales: Vec<TaleEntry>, file_name: &str) -> (r: Vec<TaleEntry>)
    ensures
        tale_views(r@) == renumber_tales(tales_without(tale_views(tales@), file_name@)),
{
    let ghost orig = tale_views(tales@);
    let mut rest = tales;
    let mut out: Vec<TaleEntry> = Vec::new();
    let ghost mut consumed: int = 0;
    assert(tale_views(rest@) =~= orig.skip(0));
    assert(orig.take(0) =~= Seq::<TaleView>::empty());
    assert(tale_views(out@) =~= renumber_tales(tales_without(orig.take(0), file_name@)));
    while rest.len() > 0
        invariant
            0 <= consumed <= orig.len(),
            tale_views(rest@) == orig.skip(consumed),
            tale_views(out@) == renumber_tales(tales_without(orig.take(consumed), file_name@)),
        decreases rest@.len(),
    {
        let ghost rest0 = rest@;
        assert(tale_views(rest0).len() == rest0.len());
        assert(consumed < orig.len());
        assert(tale_views(rest0)[0] == rest0[0]@);
        assert(orig.skip(consumed)[0] == orig[consumed]);
        let mut e = rest.remove(0);
        assert(e@ == orig[consumed]);
        assert forall|j: int| 0 <= j < rest@.len() implies #[trigger] tale_views(rest@)[j] == orig.skip(consumed + 1)[j] by {
            assert(rest@[j] == rest0[j + 1]);
            assert(tale_views(rest0)[j + 1] == rest0[j + 1]@);
            assert(orig.skip(consumed)[j + 1] == orig[consumed + 1 + j]);
        }
        assert(tale_views(rest@) =~= orig.skip(consumed + 1));
        let ghost prev = tales_without(orig.take(consumed), file_name@);
        assert(orig.take(consumed + 1).drop_last() =~= orig.take(consumed));
        proof {
            lemma_tales_without_len(orig.take(consumed), file_name@);
        }
        if !str_eq(e.file_name.as_str(), file_name) {
            let ghost out0 = out@;
            let ghost v = orig[consumed];
            assert(tale_views(out0).len() == prev.len());
            e.order = out.len();
            assert(e@ == TaleView { order: prev.len() as usize, ..v });
            out.push(e);
            assert forall|j: int| 0 <= j < out@.len() implies #[trigger] tale_views(out@)[j] == renumber_tales(prev.push(v))[j] by {
                if j < out0.len() {
                    assert(out@[j] == out0[j]);
                    assert(tale_views(out0)[j] == renumber_tales(prev)[j]);
                }
            }
            assert(tale_views(out@) =~= renumber_tales(prev.push(v)));
        }
        proof {
            consumed = consumed + 1;
        }
    }
    assert(orig.take(consumed) =~= orig);
    out
}

impl Project {
    /// Appends a tale titled `title` to the first chapter whose directory is
    /// `chapter_dir`, numbered after its last tale; `None` when there is no such chapter.
    pub fn add_tale(&mut self, chapter_dir: &str, title: &str) -> (r: Option<TaleEntry>)
        requires
            chapter_index(old(self)@.chapters, chapter_dir@) >= 0 ==> old(self)@.chapters[chapter_index(
                old(self)@.chapters,
                chapter_dir@,
            )].tales.len() < usize::MAX,
        ensures
            chapter_index(old(self)@.chapters, chapter_dir@) < 0 ==> r is None && final(self)@ == old(
                self,
            )@,
            chapter_index(old(self)@.chapters, chapter_dir@) >= 0 ==> {
                let k = chapter_index(old(self)@.chapters, chapter_dir@);
                let c = old(self)@.chapters[k];
                &&& r is Some
                &&& r->0@ == (TaleView {
                    title: title@,
                    file_name: tale_file_name(c.tales.len(), title@),
                    order: c.tales.len() as usize,
                    cached_char_count: None,
                })
                &&& final(self)@ == old(self)@.with_chapters(
                    old(self)@.chapters.update(k, ChapterView { tales: c.tales.push(r->0@), ..c }),
                )
            },
    {
        proof {
            lemma_chapter_index(self@.chapters, chapter_dir@, 0);
        }
        match self.find_chapter(chapter_dir) {
            None => None,
            Some(k) => {
                let ghost c = old(self)@.chapters[k as int];
                assert(c.tales.len() == self.chapters@[k as int].tales@.len());
                let order = self.chapters[k].tales.len();
                let stem = entry_stem(title, 30);
                let mut file_name = String::new();
                push_two_digits(&mut file_name, order + 1);
                file_name.push('-');
                file_name.append(stem.as_str());
                file_name.append(".md");
                assert(file_name@ =~= tale_file_name(order as nat, title@));
                let entry = TaleEntry {
                    title: String::from_str(title),
                    file_name: file_name.clone(),
                    order,
                    cached_char_count: None,
                };
                let ghost ts0 = self.chapters@[k as int].tales@;
                self.chapters[k].tales.push(TaleEntry {
                    title: String::from_str(title),
                    file_name,
                    order,
                    cached_char_count: None,
                });
                assert(tale_views(self.chapters@[k as int].tales@) =~= tale_views(ts0).push(entry@));
                assert(chapter_views(self.chapters@) =~= chapter_views(old(self).chapters@).update(
                    k as int,
                    ChapterView { tales: c.tales.push(entry@), ..c },
                ));
                Some(entry)
            },
        }
    }

    /// Retitles the first tale whose file is `old_file` in the first chapter whose
    /// directory is `chapter_dir`, renaming its file after the new title; gives the old
    /// and the new file name, or `None` when there is no such chapter or tale.
    pub fn rename_tale(&mut self, chapter_dir: &str, old_file: &str, new_title: &str) -> (r:
        Option<(String, String)>)
        requires
            chapter_index(old(self)@.chapters, chapter_dir@) >= 0 && tale_index(
                old(self)@.chapters[chapter_index(old(self)@.chapters, chapter_dir@)].tales,
                old_file@,
            ) >= 0 ==> old(self)@.chapters[chapter_index(
                old(self)@.chapters,
                chapter_dir@,
            )].tales[tale_index(
                old(self)@.chapters[chapter_index(old(self)@.chapters, chapter_dir@)].tales,
                old_file@,
            )].order < usize::MAX,
        ensures
            ({
                let k = chapter_index(old(self)@.chapters, chapter_dir@);
                k < 0 || tale_index(old(self)@.chapters[k].tales, old_file@) < 0
            }) ==> r is None && final(self)@ == old(self)@,
            ({
                let k = chapter_index(old(self)@.chapters, chapter_dir@);
                k >= 0 && tale_index(old(self)@.chapters[k].tales, old_file@) >= 0
            }) ==> {
                let k = chapter_index(old(self)@.chapters, chapter_dir@);
                let c = old(self)@.chapters[k];
                let t = tale_index(c.tales, old_file@);
                let e = c.tales[t];
                let names = r->0;
                &&& r is Some
                &&& names.0@ == e.file_name
                &&& names.0@ == old_file@
                &&& names.1@ == tale_file_name(e.order as nat, new_title@)
                &&& final(self)@ == old(self)@.with_chapters(
                    old(self)@.chapters.update(
                        k,
                        ChapterView {
                            tales: c.tales.update(
                                t,
                                TaleView { title: new_title@, file_name: names.1@, ..e },
                            ),
                            ..c
                        },
                    ),
                )
            },
    {
        proof {
            lemma_chapter_index(self@.chapters, chapter_dir@, 0);
        }
        match self.find_chapter(chapter_dir) {
            None => None,
            Some(k) => {
                let ghost c = old(self)@.chapters[k as int];
                assert(c.tales == tale_views(self.chapters@[k as int].tales@));
                proof {
                    lemma_tale_index(c.tales, old_file@, 0);
                }
                match find_tale(&self.chapters[k].tales, old_file) {
                    None => None,
                    Some(t) => {
                        let ghost e = c.tales[t as int];
                        assert(e == self.chapters@[k as int].tales@[t as int]@);
                        let order = self.chapters[k].tales[t].order;
                        let stem = entry_stem(new_title, 30);
                        let mut new_file = String::new();
                        push_two_digits(&mut new_file, order + 1);
                        new_file.push('-');
                        new_file.append(stem.as_str());
                        new_file.append(".md");
                        assert(new_file@ =~= tale_file_name(order as nat, new_title@));
                        let ghost ts0 = self.chapters@[k as int].tales@;
                        self.chapters[k].tales[t].title = String::from_str(new_title);
                        let old_name = self.chapters[k].tales[t].file_name.clone();
                        self.chapters[k].tales[t].file_name = new_file.clone();
                        assert(tale_views(self.chapters@[k as int].tales@) =~= tale_views(ts0).update(
                            t as int,
                            TaleView { title: new_title@, file_name: new_file@, ..e },
                        ));
                        assert(chapter_views(self.chapters@) =~= chapter_views(old(self).chapters@).update(
                            k as int,
                            ChapterView {
                                tales: c.tales.update(
                                    t as int,
                                    TaleView { title: new_title@, file_name: new_file@, ..e },
                                ),
                                ..c
                            },
                        ));
                        Some((old_name, new_file))
                    },
                }
            },
        }
    }

    /// Removes, from the first chapter whose directory is `chapter_dir`, every tale whose
    /// file is `file_name`, and renumbers the chapter's other tales.
    pub fn remove_tale(&mut self, chapter_dir: &str, file_name: &str)
        ensures
            chapter_index(old(self)@.chapters, chapter_dir@) < 0 ==> final(self)@ == old(self)@,
            chapter_index(old(self)@.chapters, chapter_dir@) >= 0 ==> {
                let k = chapter_index(old(self)@.chapters, chapter_dir@);
                let c = old(self)@.chapters[k];
                final(self)@ == old(self)@.with_chapters(
                    old(self)@.chapters.update(
                        k,
                        ChapterView { tales: renumber_tales(tales_without(c.tales, file_name@)), ..c },
                    ),
                )
            },
    {
        match self.find_chapter(chapter_dir) {
            None => {},
            Some(k) => {
                let ghost c = old(self)@.chapters[k as int];
                let mut ts: Vec<TaleEntry> = Vec::new();
                std::mem::swap(&mut ts, &mut self.chapters[k].tales);
                assert(tale_views(ts@) == c.tales);
                let nt = tales_renumbered_without(ts, file_name);
                self.chapters[k].tales = nt;
                assert(chapter_views(self.chapters@) =~= chapter_views(old(self).chapters@).update(
                    k as int,
                    ChapterView { tales: renumber_tales(tales_without(c.tales, file_name@)), ..c },
                ));
            },
        }
    }
}

// ── Materials ──

/// Whether some material already has the file name `f`.
pub open spec fn material_name_taken(ms: Seq<MaterialView>, f: Seq<char>) -> bool {
    exists|i: int| 0 <= i < ms.len() && ms[i].file_name == f
}

/// No two materials share a file name.
pub open spec fn material_names_distinct(ms: Seq<MaterialView>) -> bool {
    forall|i: int, j: int| 0 <= i < ms.len() && 0 <= j < ms.len() && i != j ==> ms[i].file_name != ms[j].file_name
}

/// The index of the first material whose file is `f`, looking from `i` on; -1 when none.
pub open spec fn material_index_from(ms: Seq<MaterialView>, f: Seq<char>, i: int) -> int
    decreases ms.len() - i,
{
    if i < 0 || i >= ms.len() {
        -1
    } else if ms[i].file_name == f {
        i
    } else {
        material_index_from(ms, f, i + 1)
    }
}

/// The index of the first material whose file is `f`; -1 when none.
pub open spec fn material_index(ms: Seq<MaterialView>, f: Seq<char>) -> int {
    material_index_from(ms, f, 0)
}

/// The materials other than those whose file is `f`, in order.
pub open spec fn materials_without(ms: Seq<MaterialView>, f: Seq<char>) -> Seq<MaterialView>
    decreases ms.len(),
{
    if ms.len() == 0 {
        Seq::empty()
    } else if ms.last().file_name != f {
        materials_without(ms.drop_last(), f).push(ms.last())
    } else {
        materials_without(ms.drop_last(), f)
    }
}

/// The materials with their order fields set to their positions.
pub open spec fn renumber_materials(ms: Seq<MaterialView>) -> Seq<MaterialView> {
    Seq::new(ms.len(), |i: int| MaterialView { order: i as usize, ..ms[i] })
}

pub proof fn lemma_material_index(ms: Seq<MaterialView>, f: Seq<char>, i: int)
    requires
        0 <= i <= ms.len(),
    ensures
        material_index_from(ms, f, i) == -1 || (i <= material_index_from(ms, f, i) < ms.len()),
        material_index_from(ms, f, i) == -1 ==> forall|j: int| i <= j < ms.len() ==> ms[j].file_name != f,
        material_index_from(ms, f, i) >= 0 ==> ms[material_index_from(ms, f, i)].file_name == f
            && forall|j: int| i <= j < material_index_from(ms, f, i) ==> ms[j].file_name != f,
    decreases ms.len() - i,
{
    if i < ms.len() {
        lemma_material_index(ms, f, i + 1);
    }
}

pub proof fn lemma_materials_without_len(ms: Seq<MaterialView>, f: Seq<char>)
    ensures
        materials_without(ms, f).len() <= ms.len(),
    decreases ms.len(),
{
    if ms.len() > 0 {
        lemma_materials_without_len(ms.drop_last(), f);
    }
}

proof fn lemma_decimal_len(n: nat)
    ensures
        decimal(n).len() >= 1,
        n >= 10 ==> decimal(n).len() >= 2,
    decreases n,
{
    if n >= 10 {
        lemma_decimal_len(n / 10);
    }
}

proof fn lemma_digit_char_injective(a: nat, b: nat)
    requires
        a < 10,
        b < 10,
        crate::text::digit_char(a) == crate::text::digit_char(b),
    ensures
        a == b,
{
}

/// Different numbers have different decimal forms.
pub proof fn lemma_decimal_injective(a: nat, b: nat)
    requires
        decimal(a) == decimal(b),
    ensures
        a == b,
    decreases a,
{
    lemma_decimal_len(a);
    lemma_decimal_len(b);
    if a < 10 && b < 10 {
        assert(decimal(a)[0] == crate::text::digit_char(a));
        assert(decimal(b)[0] == crate::text::digit_char(b));
        lemma_digit_char_injective(a, b);
    } else if a >= 10 && b >= 10 {
        assert(a % 10 < 10 && b % 10 < 10);
        assert(decimal(a).last() == crate::text::digit_char(a % 10));
        assert(decimal(b).last() == crate::text::digit_char(b % 10));
        assert(decimal(a).last() == decimal(b).last());
        lemma_digit_char_injective(a % 10, b % 10);
        assert(decimal(a).drop_last() =~= decimal(a / 10));
        assert(decimal(b).drop_last() =~= decimal(b / 10));
        lemma_decimal_injective(a / 10, b / 10);
    } else {
        assert(decimal(a).len() != decimal(b).len());
    }
}

/// Different candidate numbers give different material file names.
pub proof fn lemma_material_file_name_injective(title: Seq<char>, a: nat, b: nat)
    requires
        material_file_name(title, a) == material_file_name(title, b),
    ensures
        a == b,
{
    let st = name_stem(title, 30);
    lemma_decimal_len(a);
    lemma_decimal_len(b);
    if a != 0 && b != 0 {
        let fa = material_file_name(title, a);
        let fb = material_file_name(title, b);
        assert(fa.len() == st.len() + 1 + decimal(a).len() + ".md"@.len());
        assert(fb.len() == st.len() + 1 + decimal(b).len() + ".md"@.len());
        assert(decimal(a).len() == decimal(b).len());
        let lo = st.len() + 1;
        let hi = lo + decimal(a).len();
        assert(fa.subrange(lo as int, hi as int) =~= decimal(a));
        assert(fb.subrange(lo as int, hi as int) =~= decimal(b));
        lemma_decimal_injective(a, b);
    } else if a != 0 {
        assert(material_file_name(title, a).len() == st.len() + 1 + decimal(a).len() + ".md"@.len());
        assert(material_file_name(title, b).len() == st.len() + ".md"@.len());
    } else if b != 0 {
        assert(material_file_name(title, b).len() == st.len() + 1 + decimal(b).len() + ".md"@.len());
        assert(material_file_name(title, a).len() == st.len() + ".md"@.len());
    }
}

/// When the candidates `0..=m` are all taken, there are more than `m` materials.
proof fn lemma_candidates_bounded(ms: Seq<MaterialView>, title: Seq<char>, m: nat)
    requires
        forall|j: nat| j <= m ==> material_name_taken(ms, #[trigger] material_file_name(title, j)),
    ensures
        m < ms.len(),
{
    broadcast use vstd::seq_lib::seq_to_set_is_finite;
    let names = ms.map_values(|x: MaterialView| x.file_name);
    let cands = Seq::new((m + 1) as nat, |j: int| material_file_name(title, j as nat));
    assert(cands.no_duplicates()) by {
        assert forall|i: int, j: int| 0 <= i < cands.len() && 0 <= j < cands.len() && i != j implies cands[i] != cands[j] by {
            if cands[i] == cands[j] {
                lemma_material_file_name_injective(title, i as nat, j as nat);
            }
        }
    }
    cands.unique_seq_to_set();
    names.lemma_cardinality_of_set();
    assert(cands.to_set().subset_of(names.to_set())) by {
        assert forall|x: Seq<char>| cands.to_set().contains(x) implies names.to_set().contains(x) by {
            assert(cands.contains(x));
            let j = choose|j: int| 0 <= j < cands.len() && cands[j] == x;
            assert(material_name_taken(ms, material_file_name(title, j as nat)));
            let i = choose|i: int| 0 <= i < ms.len() && ms[i].file_name == x;
            assert(names[i] == x);
            assert(names.contains(x));
        }
    }
    vstd::set_lib::lemma_len_subset(cands.to_set(), names.to_set());
}

impl MaterialCategory {
    /// A copy of the category.
    pub fn duplicate(&self) -> (r: MaterialCategory)
        ensures
            r@ == self@,
    {
        match self {
            MaterialCategory::Character => MaterialCategory::Character,
            MaterialCategory::World => MaterialCategory::World,
            MaterialCategory::Glossary => MaterialCategory::Glossary,
            MaterialCategory::Timeline => MaterialCategory::Timeline,
            MaterialCategory::Other(s) => MaterialCategory::Other(s.clone()),
        }
    }
}

/// `stem.md` for candidate 0, `stem-k.md` for candidate `k`.
fn material_candidate(stem: &String, k: usize, Ghost(title): Ghost<Seq<char>>) -> (r: String)
    requires
        stem@ == name_stem(title, 30),
    ensures
        r@ == material_file_name(title, k as nat),
{
    let mut r = stem.clone();
    if k > 0 {
        r.push('-');
        push_decimal(&mut r, k);
    }
    r.append(".md");
    assert(r@ =~= material_file_name(title, k as nat));
    r
}

impl Project {
    /// Whether some material already has the file name `file_name`.
    pub fn material_name_used(&self, file_name: &str) -> (r: bool)
        ensures
            r == material_name_taken(self@.materials, file_name@),
    {
        let mut i: usize = 0;
        while i < self.materials.len()
            invariant
                i <= self.materials@.len(),
                forall|j: int| 0 <= j < i ==> self@.materials[j].file_name != file_name@,
            decreases self.materials@.len() - i,
        {
            if str_eq(self.materials[i].file_name.as_str(), file_name) {
                assert(self@.materials[i as int].file_name == file_name@);
                return true;
            }
            i += 1;
        }
        false
    }

    /// The position of the first material whose file is `file_name`.
    pub fn find_material(&self, file_name: &str) -> (r: Option<usize>)
        ensures
            match r {
                Some(k) => k as int == material_index(self@.materials, file_name@) && k < self.materials@.len(),
                None => material_index(self@.materials, file_name@) == -1,
            },
    {
        let mut i: usize = 0;
        while i < self.materials.len()
            invariant
                i <= self.materials@.len(),
                material_index(self@.materials, file_name@) == material_index_from(self@.materials, file_name@, i as int),
            decreases self.materials@.len() - i,
        {
            if str_eq(self.materials[i].file_name.as_str(), file_name) {
                return Some(i);
            }
            i += 1;
        }
        None
    }

    /// Appends a material titled `title` of `category`; its file is `stem.md`, or
    /// `stem-1.md`, `stem-2.md`, ... , the first that no material has yet.
    pub fn add_material(&mut self, title: &str, category: MaterialCategory) -> (entry: MaterialEntry)
        ensures
            entry@.title == title@,
            entry@.category == category@,
            entry@.order == old(self)@.materials.len(),
            !material_name_taken(old(self)@.materials, entry@.file_name),
            exists|k: nat| #![trigger material_file_name(title@, k)]
                entry@.file_name == material_file_name(title@, k) && forall|j: nat|
                    j < k ==> material_name_taken(old(self)@.materials, #[trigger] material_file_name(title@, j)),
            final(self)@ == old(self)@.with_materials(old(self)@.materials.push(entry@)),
            material_names_distinct(old(self)@.materials) ==> material_names_distinct(final(self)@.materials),
    {
        let order = self.materials.len();
        let stem = entry_stem(title, 30);
        let ghost ms = self@.materials;
        assert(ms.len() == order);
        let mut counter: usize = 0;
        let mut file_name = material_candidate(&stem, 0, Ghost(title@));
        while self.material_name_used(file_name.as_str())
            invariant
                ms == self@.materials,
                ms.len() == order,
                stem@ == name_stem(title@, 30),
                file_name@ == material_file_name(title@, counter as nat),
                counter <= ms.len(),
                forall|j: nat| j < counter ==> material_name_taken(ms, #[trigger] material_file_name(title@, j)),
            decreases ms.len() - counter,
        {
            proof {
                assert forall|j: nat| j <= counter implies material_name_taken(ms, #[trigger] material_file_name(title@, j)) by {
                    if j < counter {
                    }
                }
                lemma_candidates_bounded(ms, title@, counter as nat);
            }
            counter += 1;
            file_name = material_candidate(&stem, counter, Ghost(title@));
        }
        let entry = MaterialEntry {
            title: String::from_str(title),
            file_name: file_name.clone(),
            category: category.duplicate(),
            order,
        };
        self.materials.push(MaterialEntry {
            title: String::from_str(title),
            file_name,
            category,
            order,
        });
        assert(material_views(self.materials@) =~= material_views(old(self).materials@).push(entry@));
        assert(entry@.file_name == material_file_name(title@, counter as nat));
        assert(material_names_distinct(ms) ==> material_names_distinct(ms.push(entry@))) by {
            if material_names_distinct(ms) {
                assert forall|i: int, j: int| 0 <= i < ms.push(entry@).len() && 0 <= j < ms.push(entry@).len() && i != j
                    implies ms.push(entry@)[i].file_name != ms.push(entry@)[j].file_name by {
                    if i < ms.len() && j < ms.len() {
                    } else if i < ms.len() {
                        assert(ms.push(entry@)[i] == ms[i]);
                    } else {
                        assert(ms.push(entry@)[j] == ms[j]);
                    }
                }
            }
        }
        entry
    }

    /// Retitles the first material whose file is `old_file` and renames its file to
    /// `stem.md` after the new title; gives the old and the new file name, or `None`
    /// when there is no such material.
    pub fn rename_material(&mut self, old_file: &str, new_title: &str) -> (r: Option<(String, String)>)
        ensures
            material_index(old(self)@.materials, old_file@) < 0 ==> r is None && final(self)@ == old(
                self,
            )@,
            material_index(old(self)@.materials, old_file@) >= 0 ==> {
                let k = material_index(old(self)@.materials, old_file@);
                let m = old(self)@.materials[k];
                let names = r->0;
                &&& r is Some
                &&& names.0@ == m.file_name
                &&& names.0@ == old_file@
                &&& names.1@ == material_file_name(new_title@, 0)
                &&& final(self)@ == old(self)@.with_materials(
                    old(self)@.materials.update(k, MaterialView { title: new_title@, file_name: names.1@, ..m }),
                )
            },
    {
        proof {
            lemma_material_index(self@.materials, old_file@, 0);
        }
        match self.find_material(old_file) {
            None => None,
            Some(k) => {
                let ghost m = old(self)@.materials[k as int];
                let stem = entry_stem(new_title, 30);
                let new_file = material_candidate(&stem, 0, Ghost(new_title@));
                self.materials[k].title = String::from_str(new_title);
                let old_name = self.materials[k].file_name.clone();
                self.materials[k].file_name = new_file.clone();
                assert(material_views(self.materials@) =~= material_views(old(self).materials@).update(
                    k as int,
                    MaterialView { title: new_title@, file_name: new_file@, ..m },
                ));
                Some((old_name, new_file))
            },
        }
    }

    /// Removes every material whose file is `file_name` and renumbers the rest.
    pub fn remove_material(&mut self, file_name: &str)
        ensures
            final(self)@ == old(self)@.with_materials(
                renumber_materials(materials_without(old(self)@.materials, file_name@)),
            ),
    {
        let ghost orig = old(self)@.materials;
        let mut rest: Vec<MaterialEntry> = Vec::new();
        std::mem::swap(&mut rest, &mut self.materials);
        let ghost mut consumed: int = 0;
        assert(material_views(rest@) =~= orig.skip(0));
        assert(orig.take(0) =~= Seq::<MaterialView>::empty());
        assert(material_views(self.materials@) =~= renumber_materials(materials_without(orig.take(0), file_name@)));
        while rest.len() > 0
            invariant
                0 <= consumed <= orig.len(),
                material_views(rest@) == orig.skip(consumed),
                material_views(self.materials@) == renumber_materials(materials_without(orig.take(consumed), file_name@)),
                self.name == old(self).name,
                self.root_dir == old(self).root_dir,
                self.chapters == old(self).chapters,
                self.settings == old(self).settings,
                self.daily_stats == old(self).daily_stats,
                orig == old(self)@.materials,
            decreases rest@.len(),
        {
            let ghost rest0 = rest@;
            assert(material_views(rest0).len() == rest0.len());
            assert(consumed < orig.len());
            assert(material_views(rest0)[0] == rest0[0]@);
            assert(orig.skip(consumed)[0] == orig[consumed]);
            let mut e = rest.remove(0);
            assert(e@ == orig[consumed]);
            assert forall|j: int| 0 <= j < rest@.len() implies #[trigger] material_views(rest@)[j] == orig.skip(consumed + 1)[j] by {
                assert(rest@[j] == rest0[j + 1]);
                assert(material_views(rest0)[j + 1] == rest0[j + 1]@);
                assert(orig.skip(consumed)[j + 1] == orig[consumed + 1 + j]);
            }
            assert(material_views(rest@) =~= orig.skip(consumed + 1));
            let ghost prev = materials_without(orig.take(consumed), file_name@);
            assert(orig.take(consumed + 1).drop_last() =~= orig.take(consumed));
            proof {
                lemma_materials_without_len(orig.take(consumed), file_name@);
            }
            if !str_eq(e.file_name.as_str(), file_name) {
                let ghost ms0 = self.materials@;
                let ghost v = orig[consumed];
                assert(material_views(ms0).len() == prev.len());
                e.order = self.materials.len();
                assert(e@ == MaterialView { order: prev.len() as usize, ..v });
                self.materials.push(e);
                assert forall|j: int| 0 <= j < self.materials@.len() implies #[trigger] material_views(self.materials@)[j] == renumber_materials(prev.push(v))[j] by {
                    if j < ms0.len() {
                        assert(self.materials@[j] == ms0[j]);
                        assert(material_views(ms0)[j] == renumber_materials(prev)[j]);
                    }
                }
                assert(material_views(self.materials@) =~= renumber_materials(prev.push(orig[consumed])));
            }
            proof {
                consumed = consumed + 1;
            }
        }
        assert(orig.take(consumed) =~= orig);
    }
}

// ── Paths ──

/// `part` joined onto `base` as `std::path::Path::join` does with `/` separators: an
/// absolute `part` replaces `base`; otherwise one `/` stands between them, unless `base`
/// is empty or already ends with one.
pub open spec fn join_path_spec(base: Seq<char>, part: Seq<char>) -> Seq<char> {
    if part.len() > 0 && part[0] == '/' {
        part
    } else if base.len() == 0 || base.last() == '/' {
        base + part
    } else {
        base + seq!['/'] + part
    }
}

/// Joins two path strings with `/`, as `Path::join` does on Unix.
pub fn join_path(base: &str, part: &str) -> (r: String)
    ensures
        r@ == join_path_spec(base@, part@),
{
    let ps = chars_of(part);
    if ps.len() > 0 && ps[0] == '/' {
        return String::from_str(part);
    }
    let bs = chars_of(base);
    let mut r = String::from_str(base);
    if bs.len() > 0 && bs[bs.len() - 1] != '/' {
        r.push('/');
    }
    r.append(part);
    assert(r@ =~= join_path_spec(base@, part@));
    r
}

impl Project {
    /// The directory of the chapter `dir_name`: `root/chapters/dir_name`.
    pub fn chapter_dir(&self, dir_name: &str) -> (r: String)
        ensures
            r@ == join_path_spec(join_path_spec(self@.root_dir, "chapters"@), dir_name@),
    {
        let chapters = join_path(self.root_dir.as_str(), "chapters");
        join_path(chapters.as_str(), dir_name)
    }

    /// The file of a tale: `root/chapters/chapter_dir/file_name`.
    pub fn tale_path(&self, chapter_dir: &str, file_name: &str) -> (r: String)
        ensures
            r@ == join_path_spec(
                join_path_spec(join_path_spec(self@.root_dir, "chapters"@), chapter_dir@),
                file_name@,
            ),
    {
        let dir = self.chapter_dir(chapter_dir);
        join_path(dir.as_str(), file_name)
    }

    /// The file of a material: `root/materials/file_name`.
    pub fn material_path(&self, file_name: &str) -> (r: String)
        ensures
            r@ == join_path_spec(join_path_spec(self@.root_dir, "materials"@), file_name@),
    {
        let materials = join_path(self.root_dir.as_str(), "materials");
        join_path(materials.as_str(), file_name)
    }

    /// The project file: `root/chronicle.json`.
    pub fn project_file_path(&self) -> (r: String)
        ensures
            r@ == join_path_spec(self@.root_dir, "chronicle.json"@),
    {
        join_path(self.root_dir.as_str(), "chronicle.json")
    }
}

// ── Labels ──

/// The label of a material category: its Japanese name, or the custom name.
pub open spec fn category_label(c: CategoryView) -> Seq<char> {
    match c {
        CategoryView::Character => "キャラクター"@,
        CategoryView::World => "世界観"@,
        CategoryView::Glossary => "用語集"@,
        CategoryView::Timeline => "年表"@,
        CategoryView::Other(s) => s,
    }
}

impl MaterialCategory {
    /// The category's label.
    pub fn label(&self) -> (r: &str)
        ensures
            r@ == category_label(self@),
    {
        match self {
            MaterialCategory::Character => "キャラクター",
            MaterialCategory::World => "世界観",
            MaterialCategory::Glossary => "用語集",
            MaterialCategory::Timeline => "年表",
            MaterialCategory::Other(s) => s.as_str(),
        }
    }
}

// ── Document references ──

/// An open document: a tale of a chapter, or a material.
#[derive(Debug, Clone, PartialEq, Eq, Hash)]
pub enum DocRef {
    Tale { chapter_dir: String, tale_file: String, chapter_title: String, tale_title: String },
    Material { file_name: String, title: String },
}

pub enum DocView {
    Tale { chapter_dir: Seq<char>, tale_file: Seq<char>, chapter_title: Seq<char>, tale_title: Seq<char> },
    Material { file_name: Seq<char>, title: Seq<char> },
}

impl View for DocRef {
    type V = DocView;

    open spec fn view(&self) -> DocView {
        match self {
            DocRef::Tale { chapter_dir, tale_file, chapter_title, tale_title } => DocView::Tale {
                chapter_dir: chapter_dir@,
                tale_file: tale_file@,
                chapter_title: chapter_title@,
                tale_title: tale_title@,
            },
            DocRef::Material { file_name, title } => DocView::Material { file_name: file_name@, title: title@ },
        }
    }
}

/// The label of a document's tab: `chapter / tale` for a tale, the title for a material.
pub open spec fn tab_label_spec(d: DocView) -> Seq<char> {
    match d {
        DocView::Tale { chapter_title, tale_title, .. } => chapter_title + " / "@ + tale_title,
        DocView::Material { title, .. } => title,
    }
}

/// The short label of a document: its own title.
pub open spec fn short_label_spec(d: DocView) -> Seq<char> {
    match d {
        DocView::Tale { tale_title, .. } => tale_title,
        DocView::Material { title, .. } => title,
    }
}

impl DocRef {
    /// The tab label: `chapter / tale`, or the material's title.
    pub fn tab_label(&self) -> (r: String)
        ensures
            r@ == tab_label_spec(self@),
    {
        match self {
            DocRef::Tale { chapter_title, tale_title, .. } => {
                let mut r = chapter_title.clone();
                r.append(" / ");
                r.append(tale_title.as_str());
                r
            },
            DocRef::Material { title, .. } => title.clone(),
        }
    }

    /// The short label: the tale's or the material's title.
    pub fn short_label(&self) -> (r: String)
        ensures
            r@ == short_label_spec(self@),
    {
        match self {
            DocRef::Tale { tale_title, .. } => tale_title.clone(),
            DocRef::Material { title, .. } => title.clone(),
        }
    }
}

/// The open tabs, the active one and the text of each, kept out of the project file.
#[derive(Debug, Clone)]
pub struct TabState {
    pub open_tabs: Vec<DocRef>,
    pub active_tab: DocRef,
    pub tab_content: std::collections::HashMap<DocRef, String>,
}

} // verus!
