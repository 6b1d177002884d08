//! The writing session: recent projects, character counts, daily progress and tabs.

use vstd::prelude::*;
use crate::model::project::{DailyStats, DocRef, DocView, Project, StatsView, ChapterView};
use crate::text::{chars_of, char_is_whitespace, is_white_space, str_eq};

verus! {

// ── Character counts ──

/// The number of characters of `s` that are not white space.
pub open spec fn non_ws_count(s: Seq<char>) -> nat
    decreases s.len(),
{
    if s.len() == 0 {
        0
    } else {
        non_ws_count(s.drop_last()) + if is_white_space(s.last()) { 0nat } else { 1nat }
    }
}

proof fn lemma_non_ws_count_le(s: Seq<char>)
    ensures
        non_ws_count(s) <= s.len(),
    decreases s.len(),
{
    if s.len() > 0 {
        lemma_non_ws_count_le(s.drop_last());
    }
}

/// The character count shown for a text: its characters other than white space.
pub fn char_count(text: &str) -> (n: usize)
    ensures
        n == non_ws_count(text@),
{
    let cs = chars_of(text);
    let mut n: usize = 0;
    let mut i: usize = 0;
    while i < cs.len()
        invariant
            i <= cs@.len(),
            n == non_ws_count(cs@.take(i as int)),
        decreases cs@.len() - i,
    {
        assert(cs@.take(i + 1).drop_last() =~= cs@.take(i as int));
        proof {
            lemma_non_ws_count_le(cs@.take(i as int));
        }
        if !char_is_whitespace(cs[i]) {
            n = n + 1;
        }
        i += 1;
    }
    assert(cs@.take(cs@.len() as int) =~= cs@);
    n
}

/// Today's progress: the characters written now beyond the count the day started from.
pub fn daily_progress(current: usize, others: usize, start: usize) -> (p: usize)
    requires
        current + others <= usize::MAX,
    ensures
        p == if current + others >= start { current + others - start } else { 0 },
{
    (current + others).saturating_sub(start)
}

/// Starts a new writing day when `today` differs from the recorded date: the date
/// becomes `today` and the start count `total`.  Tells whether the stats changed (and
/// so must be saved).
pub fn roll_daily_stats(stats: &mut DailyStats, today: &str, total: usize) -> (changed: bool)
    ensures
        changed == (old(stats)@.last_date != today@),
        changed ==> final(stats)@ == (StatsView { last_date: today@, start_count: total }),
        !changed ==> final(stats)@ == old(stats)@,
{
    if !str_eq(stats.last_date.as_str(), today) {
        stats.last_date = String::from_str(today);
        stats.start_count = total;
        true
    } else {
        false
    }
}

/// Whether tale `j` of chapter `c` is the open document `active`.
pub open spec fn is_active_tale(c: ChapterView, j: int, active: Option<DocView>) -> bool {
    match active {
        Some(DocView::Tale { chapter_dir, tale_file, .. }) => chapter_dir == c.dir_name && tale_file
            == c.tales[j].file_name,
        _ => false,
    }
}

/// What tale `j` of chapter `c` adds to the total: nothing when it is the open document,
/// else its cached count, else the count read from its file (nothing when it could not
/// be read).
pub open spec fn tale_contribution(c: ChapterView, j: int, active: Option<DocView>, loaded: Option<usize>) -> nat {
    if is_active_tale(c, j, active) {
        0
    } else {
        match c.tales[j].cached_char_count {
            Some(n) => n as nat,
            None => match loaded {
                Some(n) => n as nat,
                None => 0,
            },
        }
    }
}

/// The contributions of the first `k` tales of chapter `c`.
pub open spec fn chapter_total(c: ChapterView, k: int, active: Option<DocView>, loaded: Seq<Option<usize>>) -> nat
    decreases k,
{
    if k <= 0 {
        0
    } else {
        chapter_total(c, k - 1, active, loaded) + tale_contribution(c, k - 1, active, loaded[k - 1])
    }
}

/// The contributions of the tales of the first `k` chapters.
pub open spec fn project_total(cs: Seq<ChapterView>, k: int, active: Option<DocView>, loaded: Seq<Seq<Option<usize>>>) -> nat
    decreases k,
{
    if k <= 0 {
        0
    } else {
        project_total(cs, k - 1, active, loaded) + chapter_total(
            cs[k - 1],
            cs[k - 1].tales.len() as int,
            active,
            loaded[k - 1],
        )
    }
}

pub open spec fn opt_doc_view(d: Option<DocRef>) -> Option<DocView> {
    match d {
        Some(x) => Some(x@),
        None => None,
    }
}

proof fn lemma_chapter_total_mono(c: ChapterView, k: int, active: Option<DocView>, loaded: Seq<Option<usize>>)
    requires
        0 <= k <= c.tales.len(),
    ensures
        forall|m: int| 0 <= m <= k ==> #[trigger] chapter_total(c, m, active, loaded) <= chapter_total(c, k, active, loaded),
    decreases k,
{
    if k > 0 {
        lemma_chapter_total_mono(c, k - 1, active, loaded);
    }
}

proof fn lemma_project_total_mono(cs: Seq<ChapterView>, k: int, active: Option<DocView>, loaded: Seq<Seq<Option<usize>>>)
    requires
        0 <= k <= cs.len(),
    ensures
        forall|m: int| 0 <= m <= k ==> #[trigger] project_total(cs, m, active, loaded) <= project_total(cs, k, active, loaded),
    decreases k,
{
    if k > 0 {
        lemma_project_total_mono(cs, k - 1, active, loaded);
    }
}

/// The character total of the project's tales, the open document `active` left out:
/// each tale counts with its cached count, or else with `loaded[i][j]`, the count read
/// from its file (`None` when it could not be read).
pub fn total_chars(p: &Project, active: &Option<DocRef>, loaded: &Vec<Vec<Option<usize>>>) -> (n: usize)
    requires
        loaded@.len() == p@.chapters.len(),
        forall|i: int| 0 <= i < loaded@.len() ==> (#[trigger] loaded@[i])@.len() == p@.chapters[i].tales.len(),
        project_total(
            p@.chapters,
            p@.chapters.len() as int,
            opt_doc_view(*active),
            loaded@.map_values(|v: Vec<Option<usize>>| v@),
        ) <= usize::MAX,
    ensures
        n == project_total(
            p@.chapters,
            p@.chapters.len() as int,
            opt_doc_view(*active),
            loaded@.map_values(|v: Vec<Option<usize>>| v@),
        ),
{
    let ghost cs = p@.chapters;
    let ghost act = opt_doc_view(*active);
    let ghost ld = loaded@.map_values(|v: Vec<Option<usize>>| v@);
    proof {
        lemma_project_total_mono(cs, cs.len() as int, act, ld);
    }
    let mut total: usize = 0;
    let mut i: usize = 0;
    while i < p.chapters.len()
        invariant
            i <= cs.len(),
            cs == p@.chapters,
            ld == loaded@.map_values(|v: Vec<Option<usize>>| v@),
            act == opt_doc_view(*active),
            loaded@.len() == cs.len(),
            forall|x: int| 0 <= x < loaded@.len() ==> (#[trigger] loaded@[x])@.len() == cs[x].tales.len(),
            total == project_total(cs, i as int, act, ld),
            forall|m: int| 0 <= m <= cs.len() ==> #[trigger] project_total(cs, m, act, ld) <= project_total(cs, cs.len() as int, act, ld),
            project_total(cs, cs.len() as int, act, ld) <= usize::MAX,
        decreases cs.len() - i,
    {
        let ch = &p.chapters[i];
        let ghost c = cs[i as int];
        assert(c == ch@);
        assert(ld[i as int] == loaded@[i as int]@);
        proof {
            lemma_chapter_total_mono(c, c.tales.len() as int, act, ld[i as int]);
        }
        assert(project_total(cs, i + 1, act, ld) == total + chapter_total(c, c.tales.len() as int, act, ld[i as int]));
        let mut j: usize = 0;
        while j < ch.tales.len()
            invariant
                j <= c.tales.len(),
                c == ch@,
                i < loaded@.len(),
                c.tales.len() == ch.tales@.len(),
                ld[i as int] == loaded@[i as int]@,
                loaded@[i as int]@.len() == c.tales.len(),
                total == project_total(cs, i as int, act, ld) + chapter_total(c, j as int, act, ld[i as int]),
                project_total(cs, i as int, act, ld) + chapter_total(c, c.tales.len() as int, act, ld[i as int]) <= usize::MAX,
                forall|m: int| 0 <= m <= c.tales.len() ==> #[trigger] chapter_total(c, m, act, ld[i as int]) <= chapter_total(c, c.tales.len() as int, act, ld[i as int]),
                act == opt_doc_view(*active),
            decreases c.tales.len() - j,
        {
            let t = &ch.tales[j];
            assert(c.tales[j as int] == t@);
            let is_active = match active {
                Some(DocRef::Tale { chapter_dir, tale_file, .. }) => str_eq(chapter_dir.as_str(), ch.dir_name.as_str())
                    && str_eq(tale_file.as_str(), t.file_name.as_str()),
                _ => false,
            };
            assert(is_active == is_active_tale(c, j as int, act));
            let add: usize = if is_active {
                0
            } else {
                match t.cached_char_count {
                    Some(n) => n,
                    None => match loaded[i][j] {
                        Some(n) => n,
                        None => 0,
                    },
                }
            };
            assert(add == tale_contribution(c, j as int, act, ld[i as int][j as int]));
            assert(chapter_total(c, j + 1, act, ld[i as int]) == chapter_total(c, j as int, act, ld[i as int]) + add);
            total = total + add;
            j += 1;
        }
        i += 1;
    }
    total
}

/// A chapter after a save of its tale `f` counted `count` characters: its first tale
/// whose file is `f` caches the count; without such a tale the chapter is unchanged.
pub open spec fn record_in_chapter(c: ChapterView, f: Seq<char>, count: usize) -> ChapterView {
    let t = crate::model::project::tale_index(c.tales, f);
    if t >= 0 {
        ChapterView {
            tales: c.tales.update(t, crate::model::project::TaleView { cached_char_count: Some(count), ..c.tales[t] }),
            ..c
        }
    } else {
        c
    }
}

/// The chapters after such a save: every chapter whose directory is `d` records it.
pub open spec fn record_in_chapters(cs: Seq<ChapterView>, d: Seq<char>, f: Seq<char>, count: usize) -> Seq<ChapterView> {
    Seq::new(cs.len(), |i: int| if cs[i].dir_name == d { record_in_chapter(cs[i], f, count) } else { cs[i] })
}

/// Records the character count of a saved tale: in every chapter whose directory is
/// `chapter_dir`, the first tale named `tale_file` caches `count`.
pub fn record_char_count(p: &mut Project, chapter_dir: &str, tale_file: &str, count: usize)
    ensures
        final(p)@ == old(p)@.with_chapters(record_in_chapters(old(p)@.chapters, chapter_dir@, tale_file@, count)),
{
    let ghost target = record_in_chapters(old(p)@.chapters, chapter_dir@, tale_file@, count);
    let n = p.chapters.len();
    let mut k: usize = 0;
    while k < n
        invariant
            n == p@.chapters.len(),
            n == old(p)@.chapters.len(),
            k <= n,
            target == record_in_chapters(old(p)@.chapters, chapter_dir@, tale_file@, count),
            p@ == old(p)@.with_chapters(p@.chapters),
            forall|j: int| 0 <= j < k ==> #[trigger] p@.chapters[j] == target[j],
            forall|j: int| k <= j < n ==> #[trigger] p@.chapters[j] == old(p)@.chapters[j],
        decreases n - k,
    {
        let ghost c = old(p)@.chapters[k as int];
        assert(p@.chapters[k as int] == c);
        if str_eq(p.chapters[k].dir_name.as_str(), chapter_dir) {
            let ghost p0 = *p;
            let m = p.chapters[k].tales.len();
            let mut t: usize = 0;
            let mut done = false;
            proof {
                crate::model::project::lemma_tale_index(c.tales, tale_file@, 0);
            }
            while t < m && !done
                invariant
                    t <= m,
                    k < n,
                    n == p.chapters@.len(),
                    m == p.chapters@[k as int].tales@.len(),
                    c == p0@.chapters[k as int],
                    m == c.tales.len(),
                    !done ==> *p == p0,
                    !done ==> crate::model::project::tale_index(c.tales, tale_file@)
                        == crate::model::project::tale_index_from(c.tales, tale_file@, t as int),
                    done ==> p@ == p0@.with_chapters(
                        p0@.chapters.update(k as int, record_in_chapter(c, tale_file@, count)),
                    ),
                decreases m - t + if done { 0int } else { 1int },
            {
                assert(c.tales[t as int] == p.chapters@[k as int].tales@[t as int]@);
                if str_eq(p.chapters[k].tales[t].file_name.as_str(), tale_file) {
                    assert(crate::model::project::tale_index_from(c.tales, tale_file@, t as int) == t as int);
                    p.chapters[k].tales[t].cached_char_count = Some(count);
                    assert(crate::model::project::tale_views(p.chapters@[k as int].tales@) =~= c.tales.update(
                        t as int,
                        crate::model::project::TaleView { cached_char_count: Some(count), ..c.tales[t as int] },
                    ));
                    assert(crate::model::project::chapter_views(p.chapters@) =~= p0@.chapters.update(
                        k as int,
                        record_in_chapter(c, tale_file@, count),
                    ));
                    done = true;
                } else {
                    t += 1;
                }
            }
            if !done {
                assert(crate::model::project::tale_index(c.tales, tale_file@) == -1);
                assert(p0@.chapters.update(k as int, record_in_chapter(c, tale_file@, count)) =~= p0@.chapters);
            }
            assert(p@.chapters =~= p0@.chapters.update(k as int, record_in_chapter(c, tale_file@, count)));
        }
        assert(p@.chapters[k as int] == target[k as int]);
        k += 1;
    }
    assert(p@.chapters =~= target);
}

// ── Font size ──

/// The smallest font size the buttons reach.
pub const MIN_FONT_SIZE: u32 = 8;

/// The largest font size the buttons reach.
pub const MAX_FONT_SIZE: u32 = 32;

/// The font size after pressing A+ (`larger`) or A-: one point more or less, unless that
/// would pass 32 or 8.
pub fn step_font_size(size: u32, larger: bool) -> (r: u32)
    ensures
        larger ==> r == if size < MAX_FONT_SIZE { size + 1 } else { size as int },
        !larger ==> r == if size > MIN_FONT_SIZE { size - 1 } else { size as int },
        MIN_FONT_SIZE <= size <= MAX_FONT_SIZE ==> MIN_FONT_SIZE <= r <= MAX_FONT_SIZE,
{
    if larger {
        if size < MAX_FONT_SIZE { size + 1 } else { size }
    } else {
        if size > MIN_FONT_SIZE { size - 1 } else { size }
    }
}

// ── Recent projects ──

/// The longest the list of recent projects grows.
pub const MAX_RECENT: usize = 20;

pub open spec fn string_views(v: Seq<String>) -> Seq<Seq<char>> {
    v.map_values(|s: String| s@)
}

/// The entries of `l` other than `d`, in order.
pub open spec fn strings_without(l: Seq<Seq<char>>, d: Seq<char>) -> Seq<Seq<char>>
    decreases l.len(),
{
    if l.len() == 0 {
        Seq::empty()
    } else if l.last() != d {
        strings_without(l.drop_last(), d).push(l.last())
    } else {
        strings_without(l.drop_last(), d)
    }
}

/// The recent list after opening `d`: `d` moved (or added) to the end, and the oldest
/// entry dropped when that makes more than twenty.
pub open spec fn recent_after(l: Seq<Seq<char>>, d: Seq<char>) -> Seq<Seq<char>> {
    let r = strings_without(l, d).push(d);
    if r.len() > MAX_RECENT {
        r.drop_first()
    } else {
        r
    }
}

pub proof fn lemma_strings_without(l: Seq<Seq<char>>, d: Seq<char>)
    ensures
        strings_without(l, d).len() <= l.len(),
        forall|i: int| 0 <= i < strings_without(l, d).len() ==> #[trigger] strings_without(l, d)[i] != d,
        forall|i: int| 0 <= i < strings_without(l, d).len() ==> l.contains(#[trigger] strings_without(l, d)[i]),
        l.no_duplicates() ==> strings_without(l, d).no_duplicates(),
    decreases l.len(),
{
    if l.len() > 0 {
        let p = l.drop_last();
        lemma_strings_without(p, d);
        let w = strings_without(p, d);
        assert forall|i: int| 0 <= i < w.len() implies l.contains(#[trigger] w[i]) by {
            let j = choose|j: int| 0 <= j < p.len() && p[j] == w[i];
            assert(l[j] == w[i]);
        }
        if l.last() != d {
            let x = l.last();
            assert forall|i: int| 0 <= i < w.push(x).len() implies #[trigger] w.push(x)[i] != d && l.contains(w.push(x)[i]) by {
                if i < w.len() {
                    assert(w.push(x)[i] == w[i]);
                } else {
                    assert(l[l.len() - 1] == x);
                }
            }
            if l.no_duplicates() {
                assert(p.no_duplicates()) by {
                    assert forall|i: int, j: int| 0 <= i < p.len() && 0 <= j < p.len() && i != j implies p[i] != p[j] by {
                        assert(p[i] == l[i] && p[j] == l[j]);
                    }
                }
                assert forall|i: int, j: int| 0 <= i < w.push(x).len() && 0 <= j < w.push(x).len() && i != j
                    implies w.push(x)[i] != w.push(x)[j] by {
                    if i < w.len() && j < w.len() {
                        assert(w.push(x)[i] == w[i] && w.push(x)[j] == w[j]);
                    } else if i < w.len() {
                        assert(w.push(x)[i] == w[i]);
                        assert(p.contains(w[i]));
                        let m = choose|m: int| 0 <= m < p.len() && p[m] == w[i];
                        assert(l[m] == p[m]);
                        assert(l[l.len() - 1] == x);
                    } else {
                        assert(w.push(x)[j] == w[j]);
                        assert(p.contains(w[j]));
                        let m = choose|m: int| 0 <= m < p.len() && p[m] == w[j];
                        assert(l[m] == p[m]);
                        assert(l[l.len() - 1] == x);
                    }
                }
            }
        } else {
            if l.no_duplicates() {
                assert forall|i: int, j: int| 0 <= i < p.len() && 0 <= j < p.len() && i != j implies p[i] != p[j] by {
                    assert(p[i] == l[i] && p[j] == l[j]);
                }
            }
        }
    }
}

/// Moves `dir` to the end of the recent projects, dropping the oldest entry beyond twenty.
pub fn push_recent(list: &mut Vec<String>, dir: String)
    ensures
        string_views(final(list)@) == recent_after(string_views(old(list)@), dir@),
{
    let ghost orig = string_views(old(list)@);
    let mut rest: Vec<String> = Vec::new();
    std::mem::swap(&mut rest, list);
    let ghost mut consumed: int = 0;
    assert(string_views(rest@) =~= orig.skip(0));
    assert(orig.take(0) =~= Seq::<Seq<char>>::empty());
    assert(string_views(list@) =~= strings_without(orig.take(0), dir@));
    while rest.len() > 0
        invariant
            0 <= consumed <= orig.len(),
            string_views(rest@) == orig.skip(consumed),
            string_views(list@) == strings_without(orig.take(consumed), dir@),
        decreases rest@.len(),
    {
        let ghost rest0 = rest@;
        assert(string_views(rest0).len() == rest0.len());
        assert(consumed < orig.len());
        assert(string_views(rest0)[0] == rest0[0]@);
        assert(orig.skip(consumed)[0] == orig[consumed]);
        let e = rest.remove(0);
        assert forall|j: int| 0 <= j < rest@.len() implies #[trigger] string_views(rest@)[j] == orig.skip(consumed + 1)[j] by {
            assert(rest@[j] == rest0[j + 1]);
            assert(string_views(rest0)[j + 1] == rest0[j + 1]@);
            assert(orig.skip(consumed)[j + 1] == orig[consumed + 1 + j]);
        }
        assert(string_views(rest@) =~= orig.skip(consumed + 1));
        assert(orig.take(consumed + 1).drop_last() =~= orig.take(consumed));
        proof {
            lemma_strings_without(orig.take(consumed), dir@);
        }
        if !str_eq(e.as_str(), dir.as_str()) {
            let ghost l0 = list@;
            list.push(e);
            assert(string_views(list@) =~= string_views(l0).push(orig[consumed]));
        }
        proof {
            consumed = consumed + 1;
        }
    }
    assert(orig.take(consumed) =~= orig);
    let ghost l1 = list@;
    list.push(dir);
    assert(string_views(list@) =~= string_views(l1).push(dir@));
    if list.len() > MAX_RECENT {
        let ghost l2 = list@;
        list.remove(0);
        assert(string_views(list@) =~= string_views(l2).drop_first());
    }
}

/// After opening a project, it is the most recent entry, it stands in the list once,
/// the list holds no entry twice if it held none before, and it has at most twenty
/// entries if it had at most twenty before.
pub proof fn recent_list_stays_a_short_set(l: Seq<Seq<char>>, d: Seq<char>)
    ensures
        recent_after(l, d).last() == d,
        l.no_duplicates() ==> recent_after(l, d).no_duplicates(),
        l.len() <= MAX_RECENT ==> recent_after(l, d).len() <= MAX_RECENT,
        forall|i: int| 0 <= i < recent_after(l, d).len() - 1 ==> #[trigger] recent_after(l, d)[i] != d,
{
    lemma_strings_without(l, d);
    let w = strings_without(l, d);
    let r = w.push(d);
    assert forall|i: int| 0 <= i < r.len() - 1 implies #[trigger] r[i] != d by {
        assert(r[i] == w[i]);
    }
    if l.no_duplicates() {
        assert forall|i: int, j: int| 0 <= i < r.len() && 0 <= j < r.len() && i != j implies r[i] != r[j] by {
            if i < w.len() && j < w.len() {
                assert(r[i] == w[i] && r[j] == w[j]);
            } else if i < w.len() {
                assert(r[i] == w[i]);
            } else {
                assert(r[j] == w[j]);
            }
        }
    }
    if r.len() > MAX_RECENT {
        let q = r.drop_first();
        assert forall|i: int| 0 <= i < q.len() - 1 implies #[trigger] q[i] != d by {
            assert(q[i] == r[i + 1]);
        }
        if l.no_duplicates() {
            assert forall|i: int, j: int| 0 <= i < q.len() && 0 <= j < q.len() && i != j implies q[i] != q[j] by {
                assert(q[i] == r[i + 1] && q[j] == r[j + 1]);
            }
        }
    }
}

// ── Recent projects in the sidebar ──

/// The position of the last `/` in `s`; -1 when there is none.
pub open spec fn last_slash(s: Seq<char>) -> int
    decreases s.len(),
{
    if s.len() == 0 {
        -1
    } else if s.last() == '/' {
        s.len() - 1
    } else {
        last_slash(s.drop_last())
    }
}

pub proof fn lemma_last_slash(s: Seq<char>)
    ensures
        -1 <= last_slash(s) < s.len(),
        last_slash(s) >= 0 ==> s[last_slash(s)] == '/',
        forall|j: int| last_slash(s) < j < s.len() ==> s[j] != '/',
    decreases s.len(),
{
    if s.len() > 0 && s.last() != '/' {
        lemma_last_slash(s.drop_last());
        assert forall|j: int| last_slash(s) < j < s.len() implies s[j] != '/' by {
            if j < s.len() - 1 {
                assert(s.drop_last()[j] == s[j]);
            }
        }
    }
}

/// The last component of a Unix path, as `Path::file_name` gives it: trailing `/` and
/// `.` components are passed over; a path that ends in `..`, or has no component left,
/// has none.
pub open spec fn file_name_spec(p: Seq<char>) -> Option<Seq<char>>
    decreases p.len(),
{
    if p.len() == 0 {
        None
    } else if p.last() == '/' {
        file_name_spec(p.drop_last())
    } else {
        let k = last_slash(p);
        proof {
            lemma_last_slash(p);
        }
        let seg = p.subrange(k + 1, p.len() as int);
        if seg == seq!['.'] {
            if k < 0 {
                None
            } else {
                file_name_spec(p.subrange(0, k))
            }
        } else if seg == seq!['.', '.'] {
            None
        } else {
            Some(seg)
        }
    }
}

/// How the sidebar names a recent project: the last component of its path, or the
/// whole path when it has none.
pub open spec fn recent_label_spec(p: Seq<char>) -> Seq<char> {
    match file_name_spec(p) {
        Some(n) => n,
        None => p,
    }
}

proof fn lemma_last_slash_skip(s: Seq<char>, k: int, end: int)
    requires
        0 <= k <= end <= s.len(),
        forall|j: int| k <= j < end ==> s[j] != '/',
    ensures
        last_slash(s.take(end)) == last_slash(s.take(k)),
    decreases end - k,
{
    if k < end {
        assert(s.take(end).drop_last() =~= s.take(end - 1));
        lemma_last_slash_skip(s, k, end - 1);
    }
}

/// The sidebar's name for the recent project at `path`.
pub fn recent_label(path: &str) -> (r: String)
    ensures
        r@ == recent_label_spec(path@),
{
    let cs = chars_of(path);
    let mut end: usize = cs.len();
    assert(cs@.take(end as int) =~= path@);
    loop
        invariant
            cs@ == path@,
            end <= cs@.len(),
            file_name_spec(path@) == file_name_spec(cs@.take(end as int)),
        decreases end,
    {
        let ghost t = cs@.take(end as int);
        if end == 0 {
            return String::from_str(path);
        }
        if cs[end - 1] == '/' {
            assert(t.drop_last() =~= cs@.take(end - 1));
            end = end - 1;
        } else {
            let mut k: usize = end;
            while k > 0 && cs[k - 1] != '/'
                invariant
                    cs@ == path@,
                    k <= end <= cs@.len(),
                    forall|j: int| k <= j < end ==> cs@[j] != '/',
                decreases k,
            {
                k = k - 1;
            }
            proof {
                lemma_last_slash_skip(cs@, k as int, end as int);
                if k > 0 {
                    assert(cs@.take(k as int).last() == '/');
                    assert(last_slash(cs@.take(k as int)) == k - 1);
                } else {
                    assert(cs@.take(0) =~= Seq::<char>::empty());
                }
                assert(last_slash(t) == k - 1);
            }
            let ghost seg = t.subrange(k as int, end as int);
            assert(seg =~= cs@.subrange(k as int, end as int));
            if end - k == 1 && cs[k] == '.' {
                assert(seg =~= seq!['.']);
                if k == 0 {
                    return String::from_str(path);
                }
                assert(t.subrange(0, k - 1) =~= cs@.take(k - 1));
                end = k - 1;
            } else if end - k == 2 && cs[k] == '.' && cs[k + 1] == '.' {
                assert(seg =~= seq!['.', '.']);
                return String::from_str(path);
            } else {
                assert(seg != seq!['.']) by {
                    if seg.len() == 1 {
                        assert(seg[0] == cs@[k as int]);
                    }
                }
                assert(seg != seq!['.', '.']) by {
                    if seg.len() == 2 {
                        assert(seg[0] == cs@[k as int] && seg[1] == cs@[k + 1]);
                    }
                }
                let mut r = String::new();
                let mut j: usize = k;
                while j < end
                    invariant
                        cs@ == path@,
                        k <= j <= end <= cs@.len(),
                        r@ == cs@.subrange(k as int, j as int),
                    decreases end - j,
                {
                    r.push(cs[j]);
                    j += 1;
                    assert(r@ =~= cs@.subrange(k as int, j as int));
                }
                return r;
            }
        }
    }
}

/// How many recent projects the sidebar shows.
pub const SHOWN_RECENT: usize = 5;

/// The recent projects the sidebar shows, newest first: at most five, each with its name
/// and its path.
pub open spec fn recent_shown_spec(l: Seq<Seq<char>>) -> Seq<(Seq<char>, Seq<char>)> {
    let n = if l.len() < SHOWN_RECENT { l.len() as int } else { SHOWN_RECENT as int };
    Seq::new(n as nat, |i: int| (recent_label_spec(l[l.len() - 1 - i]), l[l.len() - 1 - i]))
}

/// The sidebar's list of recent projects: the newest five, newest first, each as its
/// name and its path.
pub fn recent_shown(list: &Vec<String>) -> (r: Vec<(String, String)>)
    ensures
        r@.len() == recent_shown_spec(string_views(list@)).len(),
        forall|i: int| 0 <= i < r@.len() ==> (#[trigger] r@[i]).0@ == recent_shown_spec(string_views(list@))[i].0
            && r@[i].1@ == recent_shown_spec(string_views(list@))[i].1,
{
    let ghost l = string_views(list@);
    let n = list.len();
    let count = if n < SHOWN_RECENT { n } else { SHOWN_RECENT };
    let mut r: Vec<(String, String)> = Vec::new();
    let mut i: usize = 0;
    while i < count
        invariant
            l == string_views(list@),
            n == list@.len(),
            count <= n,
            count as int == recent_shown_spec(l).len(),
            i <= count,
            r@.len() == i,
            forall|x: int| 0 <= x < i ==> (#[trigger] r@[x]).0@ == recent_shown_spec(l)[x].0
                && r@[x].1@ == recent_shown_spec(l)[x].1,
        decreases count - i,
    {
        let path = list[n - 1 - i].as_str();
        assert(l[n - 1 - i] == path@);
        let entry = (recent_label(path), String::from_str(path));
        r.push(entry);
        i += 1;
    }
    r
}

// ── Tabs ──

pub open spec fn doc_views(v: Seq<DocRef>) -> Seq<DocView> {
    v.map_values(|d: DocRef| d@)
}

/// The tabs other than `d`, in order.
pub open spec fn docs_without(ts: Seq<DocView>, d: DocView) -> Seq<DocView>
    decreases ts.len(),
{
    if ts.len() == 0 {
        Seq::empty()
    } else if ts.last() != d {
        docs_without(ts.drop_last(), d).push(ts.last())
    } else {
        docs_without(ts.drop_last(), d)
    }
}

/// The position of the first tab showing `d`, looking from `i` on; -1 when none.
pub open spec fn doc_index_from(ts: Seq<DocView>, d: DocView, i: int) -> int
    decreases ts.len() - i,
{
    if i < 0 || i >= ts.len() {
        -1
    } else if ts[i] == d {
        i
    } else {
        doc_index_from(ts, d, i + 1)
    }
}

/// The tab to show after closing `d`: none when no tab is left, else the one now at the
/// closed tab's place (the first when `d` was not open), or the last one.
pub open spec fn next_tab(ts: Seq<DocView>, d: DocView) -> Option<int> {
    let left = docs_without(ts, d).len() as int;
    let i = doc_index_from(ts, d, 0);
    let start = if i < 0 { 0 } else { i };
    if left == 0 {
        None
    } else if start < left - 1 {
        Some(start)
    } else {
        Some(left - 1)
    }
}

/// Whether two document references are the same document.
pub fn same_doc(a: &DocRef, b: &DocRef) -> (r: bool)
    ensures
        r == (a@ == b@),
{
    match (a, b) {
        (
            DocRef::Tale { chapter_dir: c1, tale_file: f1, chapter_title: ct1, tale_title: tt1 },
            DocRef::Tale { chapter_dir: c2, tale_file: f2, chapter_title: ct2, tale_title: tt2 },
        ) => str_eq(c1.as_str(), c2.as_str()) && str_eq(f1.as_str(), f2.as_str()) && str_eq(
            ct1.as_str(),
            ct2.as_str(),
        ) && str_eq(tt1.as_str(), tt2.as_str()),
        (DocRef::Material { file_name: f1, title: t1 }, DocRef::Material { file_name: f2, title: t2 }) => str_eq(
            f1.as_str(),
            f2.as_str(),
        ) && str_eq(t1.as_str(), t2.as_str()),
        _ => false,
    }
}

proof fn lemma_docs_without_len(ts: Seq<DocView>, d: DocView)
    ensures
        docs_without(ts, d).len() <= ts.len(),
    decreases ts.len(),
{
    if ts.len() > 0 {
        lemma_docs_without_len(ts.drop_last(), d);
    }
}

/// Closes every tab showing `doc`, and tells which tab to show next.
pub fn close_tab(tabs: &mut Vec<DocRef>, doc: &DocRef) -> (next: Option<usize>)
    ensures
        doc_views(final(tabs)@) == docs_without(doc_views(old(tabs)@), doc@),
        match next {
            Some(n) => next_tab(doc_views(old(tabs)@), doc@) == Some(n as int),
            None => next_tab(doc_views(old(tabs)@), doc@) is None,
        },
{
    let ghost orig = doc_views(old(tabs)@);
    let n = tabs.len();
    let mut idx: Option<usize> = None;
    let mut rest: Vec<DocRef> = Vec::new();
    std::mem::swap(&mut rest, tabs);
    let ghost mut consumed: int = 0;
    let mut pos: usize = 0;
    assert(doc_views(rest@) =~= orig.skip(0));
    assert(orig.take(0) =~= Seq::<DocView>::empty());
    assert(doc_views(tabs@) =~= docs_without(orig.take(0), doc@));
    while rest.len() > 0
        invariant
            0 <= consumed <= orig.len(),
            pos as int == consumed,
            orig.len() == n,
            doc_views(rest@) == orig.skip(consumed),
            doc_views(tabs@) == docs_without(orig.take(consumed), doc@),
            orig == doc_views(old(tabs)@),
            match idx {
                Some(k) => doc_index_from(orig, doc@, 0) == k as int && k < consumed,
                None => doc_index_from(orig, doc@, 0) == doc_index_from(orig, doc@, consumed),
            },
        decreases rest@.len(),
    {
        let ghost rest0 = rest@;
        assert(doc_views(rest0).len() == rest0.len());
        assert(consumed < orig.len());
        assert(doc_views(rest0)[0] == rest0[0]@);
        assert(orig.skip(consumed)[0] == orig[consumed]);
        let e = rest.remove(0);
        assert forall|j: int| 0 <= j < rest@.len() implies #[trigger] doc_views(rest@)[j] == orig.skip(consumed + 1)[j] by {
            assert(rest@[j] == rest0[j + 1]);
            assert(doc_views(rest0)[j + 1] == rest0[j + 1]@);
            assert(orig.skip(consumed)[j + 1] == orig[consumed + 1 + j]);
        }
        assert(doc_views(rest@) =~= orig.skip(consumed + 1));
        assert(orig.take(consumed + 1).drop_last() =~= orig.take(consumed));
        if same_doc(&e, doc) {
            if idx.is_none() {
                idx = Some(pos);
            }
        } else {
            let ghost l0 = tabs@;
            tabs.push(e);
            assert(doc_views(tabs@) =~= doc_views(l0).push(orig[consumed]));
        }
        pos = pos + 1;
        proof {
            consumed = consumed + 1;
        }
    }
    assert(orig.take(consumed) =~= orig);
    proof {
        lemma_docs_without_len(orig, doc@);
    }
    assert(doc_views(tabs@).len() == tabs@.len());
    if tabs.len() == 0 {
        None
    } else {
        let start = match idx {
            Some(k) => k,
            None => 0,
        };
        if start < tabs.len() - 1 {
            Some(start)
        } else {
            Some(tabs.len() - 1)
        }
    }
}

/// A chapter, a tale of a chapter, or a material, as the tabs refer to it.
#[derive(Debug, Clone)]
pub enum DocTarget {
    Chapter(String),
    Tale(String, String),
    Material(String),
}

pub enum DocTargetView {
    Chapter(Seq<char>),
    Tale(Seq<char>, Seq<char>),
    Material(Seq<char>),
}

impl View for DocTarget {
    type V = DocTargetView;

    open spec fn view(&self) -> DocTargetView {
        match self {
            DocTarget::Chapter(d) => DocTargetView::Chapter(d@),
            DocTarget::Tale(d, f) => DocTargetView::Tale(d@, f@),
            DocTarget::Material(f) => DocTargetView::Material(f@),
        }
    }
}

/// Whether a document belongs to the target: a tale of the chapter, the tale itself, or
/// the material.
pub open spec fn belongs_to(d: DocView, t: DocTargetView) -> bool {
    match t {
        DocTargetView::Chapter(dir) => d matches DocView::Tale { chapter_dir, .. } && chapter_dir == dir,
        DocTargetView::Tale(dir, file) => d matches DocView::Tale { chapter_dir, tale_file, .. }
            && chapter_dir == dir && tale_file == file,
        DocTargetView::Material(file) => d matches DocView::Material { file_name, .. } && file_name == file,
    }
}

/// Whether `doc` belongs to `target`.
pub fn doc_belongs_to(doc: &DocRef, target: &DocTarget) -> (r: bool)
    ensures
        r == belongs_to(doc@, target@),
{
    match (doc, target) {
        (DocRef::Tale { chapter_dir, .. }, DocTarget::Chapter(dir)) => str_eq(chapter_dir.as_str(), dir.as_str()),
        (DocRef::Tale { chapter_dir, tale_file, .. }, DocTarget::Tale(dir, file)) => str_eq(
            chapter_dir.as_str(),
            dir.as_str(),
        ) && str_eq(tale_file.as_str(), file.as_str()),
        (DocRef::Material { file_name, .. }, DocTarget::Material(file)) => str_eq(file_name.as_str(), file.as_str()),
        _ => false,
    }
}

/// The tabs that do not belong to `t`, in order.
pub open spec fn tabs_outside(ts: Seq<DocView>, t: DocTargetView) -> Seq<DocView>
    decreases ts.len(),
{
    if ts.len() == 0 {
        Seq::empty()
    } else if !belongs_to(ts.last(), t) {
        tabs_outside(ts.drop_last(), t).push(ts.last())
    } else {
        tabs_outside(ts.drop_last(), t)
    }
}

/// Closes the tabs of a deleted chapter, tale or material.
pub fn close_tabs_of(tabs: &mut Vec<DocRef>, target: &DocTarget)
    ensures
        doc_views(final(tabs)@) == tabs_outside(doc_views(old(tabs)@), target@),
{
    let ghost orig = doc_views(old(tabs)@);
    let mut rest: Vec<DocRef> = Vec::new();
    std::mem::swap(&mut rest, tabs);
    let ghost mut consumed: int = 0;
    assert(doc_views(rest@) =~= orig.skip(0));
    assert(orig.take(0) =~= Seq::<DocView>::empty());
    assert(doc_views(tabs@) =~= tabs_outside(orig.take(0), target@));
    while rest.len() > 0
        invariant
            0 <= consumed <= orig.len(),
            doc_views(rest@) == orig.skip(consumed),
            doc_views(tabs@) == tabs_outside(orig.take(consumed), target@),
        decreases rest@.len(),
    {
        let ghost rest0 = rest@;
        assert(doc_views(rest0).len() == rest0.len());
        assert(consumed < orig.len());
        assert(doc_views(rest0)[0] == rest0[0]@);
        assert(orig.skip(consumed)[0] == orig[consumed]);
        let e = rest.remove(0);
        assert forall|j: int| 0 <= j < rest@.len() implies #[trigger] doc_views(rest@)[j] == orig.skip(consumed + 1)[j] by {
            assert(rest@[j] == rest0[j + 1]);
            assert(doc_views(rest0)[j + 1] == rest0[j + 1]@);
            assert(orig.skip(consumed)[j + 1] == orig[consumed + 1 + j]);
        }
        assert(doc_views(rest@) =~= orig.skip(consumed + 1));
        assert(orig.take(consumed + 1).drop_last() =~= orig.take(consumed));
        if !doc_belongs_to(&e, target) {
            let ghost l0 = tabs@;
            tabs.push(e);
            assert(doc_views(tabs@) =~= doc_views(l0).push(orig[consumed]));
        }
        proof {
            consumed = consumed + 1;
        }
    }
    assert(orig.take(consumed) =~= orig);
}

/// A tab after its chapter was renamed: a tale of chapter `old_dir` moves to `new_dir`
/// and shows the new chapter title; other documents stay as they are.
pub open spec fn retarget_chapter_view(d: DocView, old_dir: Seq<char>, new_dir: Seq<char>, new_title: Seq<char>) -> DocView {
    match d {
        DocView::Tale { chapter_dir, tale_file, chapter_title, tale_title } => if chapter_dir == old_dir {
            DocView::Tale { chapter_dir: new_dir, tale_file, chapter_title: new_title, tale_title }
        } else {
            d
        },
        _ => d,
    }
}

/// A document after its chapter was renamed.
pub fn retarget_chapter_doc(doc: DocRef, old_dir: &str, new_dir: &str, new_title: &str) -> (r: DocRef)
    ensures
        r@ == retarget_chapter_view(doc@, old_dir@, new_dir@, new_title@),
{
    match doc {
        DocRef::Tale { chapter_dir, tale_file, chapter_title, tale_title } => {
            if str_eq(chapter_dir.as_str(), old_dir) {
                DocRef::Tale {
                    chapter_dir: String::from_str(new_dir),
                    tale_file,
                    chapter_title: String::from_str(new_title),
                    tale_title,
                }
            } else {
                DocRef::Tale { chapter_dir, tale_file, chapter_title, tale_title }
            }
        },
        other => other,
    }
}

/// Moves the open tales of a renamed chapter to its new directory and title.
pub fn retarget_chapter_tabs(tabs: &mut Vec<DocRef>, old_dir: &str, new_dir: &str, new_title: &str)
    ensures
        doc_views(final(tabs)@) == doc_views(old(tabs)@).map_values(
            |d: DocView| retarget_chapter_view(d, old_dir@, new_dir@, new_title@),
        ),
{
    let ghost orig = doc_views(old(tabs)@);
    let ghost f = |d: DocView| retarget_chapter_view(d, old_dir@, new_dir@, new_title@);
    let mut rest: Vec<DocRef> = Vec::new();
    std::mem::swap(&mut rest, tabs);
    let ghost mut consumed: int = 0;
    assert(doc_views(rest@) =~= orig.skip(0));
    assert(doc_views(tabs@) =~= orig.take(0).map_values(f));
    while rest.len() > 0
        invariant
            0 <= consumed <= orig.len(),
            doc_views(rest@) == orig.skip(consumed),
            doc_views(tabs@) == orig.take(consumed).map_values(f),
            f == (|d: DocView| retarget_chapter_view(d, old_dir@, new_dir@, new_title@)),
        decreases rest@.len(),
    {
        let ghost rest0 = rest@;
        assert(doc_views(rest0).len() == rest0.len());
        assert(consumed < orig.len());
        assert(doc_views(rest0)[0] == rest0[0]@);
        assert(orig.skip(consumed)[0] == orig[consumed]);
        let e = rest.remove(0);
        assert forall|j: int| 0 <= j < rest@.len() implies #[trigger] doc_views(rest@)[j] == orig.skip(consumed + 1)[j] by {
            assert(rest@[j] == rest0[j + 1]);
            assert(doc_views(rest0)[j + 1] == rest0[j + 1]@);
            assert(orig.skip(consumed)[j + 1] == orig[consumed + 1 + j]);
        }
        assert(doc_views(rest@) =~= orig.skip(consumed + 1));
        let ghost l0 = tabs@;
        let moved = retarget_chapter_doc(e, old_dir, new_dir, new_title);
        tabs.push(moved);
        assert(doc_views(tabs@) =~= doc_views(l0).push(f(orig[consumed])));
        assert(orig.take(consumed + 1).map_values(f) =~= orig.take(consumed).map_values(f).push(f(orig[consumed])));
        proof {
            consumed = consumed + 1;
        }
    }
    assert(orig.take(consumed) =~= orig);
}

/// The position of the first tab that belongs to `t`, looking from `i` on; -1 when none.
pub open spec fn target_index_from(ts: Seq<DocView>, t: DocTargetView, i: int) -> int
    decreases ts.len() - i,
{
    if i < 0 || i >= ts.len() {
        -1
    } else if belongs_to(ts[i], t) {
        i
    } else {
        target_index_from(ts, t, i + 1)
    }
}

/// Replaces the first tab that belongs to `target` (a renamed tale or material) by
/// `new_doc`; the other tabs stay.  Gives the position replaced, if any.
pub fn replace_first_tab(tabs: &mut Vec<DocRef>, target: &DocTarget, new_doc: DocRef) -> (r: Option<usize>)
    ensures
        r is None <==> target_index_from(doc_views(old(tabs)@), target@, 0) < 0,
        r matches Some(i) ==> i as int == target_index_from(doc_views(old(tabs)@), target@, 0),
        target_index_from(doc_views(old(tabs)@), target@, 0) < 0 ==> doc_views(final(tabs)@) == doc_views(
            old(tabs)@,
        ),
        target_index_from(doc_views(old(tabs)@), target@, 0) >= 0 ==> doc_views(final(tabs)@) == doc_views(
            old(tabs)@,
        ).update(target_index_from(doc_views(old(tabs)@), target@, 0), new_doc@),
{
    let ghost orig = doc_views(tabs@);
    let mut i: usize = 0;
    while i < tabs.len()
        invariant
            i <= tabs@.len(),
            *tabs == *old(tabs),
            orig == doc_views(tabs@),
            target_index_from(orig, target@, 0) == target_index_from(orig, target@, i as int),
        decreases tabs@.len() - i,
    {
        assert(orig[i as int] == tabs@[i as int]@);
        if doc_belongs_to(&tabs[i], target) {
            assert(target_index_from(orig, target@, i as int) == i as int);
            let ghost t0 = tabs@;
            tabs.set(i, new_doc);
            assert(doc_views(tabs@) =~= orig.update(i as int, new_doc@));
            return Some(i);
        }
        i += 1;
    }
    None
}

/// A copy of a document reference.
pub fn copy_doc(d: &DocRef) -> (r: DocRef)
    ensures
        r@ == d@,
{
    match d {
        DocRef::Tale { chapter_dir, tale_file, chapter_title, tale_title } => DocRef::Tale {
            chapter_dir: String::from_str(chapter_dir.as_str()),
            tale_file: String::from_str(tale_file.as_str()),
            chapter_title: String::from_str(chapter_title.as_str()),
            tale_title: String::from_str(tale_title.as_str()),
        },
        DocRef::Material { file_name, title } => DocRef::Material {
            file_name: String::from_str(file_name.as_str()),
            title: String::from_str(title.as_str()),
        },
    }
}

/// Whether one of `docs` is `doc`: an open tab, or a tab with unsaved changes, whose
/// closing then asks for confirmation.
pub fn doc_listed(docs: &Vec<DocRef>, doc: &DocRef) -> (r: bool)
    ensures
        r == doc_views(docs@).contains(doc@),
{
    let mut i: usize = 0;
    while i < docs.len()
        invariant
            i <= docs@.len(),
            forall|j: int| 0 <= j < i ==> doc_views(docs@)[j] != doc@,
        decreases docs@.len() - i,
    {
        if same_doc(&docs[i], doc) {
            assert(doc_views(docs@)[i as int] == doc@);
            return true;
        }
        i += 1;
    }
    false
}

// ── Deleting and renaming what is open ──

/// Whether the active document is one of the tabs that a deletion of `t` closes.
pub open spec fn active_closed(ts: Seq<DocView>, active: Option<DocView>, t: DocTargetView) -> bool {
    active matches Some(a) && belongs_to(a, t) && ts.contains(a)
}

/// After `t` is deleted: its tabs close, and so do its cached texts (`keys` are the
/// documents whose text is cached).  When no tab is left nothing is active; when the
/// active document was closed the first tab left becomes active; otherwise the active
/// document stays.  The result says whether the active document changed (the editor
/// then shows the new one's text, or is emptied).
pub fn close_deleted(
    tabs: &mut Vec<DocRef>,
    active: &mut Option<DocRef>,
    keys: &mut Vec<DocRef>,
    target: &DocTarget,
) -> (changed: bool)
    ensures
        doc_views(final(tabs)@) == tabs_outside(doc_views(old(tabs)@), target@),
        doc_views(final(keys)@) == tabs_outside(doc_views(old(keys)@), target@),
        changed == (final(tabs)@.len() == 0 || active_closed(
            doc_views(old(tabs)@),
            opt_doc_view(*old(active)),
            target@,
        )),
        final(tabs)@.len() == 0 ==> *final(active) is None,
        final(tabs)@.len() > 0 && active_closed(doc_views(old(tabs)@), opt_doc_view(*old(active)), target@)
            ==> opt_doc_view(*final(active)) == Some(doc_views(final(tabs)@)[0]),
        final(tabs)@.len() > 0 && !active_closed(doc_views(old(tabs)@), opt_doc_view(*old(active)), target@)
            ==> opt_doc_view(*final(active)) == opt_doc_view(*old(active)),
{
    let was_active = match active {
        Some(a) => doc_belongs_to(a, target) && doc_listed(tabs, a),
        None => false,
    };
    close_tabs_of(tabs, target);
    close_tabs_of(keys, target);
    if tabs.len() == 0 {
        *active = None;
        true
    } else if was_active {
        let first = copy_doc(&tabs[0]);
        assert(doc_views(tabs@)[0] == tabs@[0]@);
        *active = Some(first);
        true
    } else {
        false
    }
}

/// The document of a material after its rename: the new file and the new title.
pub open spec fn renamed_material_view(new_file: Seq<char>, new_title: Seq<char>) -> DocView {
    DocView::Material { file_name: new_file, title: new_title }
}

/// After the material in `old_file` was renamed to `new_file` with the title `new_title`:
/// the first tab of that material and the first cached text of it now refer to the new
/// document, and so does the active document when it is that material.  Gives the
/// position in `keys` that was changed, so that its text can move with it.
pub fn retarget_material(
    tabs: &mut Vec<DocRef>,
    active: &mut Option<DocRef>,
    keys: &mut Vec<DocRef>,
    old_file: &str,
    new_file: &str,
    new_title: &str,
) -> (moved: Option<usize>)
    ensures
        ({
            let t = DocTargetView::Material(old_file@);
            let k = target_index_from(doc_views(old(tabs)@), t, 0);
            doc_views(final(tabs)@) == if k < 0 {
                doc_views(old(tabs)@)
            } else {
                doc_views(old(tabs)@).update(k, renamed_material_view(new_file@, new_title@))
            }
        }),
        ({
            let t = DocTargetView::Material(old_file@);
            let k = target_index_from(doc_views(old(keys)@), t, 0);
            &&& doc_views(final(keys)@) == if k < 0 {
                doc_views(old(keys)@)
            } else {
                doc_views(old(keys)@).update(k, renamed_material_view(new_file@, new_title@))
            }
            &&& moved is None <==> k < 0
            &&& moved matches Some(i) ==> i as int == k
        }),
        opt_doc_view(*final(active)) == match opt_doc_view(*old(active)) {
            Some(a) => if belongs_to(a, DocTargetView::Material(old_file@)) {
                Some(renamed_material_view(new_file@, new_title@))
            } else {
                Some(a)
            },
            None => None,
        },
{
    let target = DocTarget::Material(String::from_str(old_file));
    let doc = DocRef::Material { file_name: String::from_str(new_file), title: String::from_str(new_title) };
    replace_first_tab(tabs, &target, doc);
    let doc = DocRef::Material { file_name: String::from_str(new_file), title: String::from_str(new_title) };
    let moved = replace_first_tab(keys, &target, doc);
    let now_active = match active {
        Some(a) => doc_belongs_to(a, &target),
        None => false,
    };
    if now_active {
        *active = Some(DocRef::Material { file_name: String::from_str(new_file), title: String::from_str(new_title) });
    }
    moved
}

/// The editor's placeholder: an invitation to write the open tale or fill in the open
/// material, or to choose one.
pub open spec fn placeholder_spec(active: Option<DocView>) -> Seq<char> {
    match active {
        Some(DocView::Tale { tale_title, .. }) => "「"@ + tale_title + "」を書き始めましょう..."@,
        Some(DocView::Material { title, .. }) => "「"@ + title + "」の内容を入力..."@,
        None => "章・話を選択してください"@,
    }
}

/// The editor's placeholder for the open document.
pub fn editor_placeholder(active: &Option<DocRef>) -> (r: String)
    ensures
        r@ == placeholder_spec(opt_doc_view(*active)),
{
    match active {
        Some(DocRef::Tale { tale_title, .. }) => {
            let mut r = String::from_str("「");
            r.append(tale_title.as_str());
            r.append("」を書き始めましょう...");
            r
        },
        Some(DocRef::Material { title, .. }) => {
            let mut r = String::from_str("「");
            r.append(title.as_str());
            r.append("」の内容を入力...");
            r
        },
        None => String::from_str("章・話を選択してください"),
    }
}

/// After a tab is closed, no tab shows its document, and the tab to show next is one
/// of those left.
pub proof fn closed_tab_is_gone(ts: Seq<DocView>, d: DocView)
    ensures
        forall|i: int| 0 <= i < docs_without(ts, d).len() ==> #[trigger] docs_without(ts, d)[i] != d,
        next_tab(ts, d) matches Some(n) ==> 0 <= n < docs_without(ts, d).len(),
        next_tab(ts, d) is None <==> docs_without(ts, d).len() == 0,
    decreases ts.len(),
{
    if ts.len() > 0 {
        closed_tab_is_gone(ts.drop_last(), d);
        let w = docs_without(ts.drop_last(), d);
        if ts.last() != d {
            assert forall|i: int| 0 <= i < w.push(ts.last()).len() implies #[trigger] w.push(ts.last())[i] != d by {
                if i < w.len() {
                    assert(w.push(ts.last())[i] == w[i]);
                }
            }
        }
    }
    lemma_doc_index_range(ts, d, 0);
}

proof fn lemma_doc_index_range(ts: Seq<DocView>, d: DocView, i: int)
    requires
        0 <= i <= ts.len(),
    ensures
        doc_index_from(ts, d, i) == -1 || i <= doc_index_from(ts, d, i) < ts.len(),
    decreases ts.len() - i,
{
    if i < ts.len() {
        lemma_doc_index_range(ts, d, i + 1);
    }
}

/// After the tabs of a deleted chapter, tale or material are closed, none of its
/// documents is left open.
pub proof fn closed_target_tabs_are_gone(ts: Seq<DocView>, t: DocTargetView)
    ensures
        forall|i: int| 0 <= i < tabs_outside(ts, t).len() ==> !belongs_to(#[trigger] tabs_outside(ts, t)[i], t),
    decreases ts.len(),
{
    if ts.len() > 0 {
        closed_target_tabs_are_gone(ts.drop_last(), t);
        let w = tabs_outside(ts.drop_last(), t);
        if !belongs_to(ts.last(), t) {
            assert forall|i: int| 0 <= i < w.push(ts.last()).len() implies !belongs_to(#[trigger] w.push(ts.last())[i], t) by {
                if i < w.len() {
                    assert(w.push(ts.last())[i] == w[i]);
                }
            }
        }
    }
}

// ── Opening documents ──

/// Opens `doc` in a tab: it is appended when no tab shows it yet, and the result says
/// whether it was (so that its text must be loaded); an open document keeps its tab.
pub fn open_tab(tabs: &mut Vec<DocRef>, doc: DocRef) -> (opened: bool)
    ensures
        opened == !doc_views(old(tabs)@).contains(doc@),
        doc_views(final(tabs)@) == if opened {
            doc_views(old(tabs)@).push(doc@)
        } else {
            doc_views(old(tabs)@)
        },
{
    let mut i: usize = 0;
    while i < tabs.len()
        invariant
            i <= tabs@.len(),
            *tabs == *old(tabs),
            forall|j: int| 0 <= j < i ==> doc_views(tabs@)[j] != doc@,
        decreases tabs@.len() - i,
    {
        if same_doc(&tabs[i], &doc) {
            assert(doc_views(tabs@)[i as int] == doc@);
            return false;
        }
        i += 1;
    }
    let ghost before = doc_views(tabs@);
    tabs.push(doc);
    assert(doc_views(tabs@) =~= before.push(doc@));
    true
}

// ── Auto-save ──

/// The auto-save state: the text last seen, and the number of the latest scheduled save.
pub struct AutoSave {
    pub last_text: String,
    pub generation: u64,
}

impl AutoSave {
    /// Nothing seen and nothing scheduled yet.
    pub fn new() -> (a: Self)
        ensures
            a.last_text@ == Seq::<char>::empty(),
            a.generation == 0,
    {
        AutoSave { last_text: String::new(), generation: 0 }
    }

    /// The text of the open document is now `current` (empty when none is open).  When
    /// auto-save is on and the text differs from the last one seen, a new save is
    /// scheduled: the text is remembered, the generation advances, and the save's number
    /// and document (the one open now) are given back; without an open document nothing
    /// is written, though the state still advances.  Otherwise nothing changes.
    pub fn on_change(&mut self, active: Option<DocRef>, current: &str, enabled: bool) -> (r: Option<(u64, DocRef)>)
        requires
            old(self).generation < u64::MAX,
        ensures
            ({
                let changed = enabled && current@ != old(self).last_text@;
                &&& changed ==> final(self).last_text@ == current@ && final(self).generation == old(self).generation + 1
                &&& !changed ==> final(self).last_text@ == old(self).last_text@ && final(self).generation == old(self).generation
                &&& match r {
                    Some((g, d)) => changed && active is Some && g == old(self).generation + 1 && d@ == active->0@,
                    None => !changed || active is None,
                }
            }),
    {
        if !enabled || str_eq(current, self.last_text.as_str()) {
            return None;
        }
        self.last_text = String::from_str(current);
        self.generation = self.generation + 1;
        match active {
            Some(d) => Some((self.generation, d)),
            None => None,
        }
    }

    /// Whether the save numbered `ticket` is still the latest when its delay is over;
    /// a later change supersedes it.
    pub fn is_latest(&self, ticket: u64) -> (r: bool)
        ensures
            r == (ticket == self.generation),
    {
        ticket == self.generation
    }
}

// ── Laws of the totals and of closing tabs ──

/// A tale counts in the total unless it is the open tale itself: a tale of another
/// chapter counts as if nothing were open, even when its file has the open tale's name.
pub proof fn only_the_open_tale_is_left_out(c: ChapterView, j: int, d: DocView, l: Option<usize>)
    requires
        0 <= j < c.tales.len(),
    ensures
        (d matches DocView::Tale { chapter_dir, tale_file, .. } && chapter_dir == c.dir_name && tale_file
            == c.tales[j].file_name) ==> tale_contribution(c, j, Some(d), l) == 0,
        !(d matches DocView::Tale { chapter_dir, tale_file, .. } && chapter_dir == c.dir_name && tale_file
            == c.tales[j].file_name) ==> tale_contribution(c, j, Some(d), l) == tale_contribution(
            c,
            j,
            None,
            l,
        ),
{
}

proof fn lemma_chapter_total_other(c: ChapterView, k: int, d: DocView, l: Seq<Option<usize>>)
    requires
        0 <= k <= c.tales.len(),
        d matches DocView::Tale { chapter_dir, .. } ==> chapter_dir != c.dir_name,
    ensures
        chapter_total(c, k, Some(d), l) == chapter_total(c, k, None, l),
    decreases k,
{
    if k > 0 {
        lemma_chapter_total_other(c, k - 1, d, l);
        only_the_open_tale_is_left_out(c, k - 1, d, l[k - 1]);
    }
}

/// The open document lowers the total only through its own chapter: with a material
/// open, or a tale of a chapter none of these chapters has, the total is the total with
/// nothing open.
pub proof fn the_open_document_counts_only_in_its_chapter(
    cs: Seq<ChapterView>,
    k: int,
    d: DocView,
    loaded: Seq<Seq<Option<usize>>>,
)
    requires
        0 <= k <= cs.len(),
        forall|i: int| 0 <= i < cs.len() ==> (d matches DocView::Tale { chapter_dir, .. } ==> chapter_dir
            != #[trigger] cs[i].dir_name),
    ensures
        project_total(cs, k, Some(d), loaded) == project_total(cs, k, None, loaded),
    decreases k,
{
    if k > 0 {
        the_open_document_counts_only_in_its_chapter(cs, k - 1, d, loaded);
        let c = cs[k - 1];
        assert(d matches DocView::Tale { chapter_dir, .. } ==> chapter_dir != c.dir_name);
        lemma_chapter_total_other(c, c.tales.len() as int, d, loaded[k - 1]);
    }
}

proof fn lemma_docs_without_absent(ts: Seq<DocView>, d: DocView)
    requires
        forall|j: int| 0 <= j < ts.len() ==> ts[j] != d,
    ensures
        docs_without(ts, d) == ts,
    decreases ts.len(),
{
    if ts.len() > 0 {
        lemma_docs_without_absent(ts.drop_last(), d);
        assert(ts.drop_last().push(ts.last()) =~= ts);
    }
}

proof fn lemma_docs_without_once(ts: Seq<DocView>, i: int)
    requires
        0 <= i < ts.len(),
        forall|j: int| 0 <= j < ts.len() && j != i ==> ts[j] != ts[i],
    ensures
        docs_without(ts, ts[i]) == ts.remove(i),
    decreases ts.len(),
{
    let d = ts[i];
    if i == ts.len() - 1 {
        lemma_docs_without_absent(ts.drop_last(), d);
        assert(ts.drop_last() =~= ts.remove(i));
    } else {
        let u = ts.drop_last();
        assert(u[i] == d);
        lemma_docs_without_once(u, i);
        assert(u.remove(i).push(ts.last()) =~= ts.remove(i));
    }
}

proof fn lemma_doc_index_at(ts: Seq<DocView>, i: int, j: int)
    requires
        0 <= j <= i < ts.len(),
        forall|x: int| 0 <= x < ts.len() && x != i ==> ts[x] != ts[i],
    ensures
        doc_index_from(ts, ts[i], j) == i,
    decreases i - j,
{
    if j < i {
        lemma_doc_index_at(ts, i, j + 1);
    }
}

/// Closing a tab shows its neighbour: the tab that followed it, which takes its place,
/// or the tab before it when it was the last one.
pub proof fn closing_a_tab_shows_its_neighbour(ts: Seq<DocView>, i: int)
    requires
        0 <= i < ts.len(),
        ts.len() >= 2,
        forall|j: int| 0 <= j < ts.len() && j != i ==> ts[j] != ts[i],
    ensures
        i < ts.len() - 1 ==> next_tab(ts, ts[i]) == Some(i) && docs_without(ts, ts[i])[i] == ts[i + 1],
        i == ts.len() - 1 ==> next_tab(ts, ts[i]) == Some(i - 1) && docs_without(ts, ts[i])[i - 1] == ts[i
            - 1],
{
    lemma_docs_without_once(ts, i);
    lemma_doc_index_at(ts, i, 0);
    assert(ts.remove(i).len() == ts.len() - 1);
    if i < ts.len() - 1 {
        assert(ts.remove(i)[i] == ts[i + 1]);
    } else {
        assert(ts.remove(i)[i - 1] == ts[i - 1]);
    }
}

} // verus!
