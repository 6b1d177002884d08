//! What the naming and removal rules promise of every input.

use vstd::prelude::*;
use crate::model::project::{
    chapters_without, keep_name_chars, lemma_chapters_without_len, material_name_taken,
    materials_without, name_char_kept, name_stem, renumber_chapters, renumber_materials,
    renumber_tales, sanitize_spec, tales_without, trim_end_ws, trim_start_ws, ChapterView,
    MaterialView, TaleView,
};
use crate::text::is_white_space;

verus! {

proof fn lemma_keep_shape(s: Seq<char>)
    ensures
        keep_name_chars(s).len() <= s.len(),
        forall|i: int| 0 <= i < keep_name_chars(s).len() ==> name_char_kept(#[trigger] keep_name_chars(s)[i]),
    decreases s.len(),
{
    if s.len() > 0 {
        lemma_keep_shape(s.drop_last());
    }
}

proof fn lemma_keep_identity(s: Seq<char>)
    requires
        forall|i: int| 0 <= i < s.len() ==> name_char_kept(#[trigger] s[i]),
    ensures
        keep_name_chars(s) == s,
    decreases s.len(),
{
    if s.len() > 0 {
        lemma_keep_identity(s.drop_last());
        assert(s.drop_last().push(s.last()) =~= s);
    }
}

proof fn lemma_trim_start_shape(s: Seq<char>)
    ensures
        trim_start_ws(s).len() <= s.len(),
        forall|i: int| 0 <= i < trim_start_ws(s).len() ==> #[trigger] trim_start_ws(s)[i] == s[i + (s.len()
            - trim_start_ws(s).len())],
        trim_start_ws(s).len() > 0 ==> !is_white_space(trim_start_ws(s)[0]),
    decreases s.len(),
{
    if s.len() > 0 && is_white_space(s[0]) {
        lemma_trim_start_shape(s.drop_first());
    }
}

proof fn lemma_trim_end_shape(s: Seq<char>)
    ensures
        trim_end_ws(s).len() <= s.len(),
        forall|i: int| 0 <= i < trim_end_ws(s).len() ==> #[trigger] trim_end_ws(s)[i] == s[i],
        trim_end_ws(s).len() > 0 ==> !is_white_space(trim_end_ws(s).last()),
    decreases s.len(),
{
    if s.len() > 0 && is_white_space(s.last()) {
        lemma_trim_end_shape(s.drop_last());
    }
}

/// A sanitized name is at most `max` characters long, holds only alphanumerics, spaces,
/// `-` and `_`, and neither starts nor ends with white space.
pub proof fn sanitized_name_shape(s: Seq<char>, max: nat)
    ensures
        sanitize_spec(s, max).len() <= max,
        forall|i: int| 0 <= i < sanitize_spec(s, max).len() ==> name_char_kept(#[trigger] sanitize_spec(s, max)[i]),
        sanitize_spec(s, max).len() > 0 ==> !is_white_space(sanitize_spec(s, max)[0])
            && !is_white_space(sanitize_spec(s, max).last()),
{
    let taken = if max < s.len() { s.take(max as int) } else { s };
    let k = keep_name_chars(taken);
    let t = trim_start_ws(k);
    let r = trim_end_ws(t);
    lemma_keep_shape(taken);
    lemma_trim_start_shape(k);
    lemma_trim_end_shape(t);
    assert forall|i: int| 0 <= i < r.len() implies name_char_kept(#[trigger] r[i]) by {
        assert(r[i] == t[i]);
        assert(t[i] == k[i + (k.len() - t.len())]);
    }
    if r.len() > 0 {
        assert(r[0] == t[0]);
    }
}

/// Sanitizing a sanitized name changes nothing.
pub proof fn sanitize_is_idempotent(s: Seq<char>, max: nat)
    ensures
        sanitize_spec(sanitize_spec(s, max), max) == sanitize_spec(s, max),
{
    let r = sanitize_spec(s, max);
    sanitized_name_shape(s, max);
    lemma_keep_identity(r);
    assert(trim_start_ws(r) == r);
    assert(trim_end_ws(r) == r);
}

/// A chapter, tale or material name stem is never empty.
pub proof fn name_stem_is_never_empty(title: Seq<char>, max: nat)
    ensures
        name_stem(title, max).len() > 0,
{
    reveal_strlit("無題");
}

/// After removing the chapters of a directory, none of that directory is left, the
/// others keep their order, and the order fields count from zero.
pub proof fn removed_chapters_are_gone(cs: Seq<ChapterView>, d: Seq<char>)
    requires
        cs.len() <= usize::MAX,
    ensures
        forall|i: int| 0 <= i < renumber_chapters(chapters_without(cs, d)).len() ==> {
            &&& #[trigger] renumber_chapters(chapters_without(cs, d))[i].dir_name != d
            &&& renumber_chapters(chapters_without(cs, d))[i].order == i
        },
        (forall|i: int| 0 <= i < cs.len() ==> #[trigger] cs[i].dir_name != d) ==> chapters_without(cs, d) == cs,
    decreases cs.len(),
{
    lemma_without_excludes(cs, d);
    lemma_chapters_without_len(cs, d);
    let w = chapters_without(cs, d);
    assert forall|i: int| 0 <= i < renumber_chapters(w).len() implies {
        &&& #[trigger] renumber_chapters(w)[i].dir_name != d
        &&& renumber_chapters(w)[i].order == i
    } by {
        assert(renumber_chapters(w)[i] == ChapterView { order: i as usize, ..w[i] });
        assert(w[i].dir_name != d);
    }
    if cs.len() > 0 && (forall|i: int| 0 <= i < cs.len() ==> #[trigger] cs[i].dir_name != d) {
        removed_chapters_are_gone(cs.drop_last(), d);
        assert(cs.last().dir_name != d);
        assert(forall|i: int| 0 <= i < cs.drop_last().len() ==> #[trigger] cs.drop_last()[i].dir_name != d);
        assert(cs.drop_last().push(cs.last()) =~= cs);
    }
}

proof fn lemma_without_excludes(cs: Seq<ChapterView>, d: Seq<char>)
    ensures
        forall|i: int| 0 <= i < chapters_without(cs, d).len() ==> #[trigger] chapters_without(cs, d)[i].dir_name != d,
    decreases cs.len(),
{
    if cs.len() > 0 {
        lemma_without_excludes(cs.drop_last(), d);
        let w = chapters_without(cs.drop_last(), d);
        if cs.last().dir_name != d {
            assert forall|i: int| 0 <= i < w.push(cs.last()).len() implies #[trigger] w.push(cs.last())[i].dir_name != d by {
                if i < w.len() {
                    assert(w.push(cs.last())[i] == w[i]);
                }
            }
        }
    }
}

proof fn lemma_chapters_without_absent(cs: Seq<ChapterView>, d: Seq<char>)
    requires
        forall|i: int| 0 <= i < cs.len() ==> #[trigger] cs[i].dir_name != d,
    ensures
        chapters_without(cs, d) == cs,
    decreases cs.len(),
{
    if cs.len() > 0 {
        assert(forall|i: int| 0 <= i < cs.drop_last().len() ==> #[trigger] cs.drop_last()[i].dir_name != d);
        lemma_chapters_without_absent(cs.drop_last(), d);
        assert(cs[cs.len() - 1].dir_name != d);
        assert(cs.drop_last().push(cs.last()) =~= cs);
    }
}

proof fn lemma_tales_without_absent(ts: Seq<TaleView>, f: Seq<char>)
    requires
        forall|i: int| 0 <= i < ts.len() ==> #[trigger] ts[i].file_name != f,
    ensures
        tales_without(ts, f) == ts,
    decreases ts.len(),
{
    if ts.len() > 0 {
        assert(forall|i: int| 0 <= i < ts.drop_last().len() ==> #[trigger] ts.drop_last()[i].file_name != f);
        lemma_tales_without_absent(ts.drop_last(), f);
        assert(ts[ts.len() - 1].file_name != f);
        assert(ts.drop_last().push(ts.last()) =~= ts);
    }
}

proof fn lemma_materials_without_absent(ms: Seq<MaterialView>, f: Seq<char>)
    requires
        forall|i: int| 0 <= i < ms.len() ==> #[trigger] ms[i].file_name != f,
    ensures
        materials_without(ms, f) == ms,
    decreases ms.len(),
{
    if ms.len() > 0 {
        assert(forall|i: int| 0 <= i < ms.drop_last().len() ==> #[trigger] ms.drop_last()[i].file_name != f);
        lemma_materials_without_absent(ms.drop_last(), f);
        assert(ms[ms.len() - 1].file_name != f);
        assert(ms.drop_last().push(ms.last()) =~= ms);
    }
}

/// Removing the chapter just added gives back the chapters there were, when their
/// order fields counted from zero and none had the new chapter's directory.
pub proof fn removing_added_chapter_restores_chapters(cs: Seq<ChapterView>, v: ChapterView)
    requires
        forall|i: int| 0 <= i < cs.len() ==> #[trigger] cs[i].order == i,
        forall|i: int| 0 <= i < cs.len() ==> #[trigger] cs[i].dir_name != v.dir_name,
    ensures
        renumber_chapters(chapters_without(cs.push(v), v.dir_name)) == cs,
{
    assert(cs.push(v).drop_last() =~= cs);
    lemma_chapters_without_absent(cs, v.dir_name);
    assert forall|i: int| 0 <= i < cs.len() implies #[trigger] renumber_chapters(cs)[i] == cs[i] by {
        assert(renumber_chapters(cs)[i] == ChapterView { order: i as usize, ..cs[i] });
        assert((cs[i].order as int) == i);
    }
    assert(renumber_chapters(cs) =~= cs);
}

/// Removing the tale just added gives back the tales there were, when their order
/// fields counted from zero and none had the new tale's file name.
pub proof fn removing_added_tale_restores_tales(ts: Seq<TaleView>, v: TaleView)
    requires
        forall|i: int| 0 <= i < ts.len() ==> #[trigger] ts[i].order == i,
        forall|i: int| 0 <= i < ts.len() ==> #[trigger] ts[i].file_name != v.file_name,
    ensures
        renumber_tales(tales_without(ts.push(v), v.file_name)) == ts,
{
    assert(ts.push(v).drop_last() =~= ts);
    lemma_tales_without_absent(ts, v.file_name);
    assert forall|i: int| 0 <= i < ts.len() implies #[trigger] renumber_tales(ts)[i] == ts[i] by {
        assert(renumber_tales(ts)[i] == TaleView { order: i as usize, ..ts[i] });
        assert((ts[i].order as int) == i);
    }
    assert(renumber_tales(ts) =~= ts);
}

/// Removing the material just added gives back the materials there were, when their
/// order fields counted from zero: an added material always gets a file name that no
/// material had.
pub proof fn removing_added_material_restores_materials(ms: Seq<MaterialView>, v: MaterialView)
    requires
        forall|i: int| 0 <= i < ms.len() ==> #[trigger] ms[i].order == i,
        !material_name_taken(ms, v.file_name),
    ensures
        renumber_materials(materials_without(ms.push(v), v.file_name)) == ms,
{
    assert(ms.push(v).drop_last() =~= ms);
    assert forall|i: int| 0 <= i < ms.len() implies #[trigger] ms[i].file_name != v.file_name by {
        if ms[i].file_name == v.file_name {
            assert(material_name_taken(ms, v.file_name));
        }
    }
    lemma_materials_without_absent(ms, v.file_name);
    assert forall|i: int| 0 <= i < ms.len() implies #[trigger] renumber_materials(ms)[i] == ms[i] by {
        assert(renumber_materials(ms)[i] == MaterialView { order: i as usize, ..ms[i] });
        assert((ms[i].order as int) == i);
    }
    assert(renumber_materials(ms) =~= ms);
}

} // verus!
