//! Markdown formatting commands of the editor.

use vstd::prelude::*;
use crate::text::chars_of;

verus! {

/// The formatting buttons of the editor.
#[derive(Clone, Copy, Debug, PartialEq, Eq, Structural)]
pub enum FormatKind {
    Bold,
    Italic,
    Heading,
    SubHeading,
    SubSubHeading,
    Quote,
    BulletList,
    NumberedList,
    Link,
    Ruby,
    Separator,
}

/// The UTF-16 code units of a character: two above the Basic Multilingual Plane, else one.
pub open spec fn utf16_units(c: char) -> nat {
    if (c as u32) >= 0x10000 {
        2
    } else {
        1
    }
}

/// The length of a text in UTF-16 code units, as a browser counts selection offsets.
pub open spec fn utf16_len_spec(s: Seq<char>) -> nat
    decreases s.len(),
{
    if s.len() == 0 {
        0
    } else {
        utf16_len_spec(s.drop_last()) + utf16_units(s.last())
    }
}

/// The length of `s` in UTF-16 code units.
pub fn utf16_len(s: &str) -> (n: usize)
    requires
        utf16_len_spec(s@) <= usize::MAX,
    ensures
        n == utf16_len_spec(s@),
{
    let cs = chars_of(s);
    let mut n: usize = 0;
    let mut i: usize = 0;
    while i < cs.len()
        invariant
            i <= cs@.len(),
            cs@ == s@,
            n == utf16_len_spec(cs@.take(i as int)),
            utf16_len_spec(s@) <= usize::MAX,
        decreases cs@.len() - i,
    {
        assert(cs@.take(i + 1).drop_last() =~= cs@.take(i as int));
        proof {
            lemma_utf16_len_prefix(cs@, i as int + 1);
        }
        let c = cs[i];
        if (c as u32) >= 0x10000 {
            n = n + 2;
        } else {
            n = n + 1;
        }
        i += 1;
    }
    assert(cs@.take(cs@.len() as int) =~= cs@);
    n
}

/// A prefix is no longer than the whole.
pub proof fn lemma_utf16_len_prefix(s: Seq<char>, k: int)
    requires
        0 <= k <= s.len(),
    ensures
        utf16_len_spec(s.take(k)) <= utf16_len_spec(s),
    decreases s.len() - k,
{
    if k < s.len() {
        lemma_utf16_len_prefix(s, k + 1);
        assert(s.take(k + 1).drop_last() =~= s.take(k));
    } else {
        assert(s.take(k) =~= s);
    }
}

/// The UTF-16 length of a concatenation is the sum of the lengths.
pub proof fn lemma_utf16_len_concat(a: Seq<char>, b: Seq<char>)
    ensures
        utf16_len_spec(a + b) == utf16_len_spec(a) + utf16_len_spec(b),
    decreases b.len(),
{
    if b.len() > 0 {
        lemma_utf16_len_concat(a, b.drop_last());
        assert((a + b).drop_last() =~= a + b.drop_last());
    } else {
        assert(a + b =~= a);
    }
}

/// What a formatting command inserts for the selected text `sel`, and where the new
/// selection starts and ends within it (in UTF-16 code units).  Bold, italic, link and
/// ruby wrap the selection, or insert a sample when nothing is selected; the block
/// commands insert a sample line.
pub open spec fn format_spec(sel: Seq<char>, kind: FormatKind) -> (Seq<char>, int, int) {
    let empty = sel.len() == 0;
    let n = utf16_len_spec(sel) as int;
    match kind {
        FormatKind::Bold => if empty {
            ("**太文字**"@, 2, 5)
        } else {
            ("**"@ + sel + "**"@, 4 + n, 4 + n)
        },
        FormatKind::Italic => if empty {
            ("*斜体*"@, 1, 3)
        } else {
            ("*"@ + sel + "*"@, 2 + n, 2 + n)
        },
        FormatKind::Heading => ("# 見出し"@, 2, 2),
        FormatKind::SubHeading => ("## 見出し"@, 3, 3),
        FormatKind::SubSubHeading => ("### 見出し"@, 4, 4),
        FormatKind::Quote => ("> 引用文"@, 2, 2),
        FormatKind::BulletList => ("- 箇条書き"@, 2, 2),
        FormatKind::NumberedList => ("1. 番号付き"@, 3, 3),
        FormatKind::Link => if empty {
            ("[リンクテキスト](url)"@, 1, 7)
        } else {
            ("["@ + sel + "](url)"@, 1, 1 + n)
        },
        FormatKind::Ruby => if empty {
            ("{漢字|かんじ}"@, 1, 3)
        } else {
            ("{"@ + sel + "|ルビ}"@, 2 + n, 4 + n)
        },
        FormatKind::Separator => ("---"@, 3, 3),
    }
}

/// The Markdown a formatting command inserts for the selection `sel`, with the new
/// selection's start and end offsets within it.
pub fn apply_format(sel: &str, kind: FormatKind) -> (r: (String, usize, usize))
    requires
        utf16_len_spec(sel@) + 4 <= usize::MAX,
    ensures
        r.0@ == format_spec(sel@, kind).0,
        r.1 as int == format_spec(sel@, kind).1,
        r.2 as int == format_spec(sel@, kind).2,
{
    let empty = sel.is_empty();
    match kind {
        FormatKind::Bold => {
            if empty {
                (String::from_str("**太文字**"), 2, 5)
            } else {
                let mut t = String::from_str("**");
                t.append(sel);
                t.append("**");
                let pos = 2 + utf16_len(sel) + 2;
                (t, pos, pos)
            }
        },
        FormatKind::Italic => {
            if empty {
                (String::from_str("*斜体*"), 1, 3)
            } else {
                let mut t = String::from_str("*");
                t.append(sel);
                t.append("*");
                let pos = 1 + utf16_len(sel) + 1;
                (t, pos, pos)
            }
        },
        FormatKind::Heading => (String::from_str("# 見出し"), 2, 2),
        FormatKind::SubHeading => (String::from_str("## 見出し"), 3, 3),
        FormatKind::SubSubHeading => (String::from_str("### 見出し"), 4, 4),
        FormatKind::Quote => (String::from_str("> 引用文"), 2, 2),
        FormatKind::BulletList => (String::from_str("- 箇条書き"), 2, 2),
        FormatKind::NumberedList => (String::from_str("1. 番号付き"), 3, 3),
        FormatKind::Link => {
            if empty {
                (String::from_str("[リンクテキスト](url)"), 1, 7)
            } else {
                let mut t = String::from_str("[");
                t.append(sel);
                t.append("](url)");
                (t, 1, 1 + utf16_len(sel))
            }
        },
        FormatKind::Ruby => {
            if empty {
                (String::from_str("{漢字|かんじ}"), 1, 3)
            } else {
                let mut t = String::from_str("{");
                t.append(sel);
                t.append("|ルビ}");
                let start = 1 + utf16_len(sel) + 1;
                (t, start, start + 2)
            }
        },
        FormatKind::Separator => (String::from_str("---"), 3, 3),
    }
}

/// Whether a command wraps the selection in place (rather than inserting a line).
pub open spec fn is_inline(kind: FormatKind) -> bool {
    kind == FormatKind::Bold || kind == FormatKind::Italic || kind == FormatKind::Link || kind
        == FormatKind::Ruby
}

/// The editor text after a formatting command on the selection `sel` between `before`
/// and `after`, with the new selection's start and end (UTF-16 offsets in the text).
/// Inline commands replace the selection; the separator goes on a line of its own before
/// the selection, with the cursor after it; other block commands insert their sample on
/// a line of its own before the selection, selecting within it.
pub open spec fn format_edit_spec(before: Seq<char>, sel: Seq<char>, after: Seq<char>, kind: FormatKind) -> (
    Seq<char>,
    int,
    int,
) {
    let (f, s, e) = format_spec(sel, kind);
    let b = utf16_len_spec(before) as int;
    if is_inline(kind) {
        (before + f + after, b + s, b + e)
    } else if kind == FormatKind::Separator {
        let c = b + 1 + utf16_len_spec(f) + 1;
        (before + seq!['\n'] + f + seq!['\n'] + sel + after, c, c)
    } else {
        (before + seq!['\n'] + f + seq!['\n'] + sel + after, b + 1 + s, b + 1 + e)
    }
}

/// Applies a formatting command to the selection `sel` of the text `before + sel + after`.
pub fn format_edit(before: &str, sel: &str, after: &str, kind: FormatKind) -> (r: (String, usize, usize))
    requires
        utf16_len_spec(before@) + utf16_len_spec(sel@) + 32 <= usize::MAX,
    ensures
        r.0@ == format_edit_spec(before@, sel@, after@, kind).0,
        r.1 as int == format_edit_spec(before@, sel@, after@, kind).1,
        r.2 as int == format_edit_spec(before@, sel@, after@, kind).2,
{
    let (formatted, s, e) = apply_format(sel, kind);
    let b = utf16_len(before);
    let inline = match kind {
        FormatKind::Bold | FormatKind::Italic | FormatKind::Link | FormatKind::Ruby => true,
        _ => false,
    };
    proof {
        reveal_strlit("---");
        assert(s <= utf16_len_spec(sel@) + 8 && e <= utf16_len_spec(sel@) + 8);
    }
    if inline {
        let mut t = String::from_str(before);
        t.append(formatted.as_str());
        t.append(after);
        (t, b + s, b + e)
    } else {
        let mut t = String::from_str(before);
        t.push('\n');
        t.append(formatted.as_str());
        t.push('\n');
        t.append(sel);
        t.append(after);
        let ghost f = formatted@;
        assert(t@ =~= before@ + seq!['\n'] + f + seq!['\n'] + sel@ + after@);
        match kind {
            FormatKind::Separator => {
                assert(utf16_len_spec(formatted@) == 3) by {
                    reveal_with_fuel(utf16_len_spec, 4);
                }
                let sep_units = utf16_len(formatted.as_str());
                let c = b + 1 + sep_units + 1;
                (t, c, c)
            },
            _ => (t, b + 1 + s, b + 1 + e),
        }
    }
}

proof fn lemma_utf16_len_bmp(s: Seq<char>)
    requires
        forall|i: int| 0 <= i < s.len() ==> (#[trigger] s[i] as u32) < 0x10000,
    ensures
        utf16_len_spec(s) == s.len(),
    decreases s.len(),
{
    if s.len() > 0 {
        lemma_utf16_len_bmp(s.drop_last());
    }
}

/// Every sample text and wrapper of the formatting commands has at least as many UTF-16
/// units as the end of the selection it sets.
proof fn lemma_format_fits(sel: Seq<char>, kind: FormatKind)
    ensures
        0 <= format_spec(sel, kind).1 <= format_spec(sel, kind).2 <= utf16_len_spec(format_spec(sel, kind).0),
{
    let n = utf16_len_spec(sel);
    reveal_strlit("**太文字**");
    reveal_strlit("**");
    reveal_strlit("*斜体*");
    reveal_strlit("*");
    reveal_strlit("# 見出し");
    reveal_strlit("## 見出し");
    reveal_strlit("### 見出し");
    reveal_strlit("> 引用文");
    reveal_strlit("- 箇条書き");
    reveal_strlit("1. 番号付き");
    reveal_strlit("[リンクテキスト](url)");
    reveal_strlit("[");
    reveal_strlit("](url)");
    reveal_strlit("{漢字|かんじ}");
    reveal_strlit("{");
    reveal_strlit("|ルビ}");
    reveal_strlit("---");
    let f = format_spec(sel, kind).0;
    match kind {
        FormatKind::Bold => if sel.len() == 0 {
            lemma_utf16_len_bmp("**太文字**"@);
        } else {
            lemma_utf16_len_bmp("**"@);
            lemma_utf16_len_concat("**"@, sel);
            lemma_utf16_len_concat("**"@ + sel, "**"@);
        },
        FormatKind::Italic => if sel.len() == 0 {
            lemma_utf16_len_bmp("*斜体*"@);
        } else {
            lemma_utf16_len_bmp("*"@);
            lemma_utf16_len_concat("*"@, sel);
            lemma_utf16_len_concat("*"@ + sel, "*"@);
        },
        FormatKind::Heading => lemma_utf16_len_bmp(f),
        FormatKind::SubHeading => lemma_utf16_len_bmp(f),
        FormatKind::SubSubHeading => lemma_utf16_len_bmp(f),
        FormatKind::Quote => lemma_utf16_len_bmp(f),
        FormatKind::BulletList => lemma_utf16_len_bmp(f),
        FormatKind::NumberedList => lemma_utf16_len_bmp(f),
        FormatKind::Link => if sel.len() == 0 {
            lemma_utf16_len_bmp(f);
        } else {
            lemma_utf16_len_bmp("["@);
            lemma_utf16_len_bmp("](url)"@);
            lemma_utf16_len_concat("["@, sel);
            lemma_utf16_len_concat("["@ + sel, "](url)"@);
        },
        FormatKind::Ruby => if sel.len() == 0 {
            lemma_utf16_len_bmp(f);
        } else {
            lemma_utf16_len_bmp("{"@);
            lemma_utf16_len_bmp("|ルビ}"@);
            lemma_utf16_len_concat("{"@, sel);
            lemma_utf16_len_concat("{"@ + sel, "|ルビ}"@);
        },
        FormatKind::Separator => lemma_utf16_len_bmp(f),
    }
}

/// A formatting command keeps the text before and after the selection, and the new
/// selection lies within the new text: `0 <= start <= end <= length` in UTF-16 units.
pub proof fn format_edit_keeps_context_and_selection(
    before: Seq<char>,
    sel: Seq<char>,
    after: Seq<char>,
    kind: FormatKind,
)
    ensures
        ({
            let (t, s, e) = format_edit_spec(before, sel, after, kind);
            &&& t.take(before.len() as int) == before
            &&& t.skip(t.len() - after.len()) == after
            &&& 0 <= s <= e <= utf16_len_spec(t)
        }),
{
    let (t, s, e) = format_edit_spec(before, sel, after, kind);
    let (f, fs, fe) = format_spec(sel, kind);
    lemma_format_fits(sel, kind);
    if is_inline(kind) {
        lemma_utf16_len_concat(before, f);
        lemma_utf16_len_concat(before + f, after);
        assert(t.take(before.len() as int) =~= before);
        assert(t.skip(t.len() - after.len()) =~= after);
    } else {
        let nl = seq!['\n'];
        lemma_utf16_len_concat(before, nl);
        lemma_utf16_len_concat(before + nl, f);
        lemma_utf16_len_concat(before + nl + f, nl);
        lemma_utf16_len_concat(before + nl + f + nl, sel);
        lemma_utf16_len_concat(before + nl + f + nl + sel, after);
        lemma_utf16_len_bmp(nl);
        assert(t.take(before.len() as int) =~= before);
        assert(t.skip(t.len() - after.len()) =~= after);
    }
}

/// Whether Enter should open a blank line: the text ends with a closing quote `」`.
pub open spec fn ends_dialogue(text: Seq<char>) -> bool {
    text.len() > 0 && text.last() == '」'
}

/// Whether the text ends with `」`, after which Enter inserts a blank line.
pub fn enter_opens_blank_line(text: &str) -> (r: bool)
    ensures
        r == ends_dialogue(text@),
{
    let cs = chars_of(text);
    cs.len() > 0 && cs[cs.len() - 1] == '」'
}

/// The commands that insert a line of their own: headings, quote, lists and separator.
pub open spec fn is_block_command(kind: FormatKind) -> bool {
    ||| kind == FormatKind::Heading
    ||| kind == FormatKind::SubHeading
    ||| kind == FormatKind::SubSubHeading
    ||| kind == FormatKind::Quote
    ||| kind == FormatKind::BulletList
    ||| kind == FormatKind::NumberedList
    ||| kind == FormatKind::Separator
}

/// The line a block command inserts.
pub open spec fn block_line(kind: FormatKind) -> Seq<char> {
    match kind {
        FormatKind::Heading => "# 見出し"@,
        FormatKind::SubHeading => "## 見出し"@,
        FormatKind::SubSubHeading => "### 見出し"@,
        FormatKind::Quote => "> 引用文"@,
        FormatKind::BulletList => "- 箇条書き"@,
        FormatKind::NumberedList => "1. 番号付き"@,
        _ => "---"@,
    }
}

/// Block commands never remove the selection: their line goes on a line of its own
/// between the text before the selection and the selection, which is kept with the
/// text after it.
pub proof fn block_commands_keep_the_selection(
    before: Seq<char>,
    sel: Seq<char>,
    after: Seq<char>,
    kind: FormatKind,
)
    requires
        is_block_command(kind),
    ensures
        format_edit_spec(before, sel, after, kind).0 == before + seq!['\n'] + block_line(kind) + seq!['\n']
            + sel + after,
{
}

/// What an inline command puts before and after a selection.
pub open spec fn inline_marks(kind: FormatKind) -> (Seq<char>, Seq<char>) {
    match kind {
        FormatKind::Bold => ("**"@, "**"@),
        FormatKind::Italic => ("*"@, "*"@),
        FormatKind::Link => ("["@, "](url)"@),
        _ => ("{"@, "|ルビ}"@),
    }
}

/// Bold, italic, link and ruby wrap a non-empty selection in place: the selection is kept
/// between the command's marks, with the text around it unchanged.
pub proof fn inline_commands_wrap_the_selection(
    before: Seq<char>,
    sel: Seq<char>,
    after: Seq<char>,
    kind: FormatKind,
)
    requires
        !is_block_command(kind),
        sel.len() > 0,
    ensures
        format_edit_spec(before, sel, after, kind).0 == before + inline_marks(kind).0 + sel
            + inline_marks(kind).1 + after,
{
}

} // verus!
