//! Preview rendering: ruby and paragraph preprocessing, then punctuation markup.

use vstd::prelude::*;
use crate::text::chars_of;
use crate::markdown::parser::{cmark_html, parse_markdown};

verus! {


/// The preview HTML of a Markdown text: preprocessed, rendered, punctuation wrapped.
pub open spec fn render_spec(markdown: Seq<char>) -> Seq<char> {
    wrap_punctuation_spec(cmark_html(preprocess_spec(markdown)))
}

/// Renders a chapter's Markdown for the preview: ruby and paragraph preprocessing,
/// Markdown rendering, then punctuation markup.
pub fn render_to_html(markdown: &str) -> (html: String)
    ensures
        html@ == render_spec(markdown@),
{
    let preprocessed = preprocess(markdown);
    let html = parse_markdown(preprocessed.as_str());
    wrap_punctuation(html.as_str())
}

// ── Punctuation markup ──

/// The Japanese comma and full stop, which the preview sets apart.
pub open spec fn is_punct(c: char) -> bool {
    c == '、' || c == '。'
}

/// What one character of text becomes: a punctuation mark wrapped in a span, anything else itself.
pub open spec fn punct_piece(c: char) -> Seq<char> {
    if is_punct(c) {
        "<span class=\"punct\">"@ + seq![c] + "</span>"@
    } else {
        seq![c]
    }
}

/// A run of text with every punctuation mark wrapped.
pub open spec fn punct_text(s: Seq<char>) -> Seq<char>
    decreases s.len(),
{
    if s.len() == 0 {
        Seq::empty()
    } else {
        punct_text(s.drop_last()) + punct_piece(s.last())
    }
}

/// The markup of `s` from position `i` on, given whether a tag is open and the text
/// gathered since the last tag.  Text outside tags is gathered and flushed with its
/// punctuation wrapped at the next `<` or at the end; tags are copied as they are.
pub open spec fn wrap_from(s: Seq<char>, i: int, in_tag: bool, buf: Seq<char>) -> Seq<char>
    decreases s.len() - i,
{
    if i >= s.len() || i < 0 {
        punct_text(buf)
    } else {
        let c = s[i];
        if c == '<' {
            punct_text(buf) + seq!['<'] + wrap_from(s, i + 1, true, Seq::empty())
        } else if c == '>' && in_tag {
            seq!['>'] + wrap_from(s, i + 1, false, buf)
        } else if !in_tag {
            wrap_from(s, i + 1, false, buf.push(c))
        } else {
            seq![c] + wrap_from(s, i + 1, true, buf)
        }
    }
}

/// HTML with the punctuation of its text (not of its tags) wrapped in spans.
pub open spec fn wrap_punctuation_spec(html: Seq<char>) -> Seq<char> {
    wrap_from(html, 0, false, Seq::empty())
}

/// Appends `text` to `result`, each punctuation mark wrapped in `<span class="punct">`.
pub fn push_processed_text(result: &mut String, text: &str)
    ensures
        final(result)@ == old(result)@ + punct_text(text@),
{
    let cs = chars_of(text);
    let ghost start = result@;
    let mut i: usize = 0;
    assert(cs@.take(0) =~= Seq::<char>::empty());
    while i < cs.len()
        invariant
            i <= cs@.len(),
            cs@ == text@,
            result@ == start + punct_text(cs@.take(i as int)),
        decreases cs@.len() - i,
    {
        let c = cs[i];
        if c == '、' || c == '。' {
            result.append("<span class=\"punct\">");
            result.push(c);
            result.append("</span>");
        } else {
            result.push(c);
        }
        assert(cs@.take(i + 1).drop_last() =~= cs@.take(i as int));
        assert(result@ =~= start + punct_text(cs@.take(i + 1)));
        i += 1;
    }
    assert(cs@.take(cs@.len() as int) =~= cs@);
}

/// Wraps the Japanese punctuation in the text of `html`, leaving tags untouched.
pub fn wrap_punctuation(html: &str) -> (res: String)
    ensures
        res@ == wrap_punctuation_spec(html@),
{
    let cs = chars_of(html);
    let mut result = String::new();
    let mut text_buf = String::new();
    let mut in_tag = false;
    let mut i: usize = 0;
    while i < cs.len()
        invariant
            i <= cs@.len(),
            cs@ == html@,
            result@ + wrap_from(cs@, i as int, in_tag, text_buf@) == wrap_punctuation_spec(html@),
        decreases cs@.len() - i,
    {
        let c = cs[i];
        let ghost before = result@;
        let ghost buf0 = text_buf@;
        if c == '<' {
            push_processed_text(&mut result, text_buf.as_str());
            text_buf = String::new();
            in_tag = true;
            result.push(c);
            assert(result@ + wrap_from(cs@, i + 1, true, Seq::empty()) =~=
                before + (punct_text(buf0) + seq!['<'] + wrap_from(cs@, i + 1, true, Seq::empty())));
        } else if c == '>' && in_tag {
            in_tag = false;
            result.push(c);
            assert(result@ + wrap_from(cs@, i + 1, false, buf0) =~=
                before + (seq!['>'] + wrap_from(cs@, i + 1, false, buf0)));
        } else if !in_tag {
            text_buf.push(c);
        } else {
            result.push(c);
            assert(result@ + wrap_from(cs@, i + 1, true, buf0) =~=
                before + (seq![c] + wrap_from(cs@, i + 1, true, buf0)));
        }
        i += 1;
    }
    push_processed_text(&mut result, text_buf.as_str());
    result
}


// ── Preprocessing: ruby, paragraphs and code fences ──

/// The number of consecutive `c` in `s` from position `i` on.
pub open spec fn run_len(s: Seq<char>, i: int, c: char) -> nat
    decreases s.len() - i,
{
    if 0 <= i < s.len() && s[i] == c {
        1 + run_len(s, i + 1, c)
    } else {
        0
    }
}

/// `n` copies of `c`.
pub open spec fn repeat_char(c: char, n: nat) -> Seq<char> {
    Seq::new(n, |_k: int| c)
}

/// The state of a ruby scan: the position after it, the brace depth reached (0 when the
/// closing brace was found), whether a `|` was seen, the base text and the reading.
pub struct RubyScan {
    pub end: int,
    pub depth: int,
    pub has_pipe: bool,
    pub base: Seq<char>,
    pub reading: Seq<char>,
}

/// Scans the inside of `{...}` from position `j`: nested braces are kept in the text,
/// a `|` at depth one makes the text so far the base and starts the reading, and the
/// scan stops after the brace that closes the first one, or at the end of the input.
pub open spec fn ruby_scan(
    s: Seq<char>,
    j: int,
    depth: int,
    has_pipe: bool,
    base: Seq<char>,
    reading: Seq<char>,
) -> RubyScan
    decreases s.len() - j,
{
    if j >= s.len() || j < 0 {
        RubyScan { end: j, depth, has_pipe, base, reading }
    } else {
        let c = s[j];
        if c == '{' {
            ruby_scan(s, j + 1, depth + 1, has_pipe, base, reading.push(c))
        } else if c == '}' && depth - 1 == 0 {
            RubyScan { end: j + 1, depth: 0, has_pipe, base, reading }
        } else if c == '}' {
            ruby_scan(s, j + 1, depth - 1, has_pipe, base, reading.push(c))
        } else if c == '|' && depth == 1 {
            ruby_scan(s, j + 1, depth, true, reading, Seq::empty())
        } else {
            ruby_scan(s, j + 1, depth, has_pipe, base, reading.push(c))
        }
    }
}

/// What a scanned brace group becomes: ruby markup when it was closed and held a `|`,
/// otherwise the text given back with its braces and pipe.
pub open spec fn ruby_out(r: RubyScan) -> Seq<char> {
    if r.has_pipe && r.depth == 0 {
        "<ruby>"@ + r.base + "<rt>"@ + r.reading + "</rt></ruby>"@
    } else {
        seq!['{'] + r.base + (if r.has_pipe { seq!['|'] } else { Seq::empty() }) + r.reading + (
        if r.depth == 0 {
            seq!['}']
        } else {
            Seq::empty()
        })
    }
}

/// The scan of the brace group that opens at position `i`.
pub open spec fn ruby_at(s: Seq<char>, i: int) -> RubyScan {
    ruby_scan(s, i + 1, 1, false, Seq::empty(), Seq::empty())
}

/// The preprocessed text of `s` from position `i` on, `in_code` telling whether a code
/// fence is open.  A run of three or more backticks opens or closes a fence and is kept;
/// inside a fence everything is kept; outside, a run of newlines becomes one blank line
/// and `{base|reading}` becomes ruby.
pub open spec fn preprocess_from(s: Seq<char>, i: int, in_code: bool) -> Seq<char>
    decreases s.len() - i,
{
    if i >= s.len() || i < 0 {
        Seq::empty()
    } else {
        let c = s[i];
        if c == '`' {
            let k = run_len(s, i, '`');
            proof {
                lemma_run_len_bounds(s, i, '`');
            }
            repeat_char('`', k) + preprocess_from(
                s,
                i + k,
                if k >= 3 {
                    !in_code
                } else {
                    in_code
                },
            )
        } else if in_code {
            seq![c] + preprocess_from(s, i + 1, true)
        } else if c == '\n' {
            let k = run_len(s, i, '\n');
            proof {
                lemma_run_len_bounds(s, i, '\n');
            }
            seq!['\n', '\n'] + preprocess_from(s, i + k, false)
        } else if c == '{' {
            let r = ruby_at(s, i);
            proof {
                lemma_ruby_scan_end(s, i + 1, 1, false, Seq::empty(), Seq::empty());
            }
            ruby_out(r) + preprocess_from(s, r.end, false)
        } else {
            seq![c] + preprocess_from(s, i + 1, false)
        }
    }
}

/// The whole preprocessed text.
pub open spec fn preprocess_spec(s: Seq<char>) -> Seq<char> {
    preprocess_from(s, 0, false)
}

pub proof fn lemma_run_len_bounds(s: Seq<char>, i: int, c: char)
    ensures
        run_len(s, i, c) <= if 0 <= i <= s.len() { s.len() - i } else { 0 },
        0 <= i < s.len() && s[i] == c ==> run_len(s, i, c) >= 1,
    decreases s.len() - i,
{
    if 0 <= i < s.len() && s[i] == c {
        lemma_run_len_bounds(s, i + 1, c);
    }
}

/// A run of exactly `k` copies of `c` from `i` has length `k`.
pub proof fn lemma_run_len_exact(s: Seq<char>, i: int, c: char, k: int)
    requires
        0 <= i,
        0 <= k,
        i + k <= s.len(),
        forall|j: int| i <= j < i + k ==> s[j] == c,
        i + k == s.len() || s[i + k] != c,
    ensures
        run_len(s, i, c) == k,
    decreases k,
{
    if k > 0 {
        lemma_run_len_exact(s, i + 1, c, k - 1);
    }
}

pub proof fn lemma_ruby_scan_end(
    s: Seq<char>,
    j: int,
    depth: int,
    has_pipe: bool,
    base: Seq<char>,
    reading: Seq<char>,
)
    requires
        0 <= j <= s.len(),
    ensures
        j <= ruby_scan(s, j, depth, has_pipe, base, reading).end <= s.len(),
    decreases s.len() - j,
{
    if j < s.len() {
        let c = s[j];
        if c == '{' {
            lemma_ruby_scan_end(s, j + 1, depth + 1, has_pipe, base, reading.push(c));
        } else if c == '}' && depth - 1 == 0 {
        } else if c == '}' {
            lemma_ruby_scan_end(s, j + 1, depth - 1, has_pipe, base, reading.push(c));
        } else if c == '|' && depth == 1 {
            lemma_ruby_scan_end(s, j + 1, depth, true, reading, Seq::empty());
        } else {
            lemma_ruby_scan_end(s, j + 1, depth, has_pipe, base, reading.push(c));
        }
    }
}

/// Turns `{base|reading}` into ruby markup and every run of newlines into one blank line,
/// leaving the inside of ``` code fences as it is.
pub fn preprocess(input: &str) -> (res: String)
    ensures
        res@ == preprocess_spec(input@),
{
    let cs = chars_of(input);
    let n = cs.len();
    let mut result = String::new();
    let mut in_code_block = false;
    let mut i: usize = 0;
    while i < n
        invariant
            n == cs@.len(),
            cs@ == input@,
            i <= n,
            result@ + preprocess_from(cs@, i as int, in_code_block) == preprocess_spec(input@),
        decreases n - i,
    {
        let ghost before = result@;
        let ghost s = cs@;
        let ghost code0 = in_code_block;
        let c = cs[i];
        if c == '`' {
            let mut count: usize = 1;
            while i + count < n && cs[i + count] == '`'
                invariant
                    n == cs@.len(),
                    i < n,
                    1 <= count,
                    i + count <= n,
                    forall|j: int| i <= j < i + count ==> cs@[j] == '`',
                decreases n - i - count,
            {
                count += 1;
            }
            proof {
                lemma_run_len_exact(s, i as int, '`', count as int);
            }
            if count >= 3 {
                in_code_block = !in_code_block;
            }
            let mut k: usize = 0;
            while k < count
                invariant
                    k <= count,
                    result@ == before + repeat_char('`', k as nat),
                decreases count - k,
            {
                result.push('`');
                k += 1;
                assert(result@ =~= before + repeat_char('`', k as nat));
            }
            i = i + count;
            assert(result@ + preprocess_from(s, i as int, in_code_block) =~= before + (repeat_char(
                '`',
                count as nat,
            ) + preprocess_from(s, i as int, in_code_block)));
        } else if in_code_block {
            result.push(c);
            i += 1;
            assert(result@ + preprocess_from(s, i as int, true) =~= before + (seq![c]
                + preprocess_from(s, i as int, true)));
        } else if c == '\n' {
            let mut count: usize = 1;
            while i + count < n && cs[i + count] == '\n'
                invariant
                    n == cs@.len(),
                    i < n,
                    1 <= count,
                    i + count <= n,
                    forall|j: int| i <= j < i + count ==> cs@[j] == '\n',
                decreases n - i - count,
            {
                count += 1;
            }
            proof {
                lemma_run_len_exact(s, i as int, '\n', count as int);
            }
            result.push('\n');
            result.push('\n');
            i = i + count;
            assert(result@ + preprocess_from(s, i as int, false) =~= before + (seq!['\n', '\n']
                + preprocess_from(s, i as int, false)));
        } else if c == '{' {
            let ghost r = ruby_at(s, i as int);
            let mut ruby_text = String::new();
            let mut start = String::new();
            let mut has_pipe = false;
            let mut depth: usize = 1;
            let mut closed = false;
            let mut j: usize = i + 1;
            while j < n && !closed
                invariant
                    n == cs@.len(),
                    s == cs@,
                    i < j <= n,
                    r == ruby_at(s, i as int),
                    !closed ==> 1 <= depth <= j - i,
                    !closed ==> ruby_scan(s, j as int, depth as int, has_pipe, start@, ruby_text@)
                        == r,
                    closed ==> r == (RubyScan {
                        end: j as int,
                        depth: 0,
                        has_pipe,
                        base: start@,
                        reading: ruby_text@,
                    }),
                    closed ==> depth == 0,
                decreases n - j,
            {
                let nc = cs[j];
                j += 1;
                if nc == '{' {
                    depth += 1;
                    ruby_text.push(nc);
                } else if nc == '}' {
                    depth -= 1;
                    if depth == 0 {
                        closed = true;
                    } else {
                        ruby_text.push(nc);
                    }
                } else if nc == '|' && depth == 1 {
                    has_pipe = true;
                    start = ruby_text;
                    ruby_text = String::new();
                } else {
                    ruby_text.push(nc);
                }
            }
            let ghost out = ruby_out(r);
            if has_pipe && depth == 0 {
                result.append("<ruby>");
                result.append(start.as_str());
                result.append("<rt>");
                result.append(ruby_text.as_str());
                result.append("</rt></ruby>");
            } else {
                result.push('{');
                result.append(start.as_str());
                if has_pipe {
                    result.push('|');
                }
                result.append(ruby_text.as_str());
                if depth == 0 {
                    result.push('}');
                }
            }
            assert(result@ =~= before + out);
            i = j;
            assert(r.end == j as int);
            assert(result@ + preprocess_from(s, i as int, false) =~= before + (out
                + preprocess_from(s, i as int, false)));
        } else {
            result.push(c);
            i += 1;
            assert(result@ + preprocess_from(s, i as int, false) =~= before + (seq![c]
                + preprocess_from(s, i as int, false)));
        }
    }
    assert(result@ =~= preprocess_spec(input@));
    result
}

} // verus!
