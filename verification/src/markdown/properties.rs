//! What preprocessing and punctuation markup promise of whole texts.

use vstd::prelude::*;
use crate::markdown::renderer::{
    is_punct, lemma_run_len_bounds, lemma_run_len_exact, lemma_ruby_scan_end, preprocess_from,
    preprocess_spec, punct_text, repeat_char, ruby_at, ruby_scan, run_len, wrap_from,
    wrap_punctuation_spec, RubyScan,
};

verus! {

/// No character that preprocessing treats specially: backtick, newline, opening brace.
pub open spec fn is_plain(s: Seq<char>) -> bool {
    forall|j: int| 0 <= j < s.len() ==> s[j] != '`' && s[j] != '\n' && s[j] != '{'
}

/// No brace and no pipe: text that may stand inside a ruby group.
pub open spec fn is_ruby_part(s: Seq<char>) -> bool {
    forall|j: int| 0 <= j < s.len() ==> s[j] != '{' && s[j] != '}' && s[j] != '|'
}

/// No Japanese comma or full stop.
pub open spec fn has_no_punct(s: Seq<char>) -> bool {
    forall|j: int| 0 <= j < s.len() ==> !is_punct(s[j])
}

proof fn lemma_plain_run(s: Seq<char>, i: int, k: int)
    requires
        0 <= i <= k <= s.len(),
        forall|j: int| i <= j < k ==> s[j] != '`' && s[j] != '\n' && s[j] != '{',
    ensures
        preprocess_from(s, i, false) == s.subrange(i, k) + preprocess_from(s, k, false),
    decreases k - i,
{
    if i < k {
        lemma_plain_run(s, i + 1, k);
        assert(s.subrange(i, k) =~= seq![s[i]] + s.subrange(i + 1, k));
    } else {
        assert(s.subrange(i, k) =~= Seq::<char>::empty());
    }
}

proof fn lemma_ruby_part_run(
    s: Seq<char>,
    j: int,
    m: int,
    has_pipe: bool,
    base: Seq<char>,
    reading: Seq<char>,
)
    requires
        0 <= j <= m <= s.len(),
        forall|x: int| j <= x < m ==> s[x] != '{' && s[x] != '}' && s[x] != '|',
    ensures
        ruby_scan(s, j, 1, has_pipe, base, reading) == ruby_scan(
            s,
            m,
            1,
            has_pipe,
            base,
            reading + s.subrange(j, m),
        ),
    decreases m - j,
{
    if j < m {
        lemma_ruby_part_run(s, j + 1, m, has_pipe, base, reading.push(s[j]));
        assert(reading.push(s[j]) + s.subrange(j + 1, m) =~= reading + s.subrange(j, m));
    } else {
        assert(reading + s.subrange(j, m) =~= reading);
    }
}

/// Text without backticks, newlines or braces comes out of preprocessing unchanged.
pub proof fn preprocess_keeps_plain_text(s: Seq<char>)
    requires
        is_plain(s),
    ensures
        preprocess_spec(s) == s,
{
    lemma_plain_run(s, 0, s.len() as int);
    assert(s.subrange(0, s.len() as int) =~= s);
}

/// Between plain texts, any run of one or more newlines becomes exactly one blank line.
pub proof fn preprocess_newline_run_is_one_blank_line(a: Seq<char>, k: nat, b: Seq<char>)
    requires
        is_plain(a),
        is_plain(b),
        k >= 1,
    ensures
        preprocess_spec(a + repeat_char('\n', k) + b) == a + seq!['\n', '\n'] + b,
{
    let s = a + repeat_char('\n', k) + b;
    let la = a.len() as int;
    lemma_plain_run(s, 0, la);
    assert(s.subrange(0, la) =~= a);
    lemma_run_len_exact(s, la, '\n', k as int);
    lemma_plain_run(s, la + k, s.len() as int);
    assert(s.subrange(la + k, s.len() as int) =~= b);
    assert(preprocess_spec(s) =~= a + seq!['\n', '\n'] + b);
}

/// `{base|reading}` between plain texts becomes ruby markup, the texts around it unchanged.
pub proof fn preprocess_makes_ruby(a: Seq<char>, base: Seq<char>, reading: Seq<char>, c: Seq<char>)
    requires
        is_plain(a),
        is_plain(c),
        is_ruby_part(base),
        is_ruby_part(reading),
    ensures
        preprocess_spec(a + seq!['{'] + base + seq!['|'] + reading + seq!['}'] + c) == a
            + "<ruby>"@ + base + "<rt>"@ + reading + "</rt></ruby>"@ + c,
{
    let s = a + seq!['{'] + base + seq!['|'] + reading + seq!['}'] + c;
    let la = a.len() as int;
    let p = la + 1 + base.len();
    let q = p + 1 + reading.len();
    lemma_plain_run(s, 0, la);
    assert(s.subrange(0, la) =~= a);
    lemma_ruby_part_run(s, la + 1, p, false, Seq::empty(), Seq::empty());
    assert(Seq::<char>::empty() + s.subrange(la + 1, p) =~= base);
    lemma_ruby_part_run(s, p + 1, q, true, base, Seq::empty());
    assert(Seq::<char>::empty() + s.subrange(p + 1, q) =~= reading);
    let r = ruby_at(s, la);
    assert(r == RubyScan { end: q + 1, depth: 0, has_pipe: true, base, reading });
    lemma_plain_run(s, q + 1, s.len() as int);
    assert(s.subrange(q + 1, s.len() as int) =~= c);
    assert(preprocess_spec(s) =~= a + "<ruby>"@ + base + "<rt>"@ + reading + "</rt></ruby>"@ + c);
}

/// A closed brace group without a pipe is given back as it was written.
pub proof fn preprocess_keeps_braces_without_pipe(a: Seq<char>, t: Seq<char>, c: Seq<char>)
    requires
        is_plain(a),
        is_plain(c),
        is_ruby_part(t),
    ensures
        preprocess_spec(a + seq!['{'] + t + seq!['}'] + c) == a + seq!['{'] + t + seq!['}'] + c,
{
    let s = a + seq!['{'] + t + seq!['}'] + c;
    let la = a.len() as int;
    let p = la + 1 + t.len();
    lemma_plain_run(s, 0, la);
    assert(s.subrange(0, la) =~= a);
    lemma_ruby_part_run(s, la + 1, p, false, Seq::empty(), Seq::empty());
    assert(Seq::<char>::empty() + s.subrange(la + 1, p) =~= t);
    let r = ruby_at(s, la);
    assert(r == RubyScan { end: p + 1, depth: 0, has_pipe: false, base: Seq::empty(), reading: t });
    lemma_plain_run(s, p + 1, s.len() as int);
    assert(s.subrange(p + 1, s.len() as int) =~= c);
    assert(preprocess_spec(s) =~= a + seq!['{'] + t + seq!['}'] + c);
}

proof fn lemma_code_run(s: Seq<char>, i: int, k: int)
    requires
        0 <= i <= k <= s.len(),
        forall|j: int| i <= j < k ==> s[j] != '`',
    ensures
        preprocess_from(s, i, true) == s.subrange(i, k) + preprocess_from(s, k, true),
    decreases k - i,
{
    if i < k {
        lemma_code_run(s, i + 1, k);
        assert(s.subrange(i, k) =~= seq![s[i]] + s.subrange(i + 1, k));
    } else {
        assert(s.subrange(i, k) =~= Seq::<char>::empty());
    }
}

/// A code block fenced by three backticks comes out as it went in: ruby, braces and
/// newlines inside it are left alone.
pub proof fn preprocess_keeps_fenced_code(code: Seq<char>)
    requires
        forall|j: int| 0 <= j < code.len() ==> code[j] != '`',
    ensures
        preprocess_spec(repeat_char('`', 3) + code + repeat_char('`', 3)) == repeat_char('`', 3) + code
            + repeat_char('`', 3),
{
    let f = repeat_char('`', 3);
    let s = f + code + f;
    let n = s.len() as int;
    let e: int = 3 + code.len() as int;
    if code.len() == 0 {
        lemma_run_len_exact(s, 0, '`', 6);
        assert(preprocess_from(s, 6, true) == Seq::<char>::empty());
        assert(preprocess_spec(s) =~= f + code + f);
    } else {
        lemma_run_len_exact(s, 0, '`', 3);
        lemma_code_run(s, 3, e);
        assert(s.subrange(3, e) =~= code);
        lemma_run_len_exact(s, e, '`', 3);
        assert(preprocess_from(s, n, false) == Seq::<char>::empty());
        assert(preprocess_spec(s) =~= f + code + f);
    }
}

proof fn lemma_run_len_shift(p: Seq<char>, t: Seq<char>, j: int, c: char)
    requires
        0 <= j <= t.len(),
    ensures
        run_len(p + t, p.len() + j, c) == run_len(t, j, c),
    decreases t.len() - j,
{
    if j < t.len() {
        assert((p + t)[p.len() + j] == t[j]);
        lemma_run_len_shift(p, t, j + 1, c);
    }
}

proof fn lemma_ruby_scan_shift(
    p: Seq<char>,
    t: Seq<char>,
    j: int,
    depth: int,
    has_pipe: bool,
    base: Seq<char>,
    reading: Seq<char>,
)
    requires
        0 <= j <= t.len(),
    ensures
        ({
            let a = ruby_scan(p + t, p.len() + j, depth, has_pipe, base, reading);
            let b = ruby_scan(t, j, depth, has_pipe, base, reading);
            a == RubyScan { end: b.end + p.len(), ..b }
        }),
    decreases t.len() - j,
{
    if j < t.len() {
        let c = t[j];
        assert((p + t)[p.len() + j] == c);
        if c == '{' {
            lemma_ruby_scan_shift(p, t, j + 1, depth + 1, has_pipe, base, reading.push(c));
        } else if c == '}' && depth - 1 == 0 {
        } else if c == '}' {
            lemma_ruby_scan_shift(p, t, j + 1, depth - 1, has_pipe, base, reading.push(c));
        } else if c == '|' && depth == 1 {
            lemma_ruby_scan_shift(p, t, j + 1, depth, true, reading, Seq::empty());
        } else {
            lemma_ruby_scan_shift(p, t, j + 1, depth, has_pipe, base, reading.push(c));
        }
    }
}

/// Preprocessing the tail of a text from a position gives what preprocessing the tail on
/// its own gives from the matching position.
proof fn lemma_preprocess_shift(p: Seq<char>, t: Seq<char>, j: int, in_code: bool)
    requires
        0 <= j <= t.len(),
    ensures
        preprocess_from(p + t, p.len() + j, in_code) == preprocess_from(t, j, in_code),
    decreases t.len() - j,
{
    let s = p + t;
    let i = p.len() + j;
    if j < t.len() {
        let c = t[j];
        assert(s[i] == c);
        if c == '`' {
            lemma_run_len_shift(p, t, j, '`');
            lemma_run_len_bounds(t, j, '`');
            let k = run_len(t, j, '`') as int;
            lemma_preprocess_shift(p, t, j + k, if k >= 3 { !in_code } else { in_code });
        } else if in_code {
            lemma_preprocess_shift(p, t, j + 1, true);
        } else if c == '\n' {
            lemma_run_len_shift(p, t, j, '\n');
            lemma_run_len_bounds(t, j, '\n');
            let k = run_len(t, j, '\n') as int;
            lemma_preprocess_shift(p, t, j + k, false);
        } else if c == '{' {
            lemma_ruby_scan_shift(p, t, j + 1, 1, false, Seq::empty(), Seq::empty());
            lemma_ruby_scan_end(t, j + 1, 1, false, Seq::empty(), Seq::empty());
            let r = ruby_at(t, j);
            lemma_preprocess_shift(p, t, r.end, false);
        } else {
            lemma_preprocess_shift(p, t, j + 1, false);
        }
    }
}

/// A second run of three backticks closes the code fence that the first opened: the code
/// is kept as it is, and what follows the fence is preprocessed as text of its own, with
/// its ruby and its paragraphs.
pub proof fn closing_fence_ends_code(code: Seq<char>, rest: Seq<char>)
    requires
        code.len() > 0,
        forall|j: int| 0 <= j < code.len() ==> code[j] != '`',
        rest.len() == 0 || rest[0] != '`',
    ensures
        preprocess_spec(repeat_char('`', 3) + code + repeat_char('`', 3) + rest) == repeat_char('`', 3)
            + code + repeat_char('`', 3) + preprocess_spec(rest),
{
    let f = repeat_char('`', 3);
    let head = f + code + f;
    let s = head + rest;
    let e: int = 3 + code.len() as int;
    lemma_run_len_exact(s, 0, '`', 3);
    lemma_code_run(s, 3, e);
    assert(s.subrange(3, e) =~= code);
    lemma_run_len_exact(s, e, '`', 3);
    assert(head.len() == e + 3);
    lemma_preprocess_shift(head, rest, 0, false);
    assert(preprocess_spec(s) =~= f + code + f + preprocess_spec(rest));
}

proof fn lemma_punct_text_plain(b: Seq<char>)
    requires
        has_no_punct(b),
    ensures
        punct_text(b) == b,
    decreases b.len(),
{
    if b.len() > 0 {
        lemma_punct_text_plain(b.drop_last());
        assert(b.drop_last().push(b.last()) =~= b);
    }
}

proof fn lemma_wrap_from_plain(s: Seq<char>, i: int, in_tag: bool, buf: Seq<char>)
    requires
        0 <= i <= s.len(),
        has_no_punct(s),
        has_no_punct(buf),
        in_tag ==> buf.len() == 0,
    ensures
        wrap_from(s, i, in_tag, buf) == buf + s.subrange(i, s.len() as int),
    decreases s.len() - i,
{
    if i == s.len() {
        lemma_punct_text_plain(buf);
        assert(buf + s.subrange(i, s.len() as int) =~= buf);
    } else {
        let c = s[i];
        let rest = s.subrange(i + 1, s.len() as int);
        assert(s.subrange(i, s.len() as int) =~= seq![c] + rest);
        if c == '<' {
            lemma_punct_text_plain(buf);
            lemma_wrap_from_plain(s, i + 1, true, Seq::empty());
            assert(Seq::<char>::empty() + rest =~= rest);
            assert(buf + seq!['<'] + rest =~= buf + (seq![c] + rest));
        } else if c == '>' && in_tag {
            lemma_wrap_from_plain(s, i + 1, false, buf);
            assert(buf =~= Seq::<char>::empty());
            assert(seq!['>'] + (buf + rest) =~= buf + (seq![c] + rest));
        } else if !in_tag {
            assert forall|j: int| 0 <= j < buf.push(c).len() implies !is_punct(#[trigger] buf.push(c)[j]) by {
                if j < buf.len() {
                    assert(buf.push(c)[j] == buf[j]);
                }
            }
            lemma_wrap_from_plain(s, i + 1, false, buf.push(c));
            assert(buf.push(c) + rest =~= buf + (seq![c] + rest));
        } else {
            lemma_wrap_from_plain(s, i + 1, true, buf);
            assert(buf =~= Seq::<char>::empty());
            assert(seq![c] + (buf + rest) =~= buf + (seq![c] + rest));
        }
    }
}

/// HTML without a Japanese comma or full stop comes out of punctuation markup unchanged.
pub proof fn wrap_punctuation_keeps_text_without_punct(html: Seq<char>)
    requires
        has_no_punct(html),
    ensures
        wrap_punctuation_spec(html) == html,
{
    lemma_wrap_from_plain(html, 0, false, Seq::empty());
    assert(Seq::<char>::empty() + html.subrange(0, html.len() as int) =~= html);
}

} // verus!
