use chronicle::markdown::renderer::{preprocess, render_to_html, wrap_punctuation};

#[test]
fn test_ruby_simple() {
    let out = preprocess("{漢字|かんじ}");
    assert_eq!(out, "<ruby>漢字<rt>かんじ</rt></ruby>");
}

#[test]
fn test_ruby_in_markdown() {
    let md = "これは{日本語|にほんご}の文章です。";
    let expected = "これは<ruby>日本語<rt>にほんご</rt></ruby>の文章です。";
    assert_eq!(preprocess(md), expected);
}

#[test]
fn test_ruby_no_pipe() {
    assert_eq!(preprocess("{ただの波カッコ}"), "{ただの波カッコ}");
}

#[test]
fn test_code_block_skip() {
    let md = "```\n{漢字|かんじ}\n```";
    assert_eq!(preprocess(md), md);
}

#[test]
fn test_single_newline_to_paragraph() {
    let md = "あいうえお\nかきくけこ";
    let out = preprocess(md);
    assert_eq!(out, "あいうえお\n\nかきくけこ");
}

#[test]
fn test_double_newline_stays() {
    let md = "あいうえお\n\nかきくけこ";
    assert_eq!(preprocess(md), md);
}

#[test]
fn test_triple_newline_to_paragraph() {
    let md = "あいうえお\n\n\nかきくけこ";
    let out = preprocess(md);
    assert_eq!(out, "あいうえお\n\nかきくけこ");
}

#[test]
fn test_quadruple_newline_to_paragraph() {
    let md = "あいうえお\n\n\n\nかきくけこ";
    let out = preprocess(md);
    assert_eq!(out, "あいうえお\n\nかきくけこ");
}

#[test]
fn test_newline_in_code_block_preserved() {
    let md = "```\nline1\nline2\n\nline3\n```";
    assert_eq!(preprocess(md), md);
}

#[test]
fn test_wrap_punct_simple() {
    assert_eq!(
        wrap_punctuation("<p>あいうえお。</p>"),
        "<p>あいうえお<span class=\"punct\">。</span></p>"
    );
}

#[test]
fn test_wrap_punct_commma() {
    assert_eq!(
        wrap_punctuation("<p>あ、いうえお。</p>"),
        "<p>あ<span class=\"punct\">、</span>いうえお<span class=\"punct\">。</span></p>"
    );
}

#[test]
fn test_wrap_punct_inside_tag() {
    assert_eq!(
        wrap_punctuation("<p>これは<div>テスト。</div>です。</p>"),
        "<p>これは<div>テスト<span class=\"punct\">。</span></div>です<span class=\"punct\">。</span></p>"
    );
}

#[test]
fn test_wrap_punct_entity_skipped() {
    assert_eq!(
        wrap_punctuation("<p>あ&amp;いう。</p>"),
        "<p>あ&amp;いう<span class=\"punct\">。</span></p>"
    );
}

#[test]
fn test_full_pipeline() {
    let md = "これはテストです。";
    let out = render_to_html(md);
    assert!(out.contains("<span class=\"punct\">。</span>"));
}

#[test]
fn test_hrule_from_dashes() {
    let md = "text\n---\ntext";
    let out = render_to_html(md);
    assert!(out.contains("<hr"));
    assert!(!out.contains("---"));
}

#[test]
fn test_no_hrule_from_blank_lines() {
    let md = "text\n\n\ntext";
    let out = render_to_html(md);
    assert!(!out.contains("<hr"));
}

#[test]
fn test_alphanumeric_not_wrapped() {
    let md = "ABC123";
    let out = render_to_html(md);
    assert!(!out.contains("upright"));
    assert!(!out.contains("punct"));
}

#[test]
fn plain_text_is_not_preprocessed() {
    assert_eq!(preprocess("ただの文章 abc"), "ただの文章 abc");
}

#[test]
fn ruby_between_text() {
    assert_eq!(preprocess("a{b|c}d"), "a<ruby>b<rt>c</rt></ruby>d");
}

#[test]
fn unclosed_and_nested_braces() {
    assert_eq!(preprocess("{abc"), "{abc");
    assert_eq!(preprocess("{a|bc"), "{a|bc");
    assert_eq!(preprocess("{a{b}|c}"), "<ruby>a{b}<rt>c</rt></ruby>");
    assert_eq!(preprocess("{a|b|c}"), "<ruby>b<rt>c</rt></ruby>");
}

#[test]
fn short_backtick_runs_do_not_open_fences() {
    assert_eq!(preprocess("`x`\ny"), "`x`\n\ny");
    assert_eq!(preprocess("````\n\n\n````"), "````\n\n\n````");
}

#[test]
fn text_without_punctuation_is_not_wrapped() {
    assert_eq!(wrap_punctuation("<p>abc</p>"), "<p>abc</p>");
    assert_eq!(wrap_punctuation("a<b。>c"), "a<b。>c");
}

#[test]
fn rendering_uses_markdown() {
    let out = render_to_html("# 見出し\n本文。");
    assert!(out.contains("<h1>見出し</h1>"));
    assert!(out.contains("本文<span class=\"punct\">。</span>"));
}

#[test]
fn fenced_code_is_kept_whole() {
    let text = "```\n{漢字|かんじ}\n\n\n{x}\n```";
    assert_eq!(preprocess(text), text);
    assert_eq!(preprocess("``````"), "``````");
}
