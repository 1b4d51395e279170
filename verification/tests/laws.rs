use mdv::parser::DocNode;
use mdv::renderer::code::CodeHighlighter;
use mdv::renderer::inline::soft_wrap_spans;
use mdv::renderer::nodes::render_nodes;
use mdv::renderer::search::apply_search_highlight;
use mdv::renderer::table::{table_borders_are_narrow, truncate_text};
use mdv::renderer::{SpanStyle, StyledLine, StyledSpan};
use mdv::width::str_width;

fn cols(line: &StyledLine) -> usize {
    line.spans.iter().map(|s| str_width(s.content.as_str(), false)).sum()
}

#[test]
fn every_table_line_is_equally_wide() {
    let highlighter = CodeHighlighter::new();
    let nodes = vec![DocNode::Table {
        headers: vec!["Name".to_string(), "Value".to_string(), "Note".to_string()],
        rows: vec![
            vec!["alpha".to_string(), "1".to_string(), "a rather long note that will be cut".to_string()],
            vec!["b".to_string()],
            vec![],
        ],
    }];
    for width in [20u16, 30, 45, 80] {
        let r = render_nodes(&nodes, width, width, &highlighter, false);
        assert_eq!(r.lines.len(), 3 + 3 + 1);
        let first = cols(&r.lines[0]);
        for (i, line) in r.lines.iter().enumerate() {
            assert_eq!(cols(line), first, "width {width}, line {i}: {:?}", line.text());
        }
    }
}

#[test]
fn truncation_keeps_text_that_fits_and_cuts_the_rest() {
    assert_eq!(truncate_text("abc", 5, false), "abc");
    assert_eq!(truncate_text("abc", 3, false), "abc");
    assert_eq!(truncate_text("abcdef", 4, false), "abc…");
    assert_eq!(truncate_text("abcdef", 1, false), "…");
    assert_eq!(truncate_text("abc", 0, false), "");
}

#[test]
fn wrapped_lines_fit_the_width() {
    let spans = vec![
        StyledSpan { content: "The quick brown fox ".to_string(), style: SpanStyle::Text },
        StyledSpan { content: "jumps over the lazy dog and keeps running".to_string(), style: SpanStyle::Bold },
    ];
    for width in 4..30usize {
        let lines = soft_wrap_spans(spans.clone(), width, false);
        assert!(lines.len() > 1);
        for line in &lines {
            assert!(cols(line) <= width, "width {width}: {:?}", line.text());
        }
        let text: String = lines.iter().map(|l| l.text()).collect();
        assert_eq!(text, "The quick brown fox jumps over the lazy dog and keeps running");
    }
}

#[test]
fn wrapping_breaks_at_line_feeds_and_splits_long_words() {
    let spans = vec![StyledSpan { content: "ab\ncdefgh".to_string(), style: SpanStyle::Text }];
    let lines = soft_wrap_spans(spans, 3, false);
    let texts: Vec<String> = lines.iter().map(|l| l.text()).collect();
    assert_eq!(texts, vec!["ab", "cde", "fgh"]);
}

#[test]
fn query_is_normalised_before_matching() {
    let line = StyledLine::from_span("café".to_string(), SpanStyle::Plain);
    let highlighted = apply_search_highlight(vec![line], "e\u{301}", None, 0, None, 0);
    let spans = &highlighted[0].spans;
    assert_eq!(spans.len(), 2);
    assert_eq!(spans[0].content, "caf");
    assert_eq!(spans[1].content, "é");
    assert_eq!(spans[1].style, SpanStyle::SearchMatch);
}

#[test]
fn code_blocks_are_highlighted_by_language() {
    let highlighter = CodeHighlighter::new();
    let nodes = vec![DocNode::CodeBlock { language: Some("rust".to_string()), code: "fn main() {}".to_string() }];
    let r = render_nodes(&nodes, 40, 40, &highlighter, false);
    assert_eq!(r.lines.len(), 3);
    let code_spans: Vec<&StyledSpan> =
        r.lines[1].spans.iter().filter(|s| matches!(s.style, SpanStyle::Code(_))).collect();
    assert!(code_spans.len() > 1, "{:?}", r.lines[1].spans);
    let distinct = code_spans.iter().any(|s| s.style != code_spans[0].style);
    assert!(distinct, "{:?}", r.lines[1].spans);
}

#[test]
fn paragraph_width_zero_is_left_unwrapped() {
    let spans = vec![StyledSpan { content: "one two three".to_string(), style: SpanStyle::Text }];
    let lines = soft_wrap_spans(spans, 0, false);
    assert_eq!(lines.len(), 1);
    assert_eq!(lines[0].text(), "one two three");
}

#[test]
fn viewport_shows_the_same_lines_as_the_whole_document() {
    use_viewport_law();
}

fn use_viewport_law() {
    let highlighter = CodeHighlighter::new();
    let nodes = vec![
        DocNode::Heading { level: 1, text: "Title".to_string() },
        DocNode::Paragraph(vec![mdv::parser::InlineSpan::Text(
            "a paragraph long enough to wrap over several lines at a narrow width".to_string(),
        )]),
        DocNode::Blank,
        DocNode::Rule,
        DocNode::Paragraph(vec![mdv::parser::InlineSpan::Text("end".to_string())]),
    ];
    let width = 20u16;
    let full = render_nodes(&nodes, width, width, &highlighter, false);
    let starts = full.node_line_starts.clone();
    let total = full.lines.len();
    for first in 0..total + 2 {
        for last in first + 1..total + 4 {
            let part = mdv::renderer::nodes::render_viewport(&nodes, &starts, first, last, width, width, &highlighter, false);
            let a = first.min(total);
            let b = last.min(total);
            let expected: Vec<String> = full.lines[a..b].iter().map(|l| l.text()).collect();
            let got: Vec<String> = part.lines.iter().map(|l| l.text()).collect();
            assert_eq!(got, expected, "lines {first}..{last}");
        }
    }
}

#[test]
fn highlighted_pieces_make_up_the_code() {
    let highlighter = CodeHighlighter::new();
    for (language, code) in [("rust", "fn main() {\n    let x = 1;\n}\n"), ("text", "plain\n\nlines"), ("nosuch", "a\nb")] {
        let regions = highlighter.highlight(language, code);
        let joined: String = regions.iter().map(|r| r.text.as_str()).collect();
        assert_eq!(joined, code);
    }
}

#[test]
fn table_borders_are_one_column_wide_outside_cjk_mode() {
    assert!(table_borders_are_narrow(false));
    for border in ["│", "╭", "┬", "╮", "├", "┼", "┤", "╰", "┴", "╯", "─"] {
        assert_eq!(str_width(border, false), 1);
    }
}
