use mdv::parser::{parse, DocNode, InlineSpan};
use mdv::renderer::code::CodeHighlighter;
use mdv::renderer::measure::{compute_line_starts, measure_node_height, measure_nodes};
use mdv::renderer::nodes::{render_nodes, render_viewport, RenderResult};
use mdv::renderer::table::truncate_text;
use mdv::renderer::{StyledLine, IMAGE_RENDER_HEIGHT};
use mdv::width::{char_width, str_width};
use ratatui::buffer::Buffer;
use ratatui::layout::Rect;
use ratatui::text::{Line, Span, Text};
use ratatui::widgets::{Paragraph, Widget, Wrap};

fn render(nodes: Vec<DocNode>, width: u16) -> RenderResult {
    let highlighter = CodeHighlighter::new();
    render_nodes(&nodes, width, width, &highlighter, false)
}

fn line_cols(line: &StyledLine) -> usize {
    line.spans
        .iter()
        .map(|s| unicode_width::UnicodeWidthStr::width(s.content.as_str()))
        .sum()
}

fn reserves_space_for_images_case() {
    let rendered = render(
        vec![DocNode::Image { src: "img.png".to_string(), alt: "alt".to_string() }],
        80,
    );
    assert_eq!(rendered.image_positions[0].0, 0);
    assert_eq!(rendered.lines.len(), IMAGE_RENDER_HEIGHT);
}

#[test]
fn renderer_reserves_space_for_images() {
    reserves_space_for_images_case();
}

#[test]
fn tests_reserves_space_for_images() {
    reserves_space_for_images_case();
}

fn tracks_line_starts_case() {
    let rendered = render(
        vec![
            DocNode::Heading { level: 1, text: "Heading".to_string() },
            DocNode::Blank,
            DocNode::CodeBlock { language: None, code: "a\nb\n".to_string() },
        ],
        40,
    );
    assert_eq!(rendered.node_line_starts, vec![0, 1, 2]);
}

#[test]
fn renderer_tracks_rendered_line_start_per_node() {
    tracks_line_starts_case();
}

#[test]
fn tests_tracks_rendered_line_start_per_node() {
    tracks_line_starts_case();
}

fn quoted_nodes() -> Vec<DocNode> {
    vec![DocNode::BlockQuote(vec![
        DocNode::Heading { level: 2, text: "Quoted".to_string() },
        DocNode::Blank,
        DocNode::Image { src: "img.png".to_string(), alt: "diagram".to_string() },
    ])]
}

#[test]
fn renderer_keeps_blockquote_images_and_headings_rendered() {
    let rendered = render(quoted_nodes(), 40);
    assert!(rendered.lines[1].spans.iter().any(|span| span.content.contains("Quoted")));
    assert_eq!(rendered.image_positions.len(), 1);
}

#[test]
fn tests_keeps_blockquote_images_and_headings_rendered() {
    let rendered = render(quoted_nodes(), 40);
    assert!(rendered.lines[1].spans.iter().any(|span| span.content.contains("Quoted")));
    assert_eq!(rendered.image_positions.len(), 1);
    assert_eq!(rendered.image_positions[0].0, 3);
}

fn wraps_cjk_case() {
    let rendered = render(
        vec![DocNode::Paragraph(vec![InlineSpan::Text("你好世界".to_string())])],
        4,
    );
    assert!(rendered.lines.len() >= 2);
}

#[test]
fn renderer_wraps_cjk_text_by_display_width() {
    wraps_cjk_case();
}

#[test]
fn tests_wraps_cjk_text_by_display_width() {
    wraps_cjk_case();
}

fn truncates_case() {
    let truncated = truncate_text("你好世界", 3, false);
    assert!(truncated.is_char_boundary(truncated.len()));
    assert_eq!(unicode_width::UnicodeWidthStr::width(truncated.as_str()), 3);
    assert_eq!(truncated, "你…");
}

#[test]
fn renderer_truncates_utf8_text_without_breaking_encoding() {
    truncates_case();
}

#[test]
fn tests_truncates_utf8_text_without_breaking_encoding() {
    truncates_case();
}

fn quote_of_paragraph() -> Vec<DocNode> {
    vec![DocNode::BlockQuote(vec![DocNode::Paragraph(vec![InlineSpan::Text(
        "Hello world".to_string(),
    )])])]
}

fn box_widths_case() {
    let width: u16 = 40;
    let rendered = render(quote_of_paragraph(), width);
    assert_eq!(rendered.lines.len(), 3);
    for (i, line) in rendered.lines.iter().enumerate() {
        assert_eq!(line_cols(line), width as usize, "line {i} width mismatch");
    }
    assert!(rendered.lines[0].spans[0].content.starts_with("╭"));
    assert!(rendered.lines[0].spans[0].content.ends_with("╮"));
    assert!(rendered.lines[2].spans[0].content.starts_with("╰"));
    assert!(rendered.lines[2].spans[0].content.ends_with("╯"));
}

#[test]
fn renderer_blockquote_box_widths_match() {
    box_widths_case();
}

#[test]
fn tests_blockquote_box_widths_match() {
    box_widths_case();
}

fn renders_in_buffer_case() {
    let width: u16 = 40;
    let height: u16 = 5;
    let rendered = render(quote_of_paragraph(), width);
    let lines: Vec<Line> = rendered
        .lines
        .iter()
        .map(|l| Line::from(l.spans.iter().map(|s| Span::raw(s.content.clone())).collect::<Vec<_>>()))
        .collect();

    let area = Rect::new(0, 0, width, height);
    let mut buf = Buffer::empty(area);
    let paragraph = Paragraph::new(Text::from(lines)).wrap(Wrap { trim: false });
    paragraph.render(area, &mut buf);

    for y in 0..height {
        let mut row = String::new();
        let mut x = 0u16;
        while x < width {
            let sym = buf[(x, y)].symbol();
            row.push_str(sym);
            let sw = unicode_width::UnicodeWidthStr::width(sym) as u16;
            x += if sw > 0 { sw } else { 1 };
        }
        println!("row {y}: |{row}|");
    }

    assert_eq!(buf[(0, 0)].symbol(), "╭");
    assert_eq!(buf[(width - 1, 0)].symbol(), "╮");
    assert_eq!(buf[(width - 1, 1)].symbol(), "│");
    assert_eq!(buf[(width - 1, 2)].symbol(), "╯");
}

#[test]
fn renderer_blockquote_renders_in_buffer() {
    renders_in_buffer_case();
}

#[test]
fn tests_blockquote_renders_in_buffer() {
    renders_in_buffer_case();
}

fn table_borders_case() {
    let width: u16 = 100;
    let headers = vec!["作品名称".to_string(), "在线地址".to_string(), "上线日期".to_string()];
    let rows = vec![vec![
        "逍遥自在轩".to_string(),
        "https://niceshare.site".to_string(),
        "2024-04-26".to_string(),
    ]];
    let rendered = render(vec![DocNode::Table { headers, rows }], width);
    for (i, line) in rendered.lines.iter().enumerate() {
        println!("line {i} total_width={} spans={:?}", line_cols(line), line.spans);
    }
    let header_total = line_cols(&rendered.lines[1]);
    let border_total = line_cols(&rendered.lines[0]);
    println!("header_total={}, border_total={}", header_total, border_total);
    assert_eq!(header_total, border_total, "Header row width should match top border width");
}

#[test]
fn renderer_table_borders_align_with_columns() {
    table_borders_case();
}

#[test]
fn tests_table_borders_align_with_columns() {
    table_borders_case();
}

fn joined(r: &RenderResult, sep: &str) -> String {
    r.lines.iter().map(|l| l.text()).collect::<Vec<String>>().join(sep)
}

#[test]
fn renders_code_block_with_and_without_language() {
    let r = render(vec![DocNode::CodeBlock { language: None, code: "echo hi".into() }], 80);
    let combined = joined(&r, "\n");
    assert!(combined.contains("echo hi"), "code content should appear: {combined}");

    let r2 = render(
        vec![DocNode::CodeBlock { language: Some("rust".into()), code: "fn main() {}".into() }],
        80,
    );
    let combined2 = joined(&r2, "\n");
    assert!(combined2.contains("fn main()"), "code content should appear: {combined2}");
}

#[test]
fn renders_unordered_list_items() {
    let nodes = vec![
        DocNode::ListItem {
            depth: 0,
            ordered: false,
            number: None,
            children: vec![InlineSpan::Text("apple".into())],
        },
        DocNode::ListItem {
            depth: 0,
            ordered: false,
            number: None,
            children: vec![InlineSpan::Text("banana".into())],
        },
    ];
    let r = render(nodes, 80);
    let combined = joined(&r, "|");
    assert!(combined.contains("•"), "unordered list should have bullet: {combined}");
    assert!(combined.contains("apple"), "first item: {combined}");
    assert!(combined.contains("banana"), "second item: {combined}");
}

#[test]
fn renders_ordered_list_with_numbers() {
    let nodes = vec![
        DocNode::ListItem {
            depth: 0,
            ordered: true,
            number: Some(1),
            children: vec![InlineSpan::Text("first".into())],
        },
        DocNode::ListItem {
            depth: 0,
            ordered: true,
            number: Some(2),
            children: vec![InlineSpan::Text("second".into())],
        },
    ];
    let r = render(nodes, 80);
    let combined = joined(&r, "|");
    assert!(
        combined.contains("1.") || combined.contains("1 "),
        "ordered list should show number: {combined}"
    );
    assert!(combined.contains("first"), "first item: {combined}");
}

#[test]
fn renders_thematic_break_as_line() {
    let r = render(vec![DocNode::Rule], 40);
    let combined = joined(&r, "\n");
    assert!(!combined.is_empty(), "rule should produce output");
    assert!(
        combined.contains('─') || combined.contains('━'),
        "should have a horizontal line: {combined}"
    );
}

#[test]
fn renders_blank_as_empty_line() {
    let r = render(vec![DocNode::Blank], 80);
    assert!(!r.lines.is_empty(), "blank should produce at least one line");
    let lines_str: Vec<String> = r.lines.iter().map(|l| l.text()).collect();
    assert!(
        lines_str.iter().all(|l| l.trim().is_empty()),
        "blank lines should be empty: {lines_str:?}"
    );
}

#[test]
fn renders_heading_levels() {
    for level in 1..=3u8 {
        let r = render(vec![DocNode::Heading { level, text: format!("Heading {level}") }], 80);
        let combined = joined(&r, "\n");
        assert!(
            combined.contains(&format!("Heading {level}")),
            "heading {level} text should appear: {combined}"
        );
    }
}

#[test]
fn wraps_long_headings() {
    let text = "This is a very long heading that should definitely wrap across multiple lines because the width is very small".to_string();
    let rendered = render(vec![DocNode::Heading { level: 1, text: text.clone() }], 20);
    assert!(rendered.lines.len() > 1, "heading should wrap to multiple lines");
    let height = measure_node_height(&DocNode::Heading { level: 1, text }, 20, false);
    assert_eq!(rendered.lines.len(), height, "measured height should match rendered line count");
}

#[test]
fn render_viewport_only_renders_requested_range() {
    let highlighter = CodeHighlighter::new();
    let nodes = vec![
        DocNode::Heading { level: 1, text: "Line 1".to_string() },
        DocNode::Blank,
        DocNode::Heading { level: 2, text: "Line 3".to_string() },
        DocNode::Blank,
        DocNode::Paragraph(vec![InlineSpan::Text("Line 5".to_string())]),
        DocNode::Blank,
        DocNode::Heading { level: 3, text: "Line 7".to_string() },
    ];
    let node_line_starts = vec![0, 1, 2, 3, 4, 5, 6];

    let full = render_nodes(&nodes, 80, 80, &highlighter, false);
    assert_eq!(full.lines.len(), 7);

    let partial = render_viewport(&nodes, &node_line_starts, 2, 5, 80, 80, &highlighter, false);
    assert_eq!(partial.lines.len(), 3, "should render 3 lines (2, 3, 4)");
    assert!(
        partial.lines[0].text().contains("Line 3"),
        "first rendered line should be 'Line 3': got {:?}",
        partial.lines[0].text()
    );
    assert!(
        partial.lines[2].text().contains("Line 5"),
        "third rendered line should be 'Line 5': got {:?}",
        partial.lines[2].text()
    );

    let beyond = render_viewport(&nodes, &node_line_starts, 5, 20, 80, 80, &highlighter, false);
    assert_eq!(beyond.lines.len(), 2, "only 2 lines remain (5, 6)");
}

#[test]
fn render_viewport_non_trivial_heights() {
    let highlighter = CodeHighlighter::new();
    let nodes = vec![
        DocNode::CodeBlock { language: None, code: "line 1\nline 2\nline 3".to_string() },
        DocNode::Paragraph(vec![InlineSpan::Text("Para line 6".to_string())]),
    ];
    let node_line_starts = vec![0, 5];

    let full = render_nodes(&nodes, 80, 80, &highlighter, false);
    assert_eq!(full.lines.len(), 6);

    let partial = render_viewport(&nodes, &node_line_starts, 2, 6, 80, 80, &highlighter, false);
    assert_eq!(partial.lines.len(), 4);
    assert!(partial.lines[0].text().contains("line 2"));
    assert!(partial.lines[1].text().contains("line 3"));
    assert!(partial.lines[2].text().contains("╯") || partial.lines[2].text().contains("┘"));
    assert_eq!(partial.lines[3].text().trim(), "Para line 6");
}

const ALL_NODE_TYPES: &str = r#"
# Heading 1
## Heading 2 with some longer text to test wrapping behavior at smaller widths

Some paragraph text that contains **bold** and *italic* and `inline code` and a [link](https://example.com).
This paragraph also has a soft break
and a hard break\
at the end of a line.

- Short list item
- Longer list item that will wrap when the width is restricted to a small value
- List item with `inline code` inside it

1. Ordered item 1
2. Ordered item 2 with some more text to wrap

```rust
fn main() {
    println!("Hello, world!");
}
```

```
No language block
```

> Blockquote content
> With multiple lines
> And maybe a heading inside it:
> ### Quoted heading
> And a blank line
>
> Inside blockquote

| Col 1 | Col 2 |
|---|---|
| val 1 | val 2 |
| longer value | another val |

---

![Alt text](img.png)
"#;

#[test]
fn test_all_node_types_height_matches_rendering() {
    let highlighter = CodeHighlighter::new();
    for width in (10..=120).step_by(5) {
        let doc = parse(ALL_NODE_TYPES);
        for (i, node) in doc.nodes.into_iter().enumerate() {
            let measured = measure_node_height(&node, width as u16, false);
            let description = format!("{:?}", node);
            let single = vec![node];
            let rendered = render_nodes(&single, width as u16, width as u16, &highlighter, false)
                .lines
                .len();
            assert_eq!(
                measured, rendered,
                "Width {}: Node at index {} ({}) has mismatched height: measured={}, rendered={}",
                width, i, description, measured, rendered
            );
        }
    }
}

#[test]
fn test_heading_height_mismatch_fuzz() {
    let highlighter = CodeHighlighter::new();
    let words = vec!["word", "longerword", "verylongwordthatmightwrapitself", "a", "b", "c"];
    for level in 1..=6u8 {
        for num_words in 1..20 {
            let mut text = String::new();
            for j in 0..num_words {
                if j > 0 {
                    text.push(' ');
                }
                text.push_str(words[j % words.len()]);
            }
            for width in 5..=150u16 {
                let node = DocNode::Heading { level, text: text.clone() };
                let measured = measure_node_height(&node, width, false);
                let single = vec![node];
                let rendered = render_nodes(&single, width, width, &highlighter, false).lines.len();
                assert_eq!(
                    measured, rendered,
                    "Heading level {}, width {}: text='{}' has mismatched height: measured={}, rendered={}",
                    level, width, text, measured, rendered
                );
            }
        }
    }
}

#[test]
fn test_cumulative_line_starts_match_rendering() {
    let highlighter = CodeHighlighter::new();
    let doc = parse(ALL_NODE_TYPES);
    for width in (10..=120).step_by(5) {
        let node_heights = measure_nodes(&doc.nodes, width as u16, false);
        let computed_starts = compute_line_starts(&node_heights);
        let rendered = render_nodes(&doc.nodes, width as u16, width as u16, &highlighter, false);
        assert_eq!(
            computed_starts, rendered.node_line_starts,
            "Width {}: cumulative line starts mismatched",
            width
        );
        let total_measured = node_heights.iter().sum::<usize>();
        assert_eq!(total_measured, rendered.lines.len(), "Width {}: total height mismatched", width);
    }
}

#[test]
fn test_cjk_width_calculations() {
    assert_eq!(char_width('·', false), 1);
    assert_eq!(char_width('✓', false), 1);
    assert_eq!(char_width('中', false), 2);
    assert_eq!(str_width("2024 · 车规", false), 11);

    assert_eq!(char_width('·', true), 2);
    assert_eq!(char_width('✓', true), 2);
    assert_eq!(char_width('中', true), 2);
    assert_eq!(str_width("2024 · 车规", true), 12);
}

#[test]
fn test_code_block_alignment_cjk() {
    let highlighter = CodeHighlighter::new();
    let code = "2024 · 车规 ✓ |\n     · 沟槽 ✓ |";
    let nodes = vec![DocNode::CodeBlock { language: None, code: code.to_string() }];
    let r = render_nodes(&nodes, 80, 80, &highlighter, true);
    assert_eq!(r.lines.len(), 4);

    let line1 = &r.lines[1];
    let line2 = &r.lines[2];
    let width1: usize = line1.spans.iter().map(|s| str_width(s.content.as_str(), true)).sum();
    let width2: usize = line2.spans.iter().map(|s| str_width(s.content.as_str(), true)).sum();
    assert_eq!(width1, 80);
    assert_eq!(width2, 80);

    let get_bar_pos = |line: &StyledLine| -> usize {
        let mut pos = 0;
        for span in &line.spans {
            if let Some(idx) = span.content.find('|') {
                pos += str_width(&span.content[..idx], true);
                break;
            }
            pos += str_width(span.content.as_str(), true);
        }
        pos
    };
    assert_eq!(get_bar_pos(line1), get_bar_pos(line2), "Vertical bars should align exactly in CJK mode");
}

#[test]
fn code_block_heights_match_rendering_when_lines_wrap() {
    let highlighter = CodeHighlighter::new();
    let codes = [
        "",
        "x",
        "fn main() {\n    let answer = 42;\n}",
        "fn main() {\n    let answer = 42;\n}\n",
        "\n\n",
        "a_very_long_identifier_that_wraps_more_than_once_at_small_widths\nshort\n",
    ];
    for language in [None, Some("rust".to_string()), Some("no-such-language".to_string())] {
        for code in codes {
            for width in 6..=40u16 {
                let node = DocNode::CodeBlock { language: language.clone(), code: code.to_string() };
                let measured = measure_node_height(&node, width, false);
                let rendered = render_nodes(&vec![node], width, width, &highlighter, false).lines.len();
                assert_eq!(measured, rendered, "code {:?} at width {}", code, width);
            }
        }
    }
    let node = DocNode::CodeBlock { language: None, code: "abcdefgh\nij".to_string() };
    // The side borders take three columns, so seven hold four characters a row: two rows
    // for the first line, one for the second, and the top and bottom borders.
    assert_eq!(measure_node_height(&node, 7, false), 5);
}
