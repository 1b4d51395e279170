use mdv::renderer::search::{align_strings, apply_search_highlight, SearchMatch};
use mdv::renderer::{SpanStyle, StyledLine};

fn raw(text: &str) -> StyledLine {
    StyledLine::from_span(text.to_string(), SpanStyle::Plain)
}

#[test]
fn test_empty_query() {
    let line = raw("Hello World");
    let highlighted = apply_search_highlight(vec![line.clone()], "", None, 0, None, 0);
    assert_eq!(highlighted[0], line);
}

#[test]
fn test_no_matches() {
    let line = raw("Hello World");
    let highlighted = apply_search_highlight(vec![line.clone()], "XYZ", None, 0, None, 0);
    assert_eq!(highlighted[0], line);
}

#[test]
fn test_basic_match() {
    let highlighted = apply_search_highlight(vec![raw("Hello World")], "World", None, 0, None, 0);
    let spans = &highlighted[0].spans;
    assert_eq!(spans.len(), 2);
    assert_eq!(spans[0].content, "Hello ");
    assert_eq!(spans[1].content, "World");
    assert_eq!(spans[1].style, SpanStyle::SearchMatch);
}

#[test]
fn test_case_insensitive_match() {
    let highlighted = apply_search_highlight(vec![raw("Hello World")], "world", None, 0, None, 0);
    let spans = &highlighted[0].spans;
    assert_eq!(spans.len(), 2);
    assert_eq!(spans[0].content, "Hello ");
    assert_eq!(spans[1].content, "World");
}

#[test]
fn test_multiple_matches() {
    let highlighted = apply_search_highlight(vec![raw("aba")], "a", None, 0, None, 0);
    let spans = &highlighted[0].spans;
    assert_eq!(spans.len(), 3);
    assert_eq!(spans[0].content, "a");
    assert_eq!(spans[0].style, SpanStyle::SearchMatch);
    assert_eq!(spans[1].content, "b");
    assert_eq!(spans[1].style, SpanStyle::Plain);
    assert_eq!(spans[2].content, "a");
    assert_eq!(spans[2].style, SpanStyle::SearchMatch);
}

#[test]
fn test_kelvin_panic_prevention() {
    let line = raw("A\u{212A}B");
    let byte_map = align_strings("a k b", "a k b");
    println!("byte_map: {:?}", byte_map);
    let highlighted = apply_search_highlight(vec![line], "k", None, 0, None, 0);
    let spans = &highlighted[0].spans;
    println!("spans: {:?}", spans);
    assert_eq!(spans.len(), 3);
    assert_eq!(spans[0].content, "A");
    assert_eq!(spans[1].content, "\u{212A}");
    assert_eq!(spans[1].style, SpanStyle::SearchMatch);
    assert_eq!(spans[2].content, "B");
}

#[test]
fn test_cjk_search_highlight() {
    let highlighted = apply_search_highlight(vec![raw("车规")], "规", None, 0, None, 0);
    let spans = &highlighted[0].spans;
    assert_eq!(spans.len(), 2);
    assert_eq!(spans[0].content, "车");
    assert_eq!(spans[1].content, "规");
    assert_eq!(spans[1].style, SpanStyle::SearchMatch);
}

#[test]
fn current_match_gets_its_own_style() {
    let current = SearchMatch { line_idx: 4, start_byte: 2, end_byte: 3 };
    let highlighted = apply_search_highlight(vec![raw("aba")], "a", Some(current), 4, None, 0);
    let spans = &highlighted[0].spans;
    assert_eq!(spans.len(), 3);
    assert_eq!(spans[0].style, SpanStyle::SearchMatch);
    assert_eq!(spans[2].content, "a");
    assert_eq!(spans[2].style, SpanStyle::SearchCurrent);
}

#[test]
fn uppercase_query_matches_case_sensitively() {
    let highlighted = apply_search_highlight(vec![raw("world World")], "World", None, 0, None, 0);
    let spans = &highlighted[0].spans;
    assert_eq!(spans.len(), 2);
    assert_eq!(spans[0].content, "world ");
    assert_eq!(spans[0].style, SpanStyle::Plain);
    assert_eq!(spans[1].content, "World");
    assert_eq!(spans[1].style, SpanStyle::SearchMatch);
}

#[test]
fn highlighting_keeps_the_text_of_a_line() {
    let mut line = StyledLine::from_span("Say ".to_string(), SpanStyle::Bold);
    line.spans.push(mdv::renderer::StyledSpan { content: "hello to hello".to_string(), style: SpanStyle::Text });
    let highlighted = apply_search_highlight(vec![line.clone()], "hello", None, 0, None, 0);
    assert_eq!(highlighted[0].text(), line.text());
    let styles: Vec<SpanStyle> = highlighted[0].spans.iter().map(|s| s.style).collect();
    assert_eq!(
        styles,
        vec![SpanStyle::Bold, SpanStyle::SearchMatch, SpanStyle::Text, SpanStyle::SearchMatch]
    );
}

#[test]
fn align_strings_maps_each_byte() {
    let map = align_strings("abc", "abc");
    assert_eq!(map, vec![0, 1, 2, 3]);
}
