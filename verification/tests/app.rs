use mdv::app::{App, DirEntry, DirView, Focus, Mode, Toast};
use mdv::config::{KeyCode, KeyModifiers, ResolvedKeybindings, ThemeState, CONTROL};
use mdv::keys::{handle_help_key, handle_normal_key, handle_theme_picker_key, normal_key_action, NormalAction};
use mdv::parser::{DocNode, Document, TocEntry};
use mdv::renderer::code::CodeHighlighter;
use mdv::renderer::StyledLine;

fn two_heading_app() -> App {
    let document = Document {
        nodes: vec![
            DocNode::Heading { level: 1, text: "A".to_string() },
            DocNode::Blank,
            DocNode::Heading { level: 2, text: "B".to_string() },
        ],
        toc: vec![
            TocEntry { level: 1, title: "A".to_string(), node_index: 0 },
            TocEntry { level: 2, title: "B".to_string(), node_index: 2 },
        ],
    };
    let node_heights = vec![1usize, 1, 3];
    let node_line_starts = vec![0usize, 1, 2];
    let total_lines = 5;
    App::new(
        "doc.md".to_string(),
        "doc.md".to_string(),
        document,
        vec!["# A".to_string(), "".to_string(), "## B".to_string()],
        node_heights,
        node_line_starts,
        total_lines,
        vec![],
        vec![0, 2],
        25,
        false,
    )
}

#[test]
fn update_render_maps_toc_entries_to_rendered_lines() {
    let mut app = two_heading_app();
    app.content_height = 2;
    let lines: Vec<StyledLine> = (0..5).map(|_| StyledLine::default()).collect();
    app.update_render(lines, vec![], &vec![0, 1, 2]);
    assert_eq!(app.toc_line_indices, vec![0, 2]);
    app.scroll_to(2);
    assert_eq!(app.synced_toc_index(), Some(1));
}

#[test]
fn scrolling_stops_at_both_ends() {
    let mut app = two_heading_app();
    app.content_height = 2;
    assert_eq!(app.max_scroll(), 3);
    app.scroll_down(2);
    assert_eq!(app.scroll, 2);
    app.scroll_down(5);
    assert_eq!(app.scroll, 3);
    app.scroll_up(1);
    assert_eq!(app.scroll, 2);
    app.scroll_up(10);
    assert_eq!(app.scroll, 0);
    app.scroll_bottom();
    assert_eq!(app.scroll, 3);
    app.scroll_top();
    assert_eq!(app.scroll, 0);
}

#[test]
fn scroll_up_undoes_scroll_down() {
    let mut app = two_heading_app();
    app.content_height = 1;
    app.scroll_down(1);
    let before = app.scroll;
    app.scroll_down(2);
    app.scroll_up(2);
    assert_eq!(app.scroll, before);
}

#[test]
fn search_next_and_prev_go_round() {
    let mut app = two_heading_app();
    let highlighter = CodeHighlighter::new();
    app.search_matches = vec![0, 2, 4];
    app.search_dirty = false;
    app.search_current = 2;
    app.search_next(&highlighter);
    assert_eq!(app.search_current, 0);
    app.search_prev(&highlighter);
    assert_eq!(app.search_current, 2);
    app.search_prev(&highlighter);
    assert_eq!(app.search_current, 1);
    app.search_next(&highlighter);
    assert_eq!(app.search_current, 2);
}

#[test]
fn toggles_twice_restore() {
    let mut app = two_heading_app();
    let focus = app.focus;
    app.toggle_focus();
    assert_ne!(app.focus, focus);
    app.toggle_focus();
    assert_eq!(app.focus, focus);
    app.toggle_help();
    assert_eq!(app.mode, Mode::Help);
    app.toggle_help();
    assert_eq!(app.mode, Mode::Normal);
}

#[test]
fn theme_picker_steps_and_cancel() {
    let mut app = two_heading_app();
    app.open_theme_picker(4);
    assert_eq!(app.mode, Mode::ThemePicker);
    assert_eq!(app.move_theme_picker(1, 5), Some(0));
    assert_eq!(app.move_theme_picker(-1, 5), Some(4));
    assert_eq!(app.move_theme_picker(-1, 5), Some(3));
    assert_eq!(app.move_theme_picker(1, 0), None);
    assert_eq!(app.cancel_theme_picker(), Some(4));
    assert_eq!(app.mode, Mode::Normal);
}

#[test]
fn toast_expires_after_its_duration() {
    let toast = Toast::new("TOC hidden", 1500, 1000);
    assert!(!toast.is_expired(1000));
    assert!(!toast.is_expired(2500));
    assert!(toast.is_expired(2501));
    assert!(toast.is_expired(9000));
}

#[test]
fn toc_width_changes_are_bounded_and_announced() {
    let mut app = two_heading_app();
    app.toc_width_pct = 49;
    app.widen_toc(0);
    assert_eq!(app.toc_width_pct, 50);
    app.widen_toc(0);
    assert_eq!(app.toc_width_pct, 50);
    assert_eq!(app.toast.as_ref().map(|t| t.message.clone()), Some("TOC width: 50%".to_string()));
    app.toc_width_pct = 11;
    app.narrow_toc(0);
    assert_eq!(app.toc_width_pct, 10);
    app.narrow_toc(0);
    assert_eq!(app.toc_width_pct, 10);
}

#[test]
fn default_keys_drive_normal_mode() {
    let keys = ResolvedKeybindings::default();
    let none = KeyModifiers::empty();
    let action = |code: KeyCode, m: KeyModifiers| normal_key_action(&keys, false, mdv::app::DirView::FileView, Focus::Content, true, code, m);
    assert_eq!(action(KeyCode::Char('q'), none), NormalAction::Quit);
    assert_eq!(action(KeyCode::Char('j'), none), NormalAction::Down);
    assert_eq!(action(KeyCode::Char('G'), none), NormalAction::Bottom);
    assert_eq!(action(KeyCode::Char('h'), none), NormalAction::FocusToc);
    assert_eq!(action(KeyCode::Char(']'), none), NormalAction::NextHeading);
    assert_eq!(action(KeyCode::Char('j'), KeyModifiers { bits: CONTROL }), NormalAction::Nothing);
    assert_eq!(action(KeyCode::Null, none), NormalAction::Nothing);
}

#[test]
fn handling_keys_changes_the_state() {
    let mut app = two_heading_app();
    app.content_height = 2;
    let keys = ResolvedKeybindings::default();
    let mut themes = ThemeState::new();
    let highlighter = CodeHighlighter::new();
    let none = KeyModifiers::empty();

    let out = handle_normal_key(&mut app, &keys, &themes, KeyCode::Char('j'), none, 0, &highlighter);
    assert!(out.redraw);
    assert_eq!(app.scroll, 1);
    let out = handle_normal_key(&mut app, &keys, &themes, KeyCode::Char('x'), none, 0, &highlighter);
    assert!(!out.redraw);
    assert_eq!(out.open_file, None);

    assert!(handle_normal_key(&mut app, &keys, &themes, KeyCode::Char('?'), none, 0, &highlighter).redraw);
    assert_eq!(app.mode, Mode::Help);
    assert!(handle_help_key(&mut app, &keys, KeyCode::Esc, none));
    assert_eq!(app.mode, Mode::Normal);

    handle_normal_key(&mut app, &keys, &themes, KeyCode::Char('t'), none, 0, &highlighter);
    assert_eq!(app.mode, Mode::ThemePicker);
    assert!(handle_theme_picker_key(&mut app, &keys, &mut themes, KeyCode::Char('j'), none));
    assert_eq!(themes.current_theme_index(), 1);
    assert!(handle_theme_picker_key(&mut app, &keys, &mut themes, KeyCode::Esc, none));
    assert_eq!(themes.current_theme_index(), 0);
    assert_eq!(app.mode, Mode::Normal);

    let out = handle_normal_key(&mut app, &keys, &themes, KeyCode::Char('q'), none, 0, &highlighter);
    assert!(out.redraw);
    assert!(app.quit);
}

#[test]
fn layout_sizes_leave_room_for_borders_and_margin() {
    let mut app = two_heading_app();
    assert!(app.shows_toc_panel());
    app.set_layout(Some(30), 60, 30, 3);
    assert_eq!(app.toc_height, 28);
    assert_eq!(app.content_height, 28);
    assert_eq!(app.content_width, 56);
    assert_eq!(app.full_content_width, 56);
    app.set_layout(None, 1, 1, 0);
    assert_eq!(app.toc_height, 0);
    assert_eq!(app.content_height, 0);
    assert_eq!(app.content_width, 0);
}

#[test]
fn scroll_percent_follows_position() {
    let mut app = two_heading_app();
    app.content_height = 1;
    assert_eq!(app.scroll_percent(), 0);
    app.scroll_down(2);
    assert_eq!(app.scroll_percent(), 40);
    app.scroll_bottom();
    assert_eq!(app.scroll_percent(), 80);
}

#[test]
fn visible_lines_mark_the_query() {
    let mut app = two_heading_app();
    let highlighter = CodeHighlighter::new();
    app.content_width = 40;
    app.full_content_width = 40;
    app.content_height = 5;
    assert!(app.ensure_viewport_rendered(40, 40, &highlighter));
    let plain = app.visible_lines(5, &highlighter);
    assert_eq!(plain.len(), 3);
    assert_eq!(plain[2].text(), "## B");
    app.search_query = "b".to_string();
    let marked = app.visible_lines(2, &highlighter);
    assert_eq!(marked.len(), 2);
    assert_eq!(marked[0].text(), "# A");
    app.content_height = 1;
    app.scroll_to(2);
    assert_eq!(app.scroll, 2);
    let marked = app.visible_lines(2, &highlighter);
    assert_eq!(marked.len(), 1);
    assert!(marked[0].spans.iter().any(|s| s.style == mdv::renderer::SpanStyle::SearchMatch && s.content == "B"));
}

#[test]
fn remeasuring_follows_the_width() {
    let document = mdv::parser::parse("# A long heading that wraps\n\nSome text here.\n");
    let measured = mdv::app::measure_document(&document, 80, false).unwrap();
    let mut app = App::new(
        "x.md".to_string(),
        "x.md".to_string(),
        document,
        vec![],
        measured.node_heights,
        measured.node_line_starts,
        measured.total_content_lines,
        vec![],
        measured.toc_line_indices,
        25,
        false,
    );
    let highlighter = CodeHighlighter::new();
    let wide = mdv::renderer::nodes::render_nodes(&app.document.nodes, 80, 80, &highlighter, false);
    assert_eq!(app.total_lines(), wide.lines.len());
    assert!(app.remeasure(10));
    let narrow = mdv::renderer::nodes::render_nodes(&app.document.nodes, 10, 10, &highlighter, false);
    assert!(narrow.lines.len() > wide.lines.len());
    assert_eq!(app.total_lines(), narrow.lines.len());
    assert_eq!(app.node_line_starts, narrow.node_line_starts);
}

#[test]
fn theme_picker_previews_round_and_ignores_other_keys() {
    let mut app = two_heading_app();
    let keys = ResolvedKeybindings::default();
    let mut themes = ThemeState::new();
    let none = KeyModifiers::empty();
    app.open_theme_picker(themes.current_theme_index());
    assert_eq!(app.theme_picker_origin, Some(0));
    assert!(handle_theme_picker_key(&mut app, &keys, &mut themes, KeyCode::Char('k'), none));
    assert_eq!(app.theme_picker_index, 4);
    assert_eq!(themes.current_theme_index(), 4);
    assert_eq!(app.theme_picker_origin, Some(0));
    assert!(!handle_theme_picker_key(&mut app, &keys, &mut themes, KeyCode::Char('x'), none));
    assert_eq!(themes.current_theme_index(), 4);
    assert!(handle_theme_picker_key(&mut app, &keys, &mut themes, KeyCode::Char('q'), none));
    assert_eq!(themes.current_theme_index(), 0);
    assert_eq!(app.mode, Mode::Normal);
}

#[test]
fn opening_a_file_from_the_list_needs_its_text_once() {
    let files = vec![DirEntry { path: "/d/a.md".to_string(), display_name: "a.md".to_string(), depth: 0, modified: 1 }];
    let mut app = App::new_directory_mode("/d".to_string(), "d".to_string(), files, 25, false);
    app.content_width = 40;
    assert!(!app.open_file_from_dir(1, Some("# A")));
    assert!(!app.open_file_from_dir(0, None));
    assert_eq!(app.dir_view, DirView::FileList);
    assert!(app.open_file_from_dir(0, Some("# A\n\ntext")));
    assert_eq!(app.dir_view, DirView::FileView);
    assert_eq!(app.file_name, "a.md");
    app.return_to_file_list();
    assert!(app.open_file_from_dir(0, None));
}

#[test]
fn viewport_is_reused_until_it_no_longer_covers_the_screen() {
    let mut app = two_heading_app();
    let highlighter = CodeHighlighter::new();
    app.content_height = 1;
    app.scroll = 1;
    assert!(app.ensure_viewport_rendered(40, 40, &highlighter));
    assert_eq!(app.get_viewport_scroll(), 0);
    assert!(!app.ensure_viewport_rendered(40, 40, &highlighter));
    app.scroll = 2;
    assert!(!app.ensure_viewport_rendered(40, 40, &highlighter));
    app.mark_viewport_dirty();
    assert!(app.ensure_viewport_rendered(40, 40, &highlighter));
    assert!(!app.ensure_viewport_rendered(40, 40, &highlighter));
}

#[test]
fn kept_files_stay_within_the_limit_and_keep_the_open_one() {
    let files: Vec<DirEntry> = (0..40)
        .map(|i| DirEntry {
            path: format!("/d/{}.md", i),
            display_name: format!("{}.md", i),
            depth: 0,
            modified: 1,
        })
        .collect();
    let mut app = App::new_directory_mode("/d".to_string(), "d".to_string(), files, 25, false);
    app.content_width = 40;
    for i in 0..40 {
        let text = format!("# File {}\n\nbody", i);
        assert!(app.open_file_from_dir(i, Some(text.as_str())));
        assert!(app.file_cache.len() <= 32);
        assert!(app.is_file_cached(i));
        app.return_to_file_list();
    }
    assert_eq!(app.file_cache.len(), 32);
    // The oldest files were dropped, the newest kept.
    assert!(!app.is_file_cached(0));
    assert!(app.is_file_cached(39));
    assert!(!app.open_file_from_dir(0, None));
}

#[test]
fn rendered_line_text_is_lowercased_and_absent_past_the_end() {
    let mut app = two_heading_app();
    let highlighter = CodeHighlighter::new();
    let first = app.rendered_line_text_lower(0, &highlighter).expect("the first line is rendered");
    assert!(first.contains('a'));
    assert!(!first.contains('A'));
    assert_eq!(first, first.to_lowercase());
    assert_eq!(app.rendered_line_text_lower(1000, &highlighter), None);
}

#[test]
fn reopening_a_file_restores_where_it_was_scrolled_to() {
    let files = vec![
        DirEntry { path: "/d/a.md".to_string(), display_name: "a.md".to_string(), depth: 0, modified: 2 },
        DirEntry { path: "/d/b.md".to_string(), display_name: "b.md".to_string(), depth: 0, modified: 1 },
    ];
    let mut app = App::new_directory_mode("/d".to_string(), "d".to_string(), files, 25, false);
    app.content_width = 40;
    app.content_height = 5;
    let long: String = (0..40).map(|i| format!("line {}\n\n", i)).collect();
    assert!(app.open_file_from_dir(0, Some(long.as_str())));
    assert!(app.max_scroll() >= 7);
    app.scroll_to(7);
    app.return_to_file_list();
    assert!(app.open_file_from_dir(1, Some(long.as_str())));
    assert_eq!(app.scroll, 0);
    app.return_to_file_list();
    assert!(app.open_file_from_dir(0, None));
    assert_eq!(app.scroll, 7);
    assert_eq!(app.dir_view, DirView::FileView);
}

#[test]
fn a_finished_search_scrolls_to_the_current_match() {
    let files = vec![DirEntry { path: "/d/a.md".to_string(), display_name: "a.md".to_string(), depth: 0, modified: 1 }];
    let mut app = App::new_directory_mode("/d".to_string(), "d".to_string(), files, 25, false);
    app.content_width = 40;
    app.content_height = 5;
    let mut text: String = (0..30).map(|i| format!("line {}\n\n", i)).collect();
    text.push_str("needle\n\n");
    text.push_str(&(0..30).map(|i| format!("more {}\n\n", i)).collect::<String>());
    assert!(app.open_file_from_dir(0, Some(text.as_str())));
    let highlighter = CodeHighlighter::new();
    app.start_search();
    for c in "needle".chars() {
        app.search_push(c, 0);
    }
    assert!(app.run_pending_search(u64::MAX, &highlighter));
    assert_eq!(app.search_matches.len(), 1);
    assert_eq!(app.scroll, app.search_matches[0].min(app.max_scroll()));
    assert!(app.scroll > 0);
    assert!(!app.run_pending_search(u64::MAX, &highlighter));
    app.scroll_to(0);
    app.search_confirm(&highlighter);
    assert_eq!(app.mode, Mode::Normal);
    assert_eq!(app.scroll, app.search_matches[0].min(app.max_scroll()));
}

#[test]
fn reopening_a_kept_file_shows_its_own_document() {
    let files = vec![
        DirEntry { path: "/d/a.md".to_string(), display_name: "a.md".to_string(), depth: 0, modified: 2 },
        DirEntry { path: "/d/b.md".to_string(), display_name: "b.md".to_string(), depth: 0, modified: 1 },
    ];
    let mut app = App::new_directory_mode("/d".to_string(), "d".to_string(), files, 25, false);
    app.content_width = 40;
    assert!(app.open_file_from_dir(0, Some("# A\n\none\n\ntwo\n\nthree")));
    let a_lines = app.total_content_lines;
    let a_nodes = app.document.nodes.len();
    app.return_to_file_list();
    assert!(app.open_file_from_dir(1, Some("# B")));
    assert_ne!(app.total_content_lines, a_lines);
    app.return_to_file_list();
    assert!(app.open_file_from_dir(0, None));
    assert_eq!(app.total_content_lines, a_lines);
    assert_eq!(app.document.nodes.len(), a_nodes);
    assert_eq!(app.node_line_starts.len(), a_nodes);
    assert_eq!(app.document.toc[0].title, "A");
}
