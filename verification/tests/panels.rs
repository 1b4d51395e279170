use mdv::app::{App, Focus, Mode};
use mdv::config::{KeyBinding, KeyCode, KeyModifiers, KeybindingsConfig, ResolvedKeybindings, CONTROL};
use mdv::panels::{
    files_found, first_run_hint, focus_label, help_entries, help_layout, highlight_file_name, key_cell, mode_label,
    picker_box, picker_hint, picker_rows, search_hint, status_right, toast_box, Area, ImageSlot, NamePiece, RowStyle,
    CONTENT_MARGIN,
};
use mdv::parser::{DocNode, Document, TocEntry};

fn two_heading_app() -> App {
    let document = Document {
        nodes: vec![
            DocNode::Heading { level: 1, text: "A".to_string() },
            DocNode::Blank,
            DocNode::Heading { level: 2, text: "B".to_string() },
        ],
        toc: vec![
            TocEntry { level: 1, title: "A".to_string(), node_index: 0 },
            TocEntry { level: 2, title: "B".to_string(), node_index: 2 },
        ],
    };
    App::new(
        "doc.md".to_string(),
        "doc.md".to_string(),
        document,
        vec!["# A".to_string(), "".to_string(), "## B".to_string()],
        vec![1usize, 1, 3],
        vec![0usize, 1, 2],
        5,
        vec![],
        vec![0, 2],
        25,
        false,
    )
}

#[test]
fn status_bar_names_mode_and_focus() {
    assert_eq!(mode_label(false, Mode::Normal), " NORMAL ");
    assert_eq!(mode_label(false, Mode::ThemePicker), " THEME  ");
    assert_eq!(mode_label(true, Mode::Help), " DIR ");
    assert_eq!(focus_label(Focus::Toc), "  TOC ");
    assert_eq!(focus_label(Focus::Content), "  Content ");
}

#[test]
fn status_bar_shows_search_only_with_a_query() {
    assert_eq!(search_hint("foo", 3), " /foo (3 matches) ");
    assert_eq!(search_hint("", 3), "");
    assert_eq!(search_hint("x", 120), " /x (120 matches) ");
}

#[test]
fn status_bar_lists_default_keys_theme_and_percent() {
    let keys = ResolvedKeybindings::default();
    assert_eq!(
        status_right(&keys, "Nord", 42),
        " q:quit  ?:help  /:search  s:toc  h/l:focus  k/j:scroll  t:theme(Nord)  42% "
    );
}

#[test]
fn status_bar_names_modified_keys() {
    let mut keys = ResolvedKeybindings::default();
    keys.quit = KeyBinding { code: KeyCode::Char('c'), modifiers: KeyModifiers { bits: CONTROL } };
    assert!(status_right(&keys, "Nord", 0).starts_with(" C-c:quit  "));
}

#[test]
fn status_bar_fills_the_screen_width() {
    let app = two_heading_app();
    let keys = ResolvedKeybindings::default();
    let bar = app.status_bar(&keys, "Nord", 200);
    assert_eq!(bar.mode, " NORMAL ");
    assert_eq!(bar.focus, "  Content ");
    assert_eq!(bar.search, "");
    assert!(bar.right.ends_with("t:theme(Nord)  0% "));
    let used = bar.mode.chars().count() + bar.focus.chars().count() + bar.search.chars().count()
        + bar.right.chars().count();
    assert_eq!(used + bar.gap, 200);
    let narrow = app.status_bar(&keys, "Nord", 10);
    assert_eq!(narrow.gap, 0);
}

#[test]
fn status_bar_percent_follows_scroll() {
    let mut app = two_heading_app();
    app.scroll = 2;
    let bar = app.status_bar(&ResolvedKeybindings::default(), "Nord", 120);
    assert!(bar.right.ends_with("  40% "));
}

#[test]
fn help_lists_twenty_entries_in_order() {
    let entries = help_entries(&ResolvedKeybindings::default());
    assert_eq!(entries.len(), 20);
    assert_eq!(entries[0].key, "j");
    assert_eq!(entries[0].action, "Scroll down");
    assert_eq!(entries[8].key, "Enter");
    assert_eq!(entries[8].action, "Jump to TOC entry");
    assert_eq!(entries[12].key, "< / >");
    assert_eq!(entries[19].key, "Esc");
    assert_eq!(entries[19].action, "Cancel / Close");
}

#[test]
fn help_box_is_centred_and_at_least_fifty_wide() {
    let help = help_layout(&ResolvedKeybindings::default(), 100, 40, false);
    assert_eq!(help.key_width, 5);
    assert_eq!(help.rows, 10);
    assert_eq!(help.area, Area { x: 25, y: 13, width: 50, height: 14 });
}

#[test]
fn help_box_stays_on_a_small_screen() {
    let help = help_layout(&ResolvedKeybindings::default(), 40, 10, false);
    assert_eq!(help.area, Area { x: 0, y: 0, width: 40, height: 10 });
}

#[test]
fn help_keys_are_right_aligned() {
    assert_eq!(key_cell("j", 5), "    j  ");
    assert_eq!(key_cell("Enter", 5), "Enter  ");
    assert_eq!(key_cell("toolong", 3), "toolong  ");
}

#[test]
fn side_panel_marks_cursor_and_synced_heading() {
    let mut app = two_heading_app();
    app.focus = Focus::Toc;
    let panel = app.side_panel(10);
    assert_eq!(panel.title, " 📑 TOC ");
    assert_eq!(panel.rows.len(), 2);
    assert_eq!(panel.rows[0].text, "▌ A");
    assert_eq!(panel.rows[0].style, RowStyle::Selected);
    assert_eq!(panel.rows[1].text, "  ▎ B");
    assert_eq!(panel.rows[1].style, RowStyle::Heading(2));
    assert_eq!(panel.selected, 0);

    app.focus = Focus::Content;
    let panel = app.side_panel(1);
    assert_eq!(panel.rows.len(), 1);
    assert_eq!(panel.rows[0].style, RowStyle::Synced);
}

#[test]
fn content_title_counts_matches() {
    let mut app = two_heading_app();
    assert_eq!(app.content_title(), "  doc.md ");
    app.search_matches = vec![1, 3];
    app.search_current = 1;
    assert_eq!(app.content_title(), "  doc.md  2/2 ");
}

#[test]
fn images_show_where_their_line_is_on_screen() {
    let mut app = two_heading_app();
    app.image_positions = vec![
        (1, "a.png".to_string(), String::new()),
        (15, "b.png".to_string(), String::new()),
        (30, "c.png".to_string(), String::new()),
    ];
    let slots = app.image_slots(20);
    assert_eq!(
        slots,
        vec![ImageSlot { index: 0, row: 1, height: 10 }, ImageSlot { index: 1, row: 15, height: 5 }]
    );
    app.scroll = 2;
    assert_eq!(app.image_slots(20), vec![ImageSlot { index: 1, row: 13, height: 7 }]);
}

#[test]
fn directory_welcome_counts_files() {
    assert_eq!(files_found(3), "  3 markdown file(s) found  ");
}

#[test]
fn theme_picker_hint_uses_configured_names() {
    let hint = picker_hint(&KeybindingsConfig::default());
    assert_eq!(hint.move_keys, "j/k");
    assert_eq!(hint.cancel_keys, "Esc/t/q");
    assert_eq!(hint.line, "j/k or ↑/↓ move   Enter confirm   Esc/t/q cancel");
    let w = hint.line.chars().count() as u16;
    let area = picker_box(&hint.line, Area { x: 0, y: 0, width: 100, height: 40 }, false);
    assert_eq!(area, Area { x: (100 - (w + 4)) / 2, y: 14, width: w + 4, height: 12 });
    let small = picker_box(&hint.line, Area { x: 0, y: 0, width: 20, height: 5 }, false);
    assert_eq!(small, Area { x: 0, y: 0, width: 20, height: 5 });
}

#[test]
fn theme_picker_marks_the_chosen_theme() {
    let rows = picker_rows(1);
    assert_eq!(rows.len(), 5);
    assert_eq!(rows[0].text, "  Catppuccin Mocha");
    assert_eq!(rows[0].style, RowStyle::Plain);
    assert_eq!(rows[1].text, "› Nord");
    assert_eq!(rows[1].style, RowStyle::Selected);
}

#[test]
fn toast_and_hint_boxes() {
    let screen = Area { x: 0, y: 0, width: 80, height: 24 };
    assert_eq!(toast_box("Hi", screen, false), Area { x: 30, y: 18, width: 20, height: 3 });
    let long = "x".repeat(40);
    assert_eq!(toast_box(&long, screen, false), Area { x: 17, y: 18, width: 46, height: 3 });
    let (hint, area) = first_run_hint(screen, false);
    assert_eq!(hint, "? for help");
    assert_eq!(area, Area { x: 65, y: 21, width: 14, height: 1 });
}

fn pieces(v: Option<Vec<NamePiece>>) -> Option<Vec<(String, bool)>> {
    v.map(|ps| ps.into_iter().map(|p| (p.text, p.matched)).collect())
}

fn owned(v: &[(&str, bool)]) -> Option<Vec<(String, bool)>> {
    Some(v.iter().map(|(t, m)| (t.to_string(), *m)).collect())
}

#[test]
fn file_names_mark_matches_case_insensitively() {
    assert_eq!(
        pieces(highlight_file_name("  ", "README.md", "read")),
        owned(&[("  ", false), ("READ", true), ("ME.md", false)])
    );
    assert_eq!(
        pieces(highlight_file_name("", "abab.md", "ab")),
        owned(&[("", false), ("ab", true), ("ab", true), (".md", false)])
    );
    assert_eq!(pieces(highlight_file_name("", "aaa", "aa")), owned(&[("", false), ("aa", true), ("a", false)]));
    assert_eq!(pieces(highlight_file_name("", "notes.md", "x")), owned(&[("", false), ("notes.md", false)]));
}

#[test]
fn file_names_without_query_are_whole() {
    assert_eq!(pieces(highlight_file_name("    ", "notes.md", "")), owned(&[("    ", false), ("notes.md", false)]));
}

#[test]
fn file_names_whose_lowercase_grows_past_a_match_are_refused() {
    assert_eq!(pieces(highlight_file_name("", "\u{130}", "i\u{307}")), None);
    assert_eq!(
        pieces(highlight_file_name("", "\u{130}x", "x")),
        None
    );
}

#[test]
fn images_near_the_screen_are_loaded() {
    let mut app = two_heading_app();
    app.content_height = 10;
    app.scroll = 40;
    app.image_positions = vec![
        (5, "a.png".to_string(), String::new()),
        (20, "b.png".to_string(), String::new()),
        (70, "c.png".to_string(), String::new()),
        (71, "d.png".to_string(), String::new()),
    ];
    assert_eq!(app.images_to_load(), vec![1, 2]);
    app.directory_mode = true;
    assert!(app.images_to_load().is_empty());
}

#[test]
fn layout_puts_status_last_and_toc_on_the_left() {
    let mut app = two_heading_app();
    let layout = app.calculate_layout(Area { x: 0, y: 0, width: 100, height: 30 }, CONTENT_MARGIN);
    assert_eq!(layout.status, Area { x: 0, y: 29, width: 100, height: 1 });
    assert_eq!(layout.toc, Some(Area { x: 0, y: 0, width: 25, height: 29 }));
    assert_eq!(layout.content, Area { x: 25, y: 0, width: 75, height: 29 });
    assert_eq!(app.toc_height, 27);
    assert_eq!(app.content_height, 27);
    assert_eq!(app.content_width, 71);

    app.show_toc = false;
    let layout = app.calculate_layout(Area { x: 0, y: 0, width: 100, height: 30 }, CONTENT_MARGIN);
    assert_eq!(layout.toc, None);
    assert_eq!(layout.content, Area { x: 0, y: 0, width: 100, height: 29 });
    assert_eq!(app.toc_height, 0);
    assert_eq!(app.content_width, 96);
}
