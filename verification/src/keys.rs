//! What each key does: the decision for the mode the viewer is in, and carrying it out.
use crate::app::{
    count_at_most, list_top_for, next_match, picker_moved, prev_match, scrolled_down, scrolled_up, toggled_focus,
    toggled_help, App, DirView, Focus, Mode,
};
use crate::config::{
    spec_available_theme, spec_config_of, spec_matches, KeyBinding, KeyCode, KeyModifiers, ResolvedKeybindings,
    ThemeState, AVAILABLE_THEME_COUNT,
};
use crate::themes::spec_theme_colors;
use crate::renderer::code::CodeHighlighter;
use crate::text::{push_char, push_str};
use crate::config::{ALT, CONTROL};
use vstd::prelude::*;

verus! {

/// What a key asks for in normal mode.
#[derive(Clone, Copy, Debug, PartialEq, Eq, Structural)]
pub enum NormalAction {
    Nothing,
    Quit,
    ToggleHelp,
    FocusToc,
    FocusContent,
    ToggleFocus,
    ToggleToc,
    OpenThemePicker,
    NarrowToc,
    WidenToc,
    Down,
    Up,
    PageDown,
    PageUp,
    Top,
    Bottom,
    TocJump,
    NextHeading,
    PrevHeading,
    StartSearch,
    SearchNext,
    SearchPrev,
    ReturnToList,
    DirDown,
    DirUp,
    DirTop,
    DirBottom,
    OpenFile,
}

/// Whether a key is pressed without modifiers.
pub open spec fn bare(modifiers: KeyModifiers) -> bool {
    modifiers.bits == 0
}

/// The action of a key in the file list of directory mode.
pub open spec fn spec_file_list_action(keys: ResolvedKeybindings, code: KeyCode, m: KeyModifiers) -> NormalAction {
    if spec_matches(keys.quit, code, m) {
        NormalAction::Quit
    } else if spec_matches(keys.down, code, m) {
        NormalAction::DirDown
    } else if spec_matches(keys.up, code, m) {
        NormalAction::DirUp
    } else if spec_matches(keys.top, code, m) {
        NormalAction::DirTop
    } else if spec_matches(keys.bottom, code, m) {
        NormalAction::DirBottom
    } else if code == KeyCode::Enter && bare(m) {
        NormalAction::OpenFile
    } else {
        NormalAction::Nothing
    }
}

/// The action of a key when a document is shown; the bindings are tried in a fixed order.
pub open spec fn spec_document_action(
    keys: ResolvedKeybindings,
    focus: Focus,
    show_toc: bool,
    code: KeyCode,
    m: KeyModifiers,
) -> NormalAction {
    if spec_matches(keys.quit, code, m) {
        NormalAction::Quit
    } else if spec_matches(keys.help, code, m) {
        NormalAction::ToggleHelp
    } else if spec_matches(keys.focus_prev, code, m) {
        if focus == Focus::Content && show_toc {
            NormalAction::FocusToc
        } else {
            NormalAction::Nothing
        }
    } else if spec_matches(keys.focus_next, code, m) {
        if focus == Focus::Toc {
            NormalAction::FocusContent
        } else {
            NormalAction::Nothing
        }
    } else if code == KeyCode::Tab && bare(m) {
        NormalAction::ToggleFocus
    } else if spec_matches(keys.toggle_toc, code, m) {
        NormalAction::ToggleToc
    } else if spec_matches(keys.next_theme, code, m) {
        NormalAction::OpenThemePicker
    } else if code == KeyCode::Char('<') && bare(m) {
        NormalAction::NarrowToc
    } else if code == KeyCode::Char('>') && bare(m) {
        NormalAction::WidenToc
    } else if spec_matches(keys.down, code, m) {
        NormalAction::Down
    } else if spec_matches(keys.up, code, m) {
        NormalAction::Up
    } else if spec_matches(keys.page_down, code, m) {
        NormalAction::PageDown
    } else if spec_matches(keys.page_up, code, m) {
        NormalAction::PageUp
    } else if spec_matches(keys.top, code, m) {
        NormalAction::Top
    } else if spec_matches(keys.bottom, code, m) {
        NormalAction::Bottom
    } else if code == KeyCode::Enter && bare(m) {
        if focus == Focus::Toc {
            NormalAction::TocJump
        } else {
            NormalAction::Nothing
        }
    } else if code == KeyCode::Char(']') && bare(m) {
        NormalAction::NextHeading
    } else if code == KeyCode::Char('[') && bare(m) {
        NormalAction::PrevHeading
    } else if spec_matches(keys.search, code, m) {
        NormalAction::StartSearch
    } else if spec_matches(keys.search_next, code, m) {
        NormalAction::SearchNext
    } else if spec_matches(keys.search_prev, code, m) {
        NormalAction::SearchPrev
    } else {
        NormalAction::Nothing
    }
}

/// The action of a key in normal mode: nothing for no key; in the file list of directory
/// mode its list action; in an open file of directory mode, Esc and Backspace go back to
/// the list; otherwise the document action.
pub open spec fn spec_normal_action(
    keys: ResolvedKeybindings,
    directory_mode: bool,
    dir_view: DirView,
    focus: Focus,
    show_toc: bool,
    code: KeyCode,
    m: KeyModifiers,
) -> NormalAction {
    if code == KeyCode::Null {
        NormalAction::Nothing
    } else if directory_mode && dir_view == DirView::FileList {
        spec_file_list_action(keys, code, m)
    } else if directory_mode && (code == KeyCode::Esc || code == KeyCode::Backspace) {
        NormalAction::ReturnToList
    } else {
        spec_document_action(keys, focus, show_toc, code, m)
    }
}

/// The action of a key in normal mode. In the file list of directory mode only quitting,
/// moving through the list and opening a file are bound: the list has no search of its
/// own (its search keys were never given a meaning), so there the search keys do nothing.
pub fn normal_key_action(
    keys: &ResolvedKeybindings,
    directory_mode: bool,
    dir_view: DirView,
    focus: Focus,
    show_toc: bool,
    code: KeyCode,
    modifiers: KeyModifiers,
) -> (a: NormalAction)
    ensures
        a == spec_normal_action(*keys, directory_mode, dir_view, focus, show_toc, code, modifiers),
{
    if code == KeyCode::Null {
        return NormalAction::Nothing;
    }
    let m = modifiers;
    if directory_mode && dir_view == DirView::FileList {
        return if keys.quit.matches(code, m) {
            NormalAction::Quit
        } else if keys.down.matches(code, m) {
            NormalAction::DirDown
        } else if keys.up.matches(code, m) {
            NormalAction::DirUp
        } else if keys.top.matches(code, m) {
            NormalAction::DirTop
        } else if keys.bottom.matches(code, m) {
            NormalAction::DirBottom
        } else if code == KeyCode::Enter && m.is_empty() {
            NormalAction::OpenFile
        } else {
            NormalAction::Nothing
        };
    }
    if directory_mode && (code == KeyCode::Esc || code == KeyCode::Backspace) {
        return NormalAction::ReturnToList;
    }
    if keys.quit.matches(code, m) {
        NormalAction::Quit
    } else if keys.help.matches(code, m) {
        NormalAction::ToggleHelp
    } else if keys.focus_prev.matches(code, m) {
        if focus == Focus::Content && show_toc {
            NormalAction::FocusToc
        } else {
            NormalAction::Nothing
        }
    } else if keys.focus_next.matches(code, m) {
        if focus == Focus::Toc {
            NormalAction::FocusContent
        } else {
            NormalAction::Nothing
        }
    } else if code == KeyCode::Tab && m.is_empty() {
        NormalAction::ToggleFocus
    } else if keys.toggle_toc.matches(code, m) {
        NormalAction::ToggleToc
    } else if keys.next_theme.matches(code, m) {
        NormalAction::OpenThemePicker
    } else if code == KeyCode::Char('<') && m.is_empty() {
        NormalAction::NarrowToc
    } else if code == KeyCode::Char('>') && m.is_empty() {
        NormalAction::WidenToc
    } else if keys.down.matches(code, m) {
        NormalAction::Down
    } else if keys.up.matches(code, m) {
        NormalAction::Up
    } else if keys.page_down.matches(code, m) {
        NormalAction::PageDown
    } else if keys.page_up.matches(code, m) {
        NormalAction::PageUp
    } else if keys.top.matches(code, m) {
        NormalAction::Top
    } else if keys.bottom.matches(code, m) {
        NormalAction::Bottom
    } else if code == KeyCode::Enter && m.is_empty() {
        if focus == Focus::Toc {
            NormalAction::TocJump
        } else {
            NormalAction::Nothing
        }
    } else if code == KeyCode::Char(']') && m.is_empty() {
        NormalAction::NextHeading
    } else if code == KeyCode::Char('[') && m.is_empty() {
        NormalAction::PrevHeading
    } else if keys.search.matches(code, m) {
        NormalAction::StartSearch
    } else if keys.search_next.matches(code, m) {
        NormalAction::SearchNext
    } else if keys.search_prev.matches(code, m) {
        NormalAction::SearchPrev
    } else {
        NormalAction::Nothing
    }
}

/// What handling a key leaves for the caller: whether to redraw, and a file of the list
/// to open (its text must be read first).
#[derive(Clone, Copy, Debug, PartialEq, Eq, Structural)]
pub struct KeyOutcome {
    pub redraw: bool,
    pub open_file: Option<usize>,
}

/// What the viewer needs to carry out key actions.
pub open spec fn ready(app: App) -> bool {
    &&& app.wf()
}

/// `line`, or the last line that can be scrolled to where it lies further down.
pub open spec fn clamped_scroll(a: App, line: int) -> nat {
    if line <= a.spec_max_scroll() {
        line as nat
    } else {
        a.spec_max_scroll()
    }
}

/// Half a screen of `a`, at least one line.
pub open spec fn half_screen(a: App) -> int {
    if a.content_height / 2 >= 1 {
        (a.content_height / 2) as int
    } else {
        1
    }
}

/// The file cursor and the first file shown after moving the cursor to `c`, scrolling
/// only where `c` falls below the rows shown.
pub open spec fn file_moved_down(a: App, c: int) -> (int, int) {
    (c, if c >= a.dir_scroll + a.toc_height { list_top_for(c, a.toc_height as int) } else { a.dir_scroll as int })
}

/// What carrying out `action` does, from `a` to `b`, answering `out`.
pub open spec fn performed(a: App, b: App, action: NormalAction, themes: ThemeState, out: KeyOutcome) -> bool {
    let n = a.dir_files@.len() as int;
    let files = a.directory_mode && n > 0;
    &&& b.wf()
    &&& (action != NormalAction::OpenFile ==> out.open_file is None)
    &&& match action {
        NormalAction::Nothing => b == a && !out.redraw,
        NormalAction::Quit => b.quit && out.redraw,
        NormalAction::OpenFile => b == a && out.open_file == Some(a.dir_cursor) && !out.redraw,
        NormalAction::DirDown => {
            let c = if a.dir_cursor + 1 <= n - 1 { a.dir_cursor + 1 } else { n - 1 };
            &&& (!files ==> b == a)
            &&& (files ==> b.dir_cursor == file_moved_down(a, c).0 && b.dir_scroll == file_moved_down(a, c).1)
            &&& out.redraw == (a.dir_cursor != b.dir_cursor || a.dir_scroll != b.dir_scroll)
        },
        NormalAction::DirUp => {
            let c = if a.dir_cursor > 0 { a.dir_cursor - 1 } else { 0 };
            &&& (!files ==> b == a)
            &&& (files ==> b.dir_cursor == c && b.dir_scroll == (if c < a.dir_scroll { c } else { a.dir_scroll as int }))
            &&& out.redraw == (a.dir_cursor != b.dir_cursor || a.dir_scroll != b.dir_scroll)
        },
        NormalAction::DirTop => b.dir_cursor == 0 && b.dir_scroll == 0
            && out.redraw == (a.dir_cursor != 0 || a.dir_scroll != 0),
        NormalAction::DirBottom => {
            &&& (n == 0 ==> b == a)
            &&& (n > 0 ==> b.dir_cursor == n - 1 && b.dir_scroll == list_top_for(n - 1, a.toc_height as int))
            &&& out.redraw == (a.dir_cursor != b.dir_cursor || a.dir_scroll != b.dir_scroll)
        },
        NormalAction::ReturnToList => (a.directory_mode ==> b.dir_view == DirView::FileList && b.focus == Focus::Toc)
            && (!a.directory_mode ==> b == a) && out.redraw,
        NormalAction::ToggleHelp => b.mode == toggled_help(a.mode) && out.redraw,
        NormalAction::FocusToc => b.focus == Focus::Toc && out.redraw,
        NormalAction::FocusContent => b.focus == Focus::Content && out.redraw,
        NormalAction::ToggleFocus => b.focus == toggled_focus(a.focus) && out.redraw,
        NormalAction::ToggleToc => b.show_toc == !a.show_toc && out.redraw,
        NormalAction::OpenThemePicker => b.mode == Mode::ThemePicker
            && b.theme_picker_index == themes.index % AVAILABLE_THEME_COUNT
            && b.theme_picker_origin == Some((themes.index % AVAILABLE_THEME_COUNT) as usize) && out.redraw,
        NormalAction::NarrowToc => b.toc_width_pct == (if a.toc_width_pct >= 12 { a.toc_width_pct - 2 } else { 10 })
            && out.redraw,
        NormalAction::WidenToc => b.toc_width_pct == (if a.toc_width_pct + 2 <= 50 { a.toc_width_pct + 2 } else { 50 })
            && out.redraw,
        NormalAction::Down => {
            &&& (a.focus == Focus::Content ==> b.scroll == scrolled_down(a.scroll as int, 1, a.spec_max_scroll() as int))
            &&& (a.focus == Focus::Toc && a.toc_cursor + 1 < a.document.toc@.len() ==> b.toc_cursor == a.toc_cursor + 1
                && b.toc_scroll == App::spec_toc_scroll_for((a.toc_cursor + 1) as nat, a.toc_scroll as nat, a.toc_height as nat))
            &&& (a.focus == Focus::Toc && a.toc_cursor + 1 >= a.document.toc@.len() ==> b == a)
            &&& out.redraw == (a.scroll != b.scroll || a.toc_cursor != b.toc_cursor || a.toc_scroll != b.toc_scroll)
        },
        NormalAction::Up => {
            &&& (a.focus == Focus::Content ==> b.scroll == scrolled_up(a.scroll as int, 1))
            &&& (a.focus == Focus::Toc && a.toc_cursor > 0 ==> b.toc_cursor == a.toc_cursor - 1
                && b.toc_scroll == App::spec_toc_scroll_for((a.toc_cursor - 1) as nat, a.toc_scroll as nat, a.toc_height as nat))
            &&& (a.focus == Focus::Toc && a.toc_cursor == 0 ==> b == a)
            &&& out.redraw == (a.scroll != b.scroll || a.toc_cursor != b.toc_cursor || a.toc_scroll != b.toc_scroll)
        },
        NormalAction::PageDown => b.scroll == scrolled_down(a.scroll as int, half_screen(a), a.spec_max_scroll() as int)
            && out.redraw == (a.scroll != b.scroll),
        NormalAction::PageUp => b.scroll == scrolled_up(a.scroll as int, half_screen(a)) && out.redraw == (a.scroll != b.scroll),
        NormalAction::Top => b.scroll == 0 && out.redraw == (a.scroll != 0),
        NormalAction::Bottom => b.scroll == a.spec_max_scroll() && out.redraw == (a.scroll != b.scroll),
        NormalAction::TocJump => {
            &&& b.focus == Focus::Content
            &&& (a.toc_cursor < a.toc_line_indices@.len() ==> b.scroll == clamped_scroll(a, a.toc_line_indices@[a.toc_cursor as int] as int))
            &&& (a.toc_cursor >= a.toc_line_indices@.len() ==> b.scroll == a.scroll)
            &&& out.redraw
        },
        NormalAction::NextHeading => {
            let c = count_at_most(a.toc_line_indices@, a.scroll as int);
            &&& (c >= a.toc_line_indices@.len() ==> b == a)
            &&& (c < a.toc_line_indices@.len() ==> b.scroll == clamped_scroll(a, a.toc_line_indices@[c as int] as int))
            &&& out.redraw == (a.scroll != b.scroll)
        },
        NormalAction::PrevHeading => {
            let c = if a.scroll == 0 { 0 } else { count_at_most(a.toc_line_indices@, a.scroll - 1) };
            &&& (c == 0 ==> b == a)
            &&& (c > 0 ==> b.scroll == clamped_scroll(a, a.toc_line_indices@[c - 1] as int))
            &&& out.redraw == (a.scroll != b.scroll)
        },
        NormalAction::StartSearch => b.mode == Mode::Search && b.search_query@.len() == 0 && b.search_matches@.len() == 0
            && out.redraw,
        NormalAction::SearchNext => {
            &&& (!a.search_dirty && a.search_matches@.len() > 0 ==> b.search_current == next_match(a.search_current as int, a.search_matches@.len() as int)
                && b.search_matches == a.search_matches)
            &&& (!a.search_dirty && a.search_matches@.len() == 0 ==> b == a)
            &&& (b.search_matches@.len() > 0 ==> b.scroll == clamped_scroll(b, b.search_matches@[b.search_current as int] as int))
            &&& out.redraw == (a.search_current != b.search_current || a.scroll != b.scroll)
        },
        NormalAction::SearchPrev => {
            &&& (!a.search_dirty && a.search_matches@.len() > 0 ==> b.search_current == prev_match(a.search_current as int, a.search_matches@.len() as int)
                && b.search_matches == a.search_matches)
            &&& (!a.search_dirty && a.search_matches@.len() == 0 ==> b == a)
            &&& out.redraw == (a.search_current != b.search_current || a.scroll != b.scroll)
        },
    }
}

/// Carries out a normal-mode action; says whether the screen changed, or which file to open.
#[verifier::rlimit(80)]
#[verifier::spinoff_prover]
pub fn perform_normal_action(app: &mut App, action: NormalAction, themes: &ThemeState, now: u64, highlighter: &CodeHighlighter) -> (out: KeyOutcome)
    requires
        ready(*old(app)),
    ensures
        performed(*old(app), *final(app), action, *themes, out),
{
    match action {
        NormalAction::Nothing => KeyOutcome { redraw: false, open_file: None },
        NormalAction::Quit => {
            app.quit = true;
            KeyOutcome { redraw: true, open_file: None }
        },
        NormalAction::OpenFile => KeyOutcome { redraw: false, open_file: Some(app.dir_cursor) },
        NormalAction::DirDown => {
            let (c0, s0) = (app.dir_cursor, app.dir_scroll);
            let count = app.dir_files.len();
            proof {
                assert(count as int == app.dir_files@.len());
                let n = app.dir_files@.len() as int;
                let c = if app.dir_cursor + 1 <= n - 1 { app.dir_cursor + 1 } else { n - 1 };
                assert(c >= 0 ==> 0 <= list_top_for(c, app.toc_height as int) <= c);
            }
            app.dir_down();
            KeyOutcome { redraw: c0 != app.dir_cursor || s0 != app.dir_scroll, open_file: None }
        },
        NormalAction::DirUp => {
            let (c0, s0) = (app.dir_cursor, app.dir_scroll);
            app.dir_up();
            KeyOutcome { redraw: c0 != app.dir_cursor || s0 != app.dir_scroll, open_file: None }
        },
        NormalAction::DirTop => {
            let (c0, s0) = (app.dir_cursor, app.dir_scroll);
            app.dir_top();
            KeyOutcome { redraw: c0 != app.dir_cursor || s0 != app.dir_scroll, open_file: None }
        },
        NormalAction::DirBottom => {
            let (c0, s0) = (app.dir_cursor, app.dir_scroll);
            let count = app.dir_files.len();
            proof {
                assert(count as int == app.dir_files@.len());
                let n = app.dir_files@.len() as int;
                assert(n > 0 ==> 0 <= list_top_for(n - 1, app.toc_height as int) <= n - 1);
            }
            app.dir_bottom();
            KeyOutcome { redraw: c0 != app.dir_cursor || s0 != app.dir_scroll, open_file: None }
        },
        NormalAction::ReturnToList => {
            app.return_to_file_list();
            KeyOutcome { redraw: true, open_file: None }
        },
        NormalAction::ToggleHelp => {
            app.toggle_help();
            KeyOutcome { redraw: true, open_file: None }
        },
        NormalAction::FocusToc => {
            app.focus = Focus::Toc;
            KeyOutcome { redraw: true, open_file: None }
        },
        NormalAction::FocusContent => {
            app.focus = Focus::Content;
            KeyOutcome { redraw: true, open_file: None }
        },
        NormalAction::ToggleFocus => {
            app.toggle_focus();
            KeyOutcome { redraw: true, open_file: None }
        },
        NormalAction::ToggleToc => {
            app.toggle_toc(now);
            KeyOutcome { redraw: true, open_file: None }
        },
        NormalAction::OpenThemePicker => {
            app.open_theme_picker(themes.current_theme_index());
            KeyOutcome { redraw: true, open_file: None }
        },
        NormalAction::NarrowToc => {
            app.narrow_toc(now);
            KeyOutcome { redraw: true, open_file: None }
        },
        NormalAction::WidenToc => {
            app.widen_toc(now);
            KeyOutcome { redraw: true, open_file: None }
        },
        NormalAction::Down => {
            let (s0, c0, t0) = (app.scroll, app.toc_cursor, app.toc_scroll);
            let entries = app.document.toc.len();
            assert(entries as int == app.document.toc@.len());
            if app.focus == Focus::Content {
                app.scroll_down(1);
            } else {
                app.toc_down();
            }
            KeyOutcome { redraw: s0 != app.scroll || c0 != app.toc_cursor || t0 != app.toc_scroll, open_file: None }
        },
        NormalAction::Up => {
            let (s0, c0, t0) = (app.scroll, app.toc_cursor, app.toc_scroll);
            let entries = app.document.toc.len();
            assert(entries as int == app.document.toc@.len());
            if app.focus == Focus::Content {
                app.scroll_up(1);
            } else {
                app.toc_up();
            }
            KeyOutcome { redraw: s0 != app.scroll || c0 != app.toc_cursor || t0 != app.toc_scroll, open_file: None }
        },
        NormalAction::PageDown => {
            let before = app.scroll;
            let n = app.half_page();
            app.scroll_down(n);
            KeyOutcome { redraw: before != app.scroll, open_file: None }
        },
        NormalAction::PageUp => {
            let before = app.scroll;
            let n = app.half_page();
            app.scroll_up(n);
            KeyOutcome { redraw: before != app.scroll, open_file: None }
        },
        NormalAction::Top => {
            let before = app.scroll;
            app.scroll_top();
            KeyOutcome { redraw: before != app.scroll, open_file: None }
        },
        NormalAction::Bottom => {
            let before = app.scroll;
            app.scroll_bottom();
            KeyOutcome { redraw: before != app.scroll, open_file: None }
        },
        NormalAction::TocJump => {
            app.toc_jump_to_cursor();
            app.focus = Focus::Content;
            KeyOutcome { redraw: true, open_file: None }
        },
        NormalAction::NextHeading => {
            let before = app.scroll;
            app.next_heading();
            KeyOutcome { redraw: before != app.scroll, open_file: None }
        },
        NormalAction::PrevHeading => {
            let before = app.scroll;
            app.prev_heading();
            KeyOutcome { redraw: before != app.scroll, open_file: None }
        },
        NormalAction::StartSearch => {
            app.start_search();
            KeyOutcome { redraw: true, open_file: None }
        },
        NormalAction::SearchNext => {
            let (m0, s0) = (app.search_current, app.scroll);
            app.search_next(highlighter);
            KeyOutcome { redraw: m0 != app.search_current || s0 != app.scroll, open_file: None }
        },
        NormalAction::SearchPrev => {
            let (m0, s0) = (app.search_current, app.scroll);
            app.search_prev(highlighter);
            KeyOutcome { redraw: m0 != app.search_current || s0 != app.scroll, open_file: None }
        },
    }
}

/// Handles a key in normal mode.
pub fn handle_normal_key(
    app: &mut App,
    keys: &ResolvedKeybindings,
    themes: &ThemeState,
    code: KeyCode,
    modifiers: KeyModifiers,
    now: u64,
    highlighter: &CodeHighlighter,
) -> (out: KeyOutcome)
    requires
        ready(*old(app)),
    ensures
        performed(
            *old(app),
            *final(app),
            spec_normal_action(*keys, old(app).directory_mode, old(app).dir_view, old(app).focus, old(app).show_toc, code, modifiers),
            *themes,
            out,
        ),
{
    let action = normal_key_action(keys, app.directory_mode, app.dir_view, app.focus, app.show_toc, code, modifiers);
    perform_normal_action(app, action, themes, now, highlighter)
}

/// Handles a key in search mode: Esc cancels, Enter confirms, Backspace deletes, a
/// character is typed into the query.
pub fn handle_search_key(app: &mut App, code: KeyCode, now: u64, highlighter: &CodeHighlighter) -> (redraw: bool)
    requires
        old(app).wf(),
    ensures
        final(app).wf(),
        code == KeyCode::Esc ==> final(app).mode == Mode::Normal && final(app).search_query@.len() == 0 && redraw,
        code == KeyCode::Enter ==> final(app).mode == Mode::Normal && redraw,
        (code matches KeyCode::Char(c) ==> final(app).search_query@ == old(app).search_query@.push(c) && redraw),
        code == KeyCode::Backspace ==> redraw,
        !(code == KeyCode::Esc || code == KeyCode::Enter || code == KeyCode::Backspace || code is Char)
            ==> *final(app) == *old(app) && !redraw,
{
    match code {
        KeyCode::Esc => {
            app.search_cancel();
            true
        },
        KeyCode::Enter => {
            app.search_confirm(highlighter);
            true
        },
        KeyCode::Backspace => {
            app.search_pop(now);
            true
        },
        KeyCode::Char(c) => {
            app.search_push(c, now);
            true
        },
        _ => false,
    }
}

/// Handles a key in help mode: the help key, Esc or the quit key close the help.
pub fn handle_help_key(app: &mut App, keys: &ResolvedKeybindings, code: KeyCode, modifiers: KeyModifiers) -> (redraw: bool)
    ensures
        redraw == (spec_matches(keys.help, code, modifiers) || (code == KeyCode::Esc && bare(modifiers)) || spec_matches(keys.quit, code, modifiers)),
        redraw ==> final(app).mode == (if old(app).mode == Mode::Help { Mode::Normal } else { Mode::Help }),
        !redraw ==> *final(app) == *old(app),
{
    if keys.help.matches(code, modifiers) || (code == KeyCode::Esc && modifiers.is_empty()) || keys.quit.matches(code, modifiers) {
        app.toggle_help();
        true
    } else {
        false
    }
}

/// Whether a key closes the theme picker: Esc or Enter alone, the quit key or the theme key.
pub open spec fn picker_closes(keys: ResolvedKeybindings, code: KeyCode, m: KeyModifiers) -> bool {
    (code == KeyCode::Esc && bare(m)) || (code == KeyCode::Enter && bare(m)) || spec_matches(keys.quit, code, m)
        || spec_matches(keys.next_theme, code, m)
}

/// How far a key moves the theme picker: up one, down one, or not at all (also for keys
/// that close it).
pub open spec fn picker_step(keys: ResolvedKeybindings, code: KeyCode, m: KeyModifiers) -> int {
    if picker_closes(keys, code, m) {
        0
    } else if spec_matches(keys.up, code, m) {
        -1
    } else if spec_matches(keys.down, code, m) {
        1
    } else {
        0
    }
}

/// Handles a key in the theme picker: Esc, the quit key and the theme key go back to the
/// theme it opened on; Enter keeps the one chosen; up and down preview the neighbours.
pub fn handle_theme_picker_key(app: &mut App, keys: &ResolvedKeybindings, themes: &mut ThemeState, code: KeyCode, modifiers: KeyModifiers) -> (redraw: bool)
    requires
        old(app).theme_picker_index < AVAILABLE_THEME_COUNT,
    ensures
        final(app).theme_picker_index < AVAILABLE_THEME_COUNT,
        (code == KeyCode::Esc && bare(modifiers)) || (!(code == KeyCode::Enter && bare(modifiers))
            && (spec_matches(keys.quit, code, modifiers) || spec_matches(keys.next_theme, code, modifiers)))
            ==> final(app).mode == Mode::Normal && redraw && (old(app).theme_picker_origin matches Some(i)
                ==> final(themes).index == i % AVAILABLE_THEME_COUNT),
        code == KeyCode::Enter && bare(modifiers) && !(code == KeyCode::Esc) ==> final(app).mode == Mode::Normal && final(app).theme_picker_origin is None && redraw,
        picker_step(*keys, code, modifiers) != 0 ==> {
            let i = picker_moved(old(app).theme_picker_index as int, picker_step(*keys, code, modifiers), AVAILABLE_THEME_COUNT as int);
            &&& final(app).theme_picker_index == i
            &&& final(themes).index == i
            &&& final(themes).theme == spec_config_of(spec_theme_colors(spec_available_theme(i)))
            &&& final(app).theme_picker_origin == old(app).theme_picker_origin
            &&& final(app).mode == old(app).mode
            &&& redraw
        },
        !picker_closes(*keys, code, modifiers) && picker_step(*keys, code, modifiers) == 0 ==> *final(app) == *old(app)
            && *final(themes) == *old(themes) && !redraw,
{
    if code == KeyCode::Esc && modifiers.is_empty() {
        match app.cancel_theme_picker() {
            Some(index) => themes.apply_theme_by_index(index),
            None => {},
        }
        return true;
    }
    if code == KeyCode::Enter && modifiers.is_empty() {
        app.confirm_theme_picker();
        return true;
    }
    if keys.quit.matches(code, modifiers) || keys.next_theme.matches(code, modifiers) {
        match app.cancel_theme_picker() {
            Some(index) => themes.apply_theme_by_index(index),
            None => {},
        }
        return true;
    }
    let delta: isize = if keys.up.matches(code, modifiers) {
        -1
    } else if keys.down.matches(code, modifiers) {
        1
    } else {
        return false;
    };
    match app.move_theme_picker(delta, AVAILABLE_THEME_COUNT) {
        Some(index) => {
            themes.apply_theme_by_index(index);
            true
        },
        None => false,
    }
}


// ---------------------------------------------------------------------------
// Naming keys on screen
// ---------------------------------------------------------------------------

/// How a key is named on screen; the help names Backspace `Bksp` and the page keys `?`,
/// the status bar `BS`, `PgUp` and `PgDn`.
pub open spec fn spec_key_name(code: KeyCode, for_help: bool) -> Seq<char> {
    match code {
        KeyCode::Char(c) => seq![c],
        KeyCode::Esc => "Esc"@,
        KeyCode::Enter => "Enter"@,
        KeyCode::Tab => "Tab"@,
        KeyCode::Backspace => if for_help {
            "Bksp"@
        } else {
            "BS"@
        },
        KeyCode::Up => "↑"@,
        KeyCode::Down => "↓"@,
        KeyCode::Left => "←"@,
        KeyCode::Right => "→"@,
        KeyCode::PageUp => if for_help {
            "?"@
        } else {
            "PgUp"@
        },
        KeyCode::PageDown => if for_help {
            "?"@
        } else {
            "PgDn"@
        },
        _ => "?"@,
    }
}

fn push_key_name(s: &mut String, code: KeyCode, for_help: bool)
    ensures
        final(s)@ == old(s)@ + spec_key_name(code, for_help),
{
    match code {
        KeyCode::Char(c) => push_char(s, c),
        KeyCode::Esc => push_str(s, "Esc"),
        KeyCode::Enter => push_str(s, "Enter"),
        KeyCode::Tab => push_str(s, "Tab"),
        KeyCode::Backspace => if for_help {
            push_str(s, "Bksp")
        } else {
            push_str(s, "BS")
        },
        KeyCode::Up => push_str(s, "↑"),
        KeyCode::Down => push_str(s, "↓"),
        KeyCode::Left => push_str(s, "←"),
        KeyCode::Right => push_str(s, "→"),
        KeyCode::PageUp => if for_help {
            push_str(s, "?")
        } else {
            push_str(s, "PgUp")
        },
        KeyCode::PageDown => if for_help {
            push_str(s, "?")
        } else {
            push_str(s, "PgDn")
        },
        _ => push_str(s, "?"),
    }
    proof {
        if code is Char {
            assert(final(s)@ =~= old(s)@ + spec_key_name(code, for_help));
        }
    }
}

/// A binding as the status bar shows it: `C-` for Control or else `M-` for Alt, then the key.
pub open spec fn spec_status_key_label(b: KeyBinding) -> Seq<char> {
    (if b.modifiers.bits & CONTROL != 0 {
        "C-"@
    } else if b.modifiers.bits & ALT != 0 {
        "M-"@
    } else {
        Seq::empty()
    }) + spec_key_name(b.code, false)
}

/// A binding as the status bar shows it.
pub fn status_key_label(b: KeyBinding) -> (s: String)
    ensures
        s@ == spec_status_key_label(b),
{
    let mut s = String::new();
    if b.modifiers.bits & CONTROL != 0 {
        push_str(&mut s, "C-");
    } else if b.modifiers.bits & ALT != 0 {
        push_str(&mut s, "M-");
    }
    push_key_name(&mut s, b.code, false);
    s
}

/// A binding as the help shows it: the key alone, or `C-`, `A-` or `C-A-` before it.
pub open spec fn spec_help_key_label(b: KeyBinding) -> Seq<char> {
    (if b.modifiers.bits & CONTROL != 0 {
        "C-"@
    } else {
        Seq::empty()
    }) + (if b.modifiers.bits & ALT != 0 {
        "A-"@
    } else {
        Seq::empty()
    }) + spec_key_name(b.code, true)
}

/// A binding as the help shows it.
pub fn help_key_label(b: KeyBinding) -> (s: String)
    ensures
        s@ == spec_help_key_label(b),
{
    let mut s = String::new();
    if b.modifiers.bits & CONTROL != 0 {
        push_str(&mut s, "C-");
    }
    let ghost mid = s@;
    if b.modifiers.bits & ALT != 0 {
        push_str(&mut s, "A-");
    }
    push_key_name(&mut s, b.code, true);
    s
}

} // verus!
