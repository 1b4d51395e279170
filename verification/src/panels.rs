//! What the viewer's panels say and where its overlays go: the status bar, the help
//! overlay, the rows of the side panel, titles, and the boxes of the overlays. Drawing
//! them is left to the terminal front end.
use crate::app::{count_at_most, spec_scroll_percent, App, DirView, Focus, Mode};
use crate::config::{available_theme, spec_available_theme, KeybindingsConfig, ResolvedKeybindings, AVAILABLE_THEME_COUNT};
use crate::themes::spec_display_name;
use crate::keys::{help_key_label, spec_help_key_label, spec_key_name, spec_status_key_label, status_key_label};
use crate::text::{push_decimal, push_str, spec_decimal};
use crate::width::{capped, lemma_width_bound, spec_str_width, str_width, str_width_capped};
use ratatui::layout::{Constraint, Layout, Rect};
use vstd::prelude::*;

verus! {

// ---------------------------------------------------------------------------
// Status bar
// ---------------------------------------------------------------------------

/// The mode as the status bar names it; directory mode is named alone.
pub open spec fn spec_mode_label(directory_mode: bool, mode: Mode) -> Seq<char> {
    if directory_mode {
        " DIR "@
    } else {
        match mode {
            Mode::Normal => " NORMAL "@,
            Mode::Search => " SEARCH "@,
            Mode::Help => " HELP   "@,
            Mode::ThemePicker => " THEME  "@,
        }
    }
}

/// The mode as the status bar names it.
pub fn mode_label(directory_mode: bool, mode: Mode) -> (s: &'static str)
    ensures
        s@ == spec_mode_label(directory_mode, mode),
{
    if directory_mode {
        " DIR "
    } else {
        match mode {
            Mode::Normal => " NORMAL ",
            Mode::Search => " SEARCH ",
            Mode::Help => " HELP   ",
            Mode::ThemePicker => " THEME  ",
        }
    }
}

/// The focused panel as the status bar names it.
pub open spec fn spec_focus_label(focus: Focus) -> Seq<char> {
    match focus {
        Focus::Toc => "  TOC "@,
        Focus::Content => "  Content "@,
    }
}

/// The focused panel as the status bar names it.
pub fn focus_label(focus: Focus) -> (s: &'static str)
    ensures
        s@ == spec_focus_label(focus),
{
    match focus {
        Focus::Toc => "  TOC ",
        Focus::Content => "  Content ",
    }
}

/// The search as the status bar shows it: nothing without a query, else the query and
/// how many lines match.
pub open spec fn spec_search_hint(query: Seq<char>, matches: u64) -> Seq<char> {
    if query.len() == 0 {
        Seq::empty()
    } else {
        " /"@ + query + " ("@ + spec_decimal(matches) + " matches) "@
    }
}

/// The search as the status bar shows it.
pub fn search_hint(query: &str, matches: u64) -> (s: String)
    ensures
        s@ == spec_search_hint(query@, matches),
{
    let mut s = String::new();
    if query.unicode_len() > 0 {
        push_str(&mut s, " /");
        push_str(&mut s, query);
        push_str(&mut s, " (");
        push_decimal(&mut s, matches);
        push_str(&mut s, " matches) ");
    }
    s
}

/// The key bindings and theme name on the right of the status bar.
pub open spec fn spec_status_keys(k: ResolvedKeybindings, theme_name: Seq<char>) -> Seq<char> {
    " "@ + spec_status_key_label(k.quit) + ":quit  "@ + spec_status_key_label(k.help) + ":help  "@
        + spec_status_key_label(k.search) + ":search  "@ + spec_status_key_label(k.toggle_toc)
        + ":toc  "@ + spec_status_key_label(k.focus_prev) + "/"@ + spec_status_key_label(k.focus_next)
        + ":focus  "@ + spec_status_key_label(k.up) + "/"@ + spec_status_key_label(k.down)
        + ":scroll  "@ + spec_status_key_label(k.next_theme) + ":theme("@ + theme_name + ") "@
}

/// The right of the status bar: the key bindings, the theme, and how far down the text is.
pub open spec fn spec_status_right(k: ResolvedKeybindings, theme_name: Seq<char>, percent: u64) -> Seq<char> {
    spec_status_keys(k, theme_name) + " "@ + spec_decimal(percent) + "% "@
}

fn push_label(s: &mut String, b: crate::config::KeyBinding, after: &str)
    ensures
        final(s)@ == old(s)@ + spec_status_key_label(b) + after@,
{
    let label = status_key_label(b);
    push_str(s, label.as_str());
    push_str(s, after);
}

/// The right of the status bar.
pub fn status_right(keys: &ResolvedKeybindings, theme_name: &str, percent: u64) -> (s: String)
    ensures
        s@ == spec_status_right(*keys, theme_name@, percent),
{
    let mut s = String::new();
    push_str(&mut s, " ");
    push_label(&mut s, keys.quit, ":quit  ");
    push_label(&mut s, keys.help, ":help  ");
    push_label(&mut s, keys.search, ":search  ");
    push_label(&mut s, keys.toggle_toc, ":toc  ");
    push_label(&mut s, keys.focus_prev, "/");
    push_label(&mut s, keys.focus_next, ":focus  ");
    push_label(&mut s, keys.up, "/");
    push_label(&mut s, keys.down, ":scroll  ");
    push_label(&mut s, keys.next_theme, ":theme(");
    push_str(&mut s, theme_name);
    push_str(&mut s, ") ");
    push_str(&mut s, " ");
    push_decimal(&mut s, percent);
    push_str(&mut s, "% ");
    s
}

/// Columns left between the two sides of a bar `width` columns wide: none where they
/// do not fit.
pub open spec fn spec_gap(width: nat, left: nat, right: nat) -> nat {
    if left + right <= width {
        (width - left - right) as nat
    } else {
        0
    }
}

/// Where the texts of a bar fit its width, the gap makes the bar exactly as wide as the
/// screen; where they do not, there is no gap.
pub proof fn law_status_bar_fills_width(width: nat, left: nat, right: nat)
    ensures
        left + right <= width ==> left + spec_gap(width, left, right) + right == width,
        left + right > width ==> spec_gap(width, left, right) == 0,
{
}

/// What the status bar shows: on the left the mode, the focused panel and the search;
/// then blank columns; on the right the key bindings, the theme and the position.
pub struct StatusBar {
    pub mode: &'static str,
    pub focus: &'static str,
    pub search: String,
    /// Blank columns between the left and the right.
    pub gap: usize,
    pub right: String,
}

impl App {
    /// The status bar of a screen `width` columns wide, with `theme_name` in use.
    pub fn status_bar(&self, keys: &ResolvedKeybindings, theme_name: &str, width: u16) -> (b: StatusBar)
        requires
            self.scroll <= u64::MAX / 100,
        ensures
            b.mode@ == spec_mode_label(self.directory_mode, self.mode),
            b.focus@ == spec_focus_label(self.focus),
            b.search@ == spec_search_hint(self.search_query@, self.search_matches@.len() as u64),
            b.right@ == spec_status_right(
                *keys,
                theme_name@,
                spec_scroll_percent(self.scroll as int, self.total_content_lines as int) as u64,
            ),
            b.gap == spec_gap(
                width as nat,
                spec_str_width(b.mode@, self.cjk) + spec_str_width(b.focus@, self.cjk) + spec_str_width(
                    b.search@,
                    self.cjk,
                ),
                spec_str_width(b.right@, self.cjk),
            ),
    {
        let mode = mode_label(self.directory_mode, self.mode);
        let focus = focus_label(self.focus);
        let search = search_hint(self.search_query.as_str(), self.search_matches.len() as u64);
        let percent = self.scroll_percent();
        let right = status_right(keys, theme_name, percent);
        let cap = width as usize;
        let wm = str_width_capped(mode, cap, self.cjk);
        let wf = str_width_capped(focus, cap, self.cjk);
        let ws = str_width_capped(search.as_str(), cap, self.cjk);
        let wr = str_width_capped(right.as_str(), cap, self.cjk);
        let total = wm + wf + ws + wr;
        let gap = if total <= cap {
            cap - total
        } else {
            0
        };
        StatusBar { mode, focus, search, gap, right }
    }
}

// ---------------------------------------------------------------------------
// Help overlay
// ---------------------------------------------------------------------------

/// One line of the help: a key and what it does.
pub struct HelpEntry {
    pub key: String,
    pub action: &'static str,
}

/// The keys and actions of a list of help entries.
pub open spec fn help_view(v: Seq<HelpEntry>) -> Seq<(Seq<char>, Seq<char>)> {
    Seq::new(v.len(), |i: int| (v[i].key@, v[i].action@))
}

/// What the help lists, in order: the configurable bindings, and the fixed keys for
/// jumping, headings, the width of the table of contents and cancelling.
pub open spec fn spec_help_entries(k: ResolvedKeybindings) -> Seq<(Seq<char>, Seq<char>)> {
    seq![
        (spec_help_key_label(k.down), "Scroll down"@),
        (spec_help_key_label(k.up), "Scroll up"@),
        (spec_help_key_label(k.page_down), "Half-page down"@),
        (spec_help_key_label(k.page_up), "Half-page up"@),
        (spec_help_key_label(k.top), "Go to top"@),
        (spec_help_key_label(k.bottom), "Go to bottom"@),
        (spec_help_key_label(k.focus_prev), "Focus TOC"@),
        (spec_help_key_label(k.focus_next), "Focus Content"@),
        ("Enter"@, "Jump to TOC entry"@),
        ("]"@, "Next heading"@),
        ("["@, "Prev heading"@),
        (spec_help_key_label(k.toggle_toc), "Toggle TOC"@),
        ("< / >"@, "Narrow/Widen TOC"@),
        (spec_help_key_label(k.search), "Start search"@),
        (spec_help_key_label(k.search_next), "Next search match"@),
        (spec_help_key_label(k.search_prev), "Prev search match"@),
        (spec_help_key_label(k.next_theme), "Theme picker"@),
        (spec_help_key_label(k.help), "Toggle help"@),
        (spec_help_key_label(k.quit), "Quit"@),
        ("Esc"@, "Cancel / Close"@),
    ]
}

fn push_entry(v: &mut Vec<HelpEntry>, key: String, action: &'static str)
    ensures
        help_view(final(v)@) == help_view(old(v)@).push((key@, action@)),
{
    let ghost k = key@;
    v.push(HelpEntry { key, action });
    assert(help_view(v@) =~= help_view(old(v)@).push((k, action@)));
}

fn fixed_key(s: &str) -> (r: String)
    ensures
        r@ == s@,
{
    let mut r = String::new();
    push_str(&mut r, s);
    r
}

/// The entries of the help.
pub fn help_entries(keys: &ResolvedKeybindings) -> (v: Vec<HelpEntry>)
    ensures
        help_view(v@) == spec_help_entries(*keys),
{
    let mut v: Vec<HelpEntry> = Vec::new();
    assert(help_view(v@) =~= Seq::<(Seq<char>, Seq<char>)>::empty());
    push_entry(&mut v, help_key_label(keys.down), "Scroll down");
    push_entry(&mut v, help_key_label(keys.up), "Scroll up");
    push_entry(&mut v, help_key_label(keys.page_down), "Half-page down");
    push_entry(&mut v, help_key_label(keys.page_up), "Half-page up");
    push_entry(&mut v, help_key_label(keys.top), "Go to top");
    push_entry(&mut v, help_key_label(keys.bottom), "Go to bottom");
    push_entry(&mut v, help_key_label(keys.focus_prev), "Focus TOC");
    push_entry(&mut v, help_key_label(keys.focus_next), "Focus Content");
    push_entry(&mut v, fixed_key("Enter"), "Jump to TOC entry");
    push_entry(&mut v, fixed_key("]"), "Next heading");
    push_entry(&mut v, fixed_key("["), "Prev heading");
    push_entry(&mut v, help_key_label(keys.toggle_toc), "Toggle TOC");
    push_entry(&mut v, fixed_key("< / >"), "Narrow/Widen TOC");
    push_entry(&mut v, help_key_label(keys.search), "Start search");
    push_entry(&mut v, help_key_label(keys.search_next), "Next search match");
    push_entry(&mut v, help_key_label(keys.search_prev), "Prev search match");
    push_entry(&mut v, help_key_label(keys.next_theme), "Theme picker");
    push_entry(&mut v, help_key_label(keys.help), "Toggle help");
    push_entry(&mut v, help_key_label(keys.quit), "Quit");
    push_entry(&mut v, fixed_key("Esc"), "Cancel / Close");
    assert(help_view(v@) =~= spec_help_entries(*keys));
    v
}

/// Keys name at most nine characters in the help.
proof fn lemma_help_label_len(b: crate::config::KeyBinding)
    ensures
        spec_help_key_label(b).len() <= 9,
{
    reveal_strlit("C-");
    reveal_strlit("A-");
    reveal_strlit("Esc");
    reveal_strlit("Enter");
    reveal_strlit("Tab");
    reveal_strlit("Bksp");
    reveal_strlit("↑");
    reveal_strlit("↓");
    reveal_strlit("←");
    reveal_strlit("→");
    reveal_strlit("?");
    assert(spec_key_name(b.code, true).len() <= 5);
}

/// Every key of the help names at most nine characters.
proof fn lemma_help_keys_short(k: ResolvedKeybindings)
    ensures
        forall|i: int| 0 <= i < spec_help_entries(k).len() ==> #[trigger] spec_help_entries(k)[i].0.len() <= 9,
{
    lemma_help_label_len(k.down);
    lemma_help_label_len(k.up);
    lemma_help_label_len(k.page_down);
    lemma_help_label_len(k.page_up);
    lemma_help_label_len(k.top);
    lemma_help_label_len(k.bottom);
    lemma_help_label_len(k.focus_prev);
    lemma_help_label_len(k.focus_next);
    lemma_help_label_len(k.toggle_toc);
    lemma_help_label_len(k.search);
    lemma_help_label_len(k.search_next);
    lemma_help_label_len(k.search_prev);
    lemma_help_label_len(k.next_theme);
    lemma_help_label_len(k.help);
    lemma_help_label_len(k.quit);
    reveal_strlit("Enter");
    reveal_strlit("]");
    reveal_strlit("[");
    reveal_strlit("< / >");
    reveal_strlit("Esc");
}

/// The widest key of a list of help entries.
pub open spec fn spec_key_column(es: Seq<(Seq<char>, Seq<char>)>, cjk: bool) -> nat
    decreases es.len(),
{
    if es.len() == 0 {
        0
    } else {
        let rest = spec_key_column(es.drop_last(), cjk);
        let w = spec_str_width(es.last().0, cjk);
        if w > rest {
            w
        } else {
            rest
        }
    }
}

fn key_column(v: &Vec<HelpEntry>, cjk: bool) -> (w: usize)
    requires
        forall|i: int| 0 <= i < v@.len() ==> #[trigger] v@[i].key@.len() <= 9,
    ensures
        w == spec_key_column(help_view(v@), cjk),
        w <= 27,
{
    let mut w: usize = 0;
    let mut i: usize = 0;
    assert(help_view(v@).take(0) =~= Seq::<(Seq<char>, Seq<char>)>::empty());
    while i < v.len()
        invariant
            i <= v@.len(),
            forall|j: int| 0 <= j < v@.len() ==> #[trigger] v@[j].key@.len() <= 9,
            w == spec_key_column(help_view(v@).take(i as int), cjk),
            w <= 27,
        decreases v@.len() - i,
    {
        proof {
            lemma_width_bound(v@[i as int].key@, cjk);
            assert(help_view(v@).take(i + 1).drop_last() =~= help_view(v@).take(i as int));
        }
        let kw = str_width(v[i].key.as_str(), cjk);
        if kw > w {
            w = kw;
        }
        i = i + 1;
    }
    assert(help_view(v@).take(v@.len() as int) =~= help_view(v@));
    w
}

/// `a` where it is positive, else 0.
pub open spec fn sat(a: int) -> int {
    if a > 0 {
        a
    } else {
        0
    }
}

/// A rectangle of the screen.
#[derive(Clone, Copy, Debug, PartialEq, Eq, Structural)]
pub struct Area {
    pub x: u16,
    pub y: u16,
    pub width: u16,
    pub height: u16,
}

/// The width of the help box: two columns of keys and actions, at least 50 columns,
/// and otherwise no wider than the screen less four columns.
pub open spec fn spec_help_width(key_width: int, screen_width: int) -> int {
    let wanted = (key_width + 4) * 2 + 12;
    let fitted = if wanted < sat(screen_width - 4) {
        wanted
    } else {
        sat(screen_width - 4)
    };
    if fitted > 50 {
        fitted
    } else {
        50
    }
}

/// `a`, or `b` where that is smaller.
pub open spec fn at_most(a: int, b: int) -> int {
    if a < b {
        a
    } else {
        b
    }
}

/// Where the help box goes: centred, `rows` lines of entries with two lines above and two
/// below, and no larger than the screen.
pub open spec fn spec_help_box(key_width: int, rows: int, screen_width: int, screen_height: int) -> Area {
    let w = spec_help_width(key_width, screen_width);
    let h = rows + 4;
    Area {
        x: (sat(screen_width - w) / 2) as u16,
        y: (sat(screen_height - h) / 2) as u16,
        width: at_most(w, screen_width) as u16,
        height: at_most(h, screen_height) as u16,
    }
}

/// The help: its entries, the width of the key column, how many lines of entries the
/// left column has (the right one has the rest), and where the box goes.
pub struct HelpLayout {
    pub entries: Vec<HelpEntry>,
    pub key_width: usize,
    pub rows: usize,
    pub area: Area,
}

/// The help on a screen of `screen_width` by `screen_height`.
pub fn help_layout(keys: &ResolvedKeybindings, screen_width: u16, screen_height: u16, cjk: bool) -> (l: HelpLayout)
    ensures
        help_view(l.entries@) == spec_help_entries(*keys),
        l.key_width == spec_key_column(spec_help_entries(*keys), cjk),
        l.rows == (spec_help_entries(*keys).len() + 1) / 2,
        l.area == spec_help_box(l.key_width as int, l.rows as int, screen_width as int, screen_height as int),
{
    let entries = help_entries(keys);
    proof {
        lemma_help_keys_short(*keys);
        assert forall|i: int| 0 <= i < entries@.len() implies #[trigger] entries@[i].key@.len() <= 9 by {
            assert(help_view(entries@)[i] == spec_help_entries(*keys)[i]);
            assert(help_view(entries@)[i].0 == entries@[i].key@);
            assert(spec_help_entries(*keys)[i].0.len() <= 9);
        }
    }
    let key_width = key_column(&entries, cjk);
    let rows = (entries.len() + 1) / 2;
    assert(entries@.len() == 20) by {
        assert(help_view(entries@).len() == entries@.len());
    }
    let wanted = ((key_width + 4) * 2 + 12) as u16;
    let room = screen_width.saturating_sub(4);
    let fitted = if wanted < room {
        wanted
    } else {
        room
    };
    let w = if fitted > 50 {
        fitted
    } else {
        50
    };
    let h = (rows + 4) as u16;
    let area = Area {
        x: screen_width.saturating_sub(w) / 2,
        y: screen_height.saturating_sub(h) / 2,
        width: if w < screen_width {
            w
        } else {
            screen_width
        },
        height: if h < screen_height {
            h
        } else {
            screen_height
        },
    };
    HelpLayout { entries, key_width, rows, area }
}

/// `n` spaces.
pub open spec fn spaces(n: int) -> Seq<char> {
    Seq::new(sat(n) as nat, |i: int| ' ')
}

/// A key as the help shows it: right-aligned to `width` characters, then two spaces.
pub open spec fn spec_key_cell(key: Seq<char>, width: int) -> Seq<char> {
    spaces(width - key.len()) + key + "  "@
}

/// A key as the help shows it.
pub fn key_cell(key: &str, width: usize) -> (s: String)
    ensures
        s@ == spec_key_cell(key@, width as int),
{
    let len = key.unicode_len();
    let pad = if width > len {
        width - len
    } else {
        0
    };
    let mut s = String::new();
    let mut i: usize = 0;
    while i < pad
        invariant
            i <= pad,
            pad == sat(width - key@.len()),
            s@ == spaces(i as int),
        decreases pad - i,
    {
        crate::text::push_char(&mut s, ' ');
        i = i + 1;
        assert(s@ =~= spaces(i as int));
    }
    push_str(&mut s, key);
    push_str(&mut s, "  ");
    s
}

// ---------------------------------------------------------------------------
// Side panel
// ---------------------------------------------------------------------------

/// How a row of the side panel is styled.
#[derive(Clone, Copy, Debug, PartialEq, Eq, Structural)]
pub enum RowStyle {
    /// The cursor, in the focused panel.
    Selected,
    /// The heading the text is scrolled to.
    Synced,
    /// A heading of this level.
    Heading(u8),
    /// A file.
    Plain,
}

/// A row of the side panel.
pub struct PanelRow {
    pub text: String,
    pub style: RowStyle,
}

/// The texts and styles of a list of rows.
pub open spec fn rows_view(v: Seq<PanelRow>) -> Seq<(Seq<char>, RowStyle)> {
    Seq::new(v.len(), |i: int| (v[i].text@, v[i].style))
}

/// What the side panel shows: its title, its rows, and which of them is the cursor.
pub struct SidePanel {
    pub title: &'static str,
    pub rows: Vec<PanelRow>,
    /// The cursor's place among the rows shown.
    pub selected: usize,
}

/// How many rows of a list of `len` show from `start` in `rows` lines.
pub open spec fn spec_shown(start: int, rows: int, len: int) -> int {
    if start >= len {
        0
    } else if rows >= len - start {
        len - start
    } else {
        rows
    }
}

fn shown(start: usize, rows: usize, len: usize) -> (n: usize)
    ensures
        n == spec_shown(start as int, rows as int, len as int),
{
    if start >= len {
        0
    } else if rows >= len - start {
        len - start
    } else {
        rows
    }
}

/// What marks a heading in the table of contents, by level.
pub open spec fn spec_toc_marker(level: u8) -> Seq<char> {
    if level == 1 {
        "▌ "@
    } else if level == 2 {
        "  ▎ "@
    } else {
        "    · "@
    }
}

fn toc_marker(level: u8) -> (s: &'static str)
    ensures
        s@ == spec_toc_marker(level),
{
    if level == 1 {
        "▌ "
    } else if level == 2 {
        "  ▎ "
    } else {
        "    · "
    }
}

/// The side panel's title in file-list mode and otherwise.
pub open spec fn spec_panel_title(file_list: bool) -> Seq<char> {
    if file_list {
        " 📁 files "@
    } else {
        " 📑 TOC "@
    }
}

impl App {
    /// Whether directory mode shows its list of files.
    pub open spec fn spec_file_list(&self) -> bool {
        self.directory_mode && self.dir_view == DirView::FileList
    }

    /// The heading the text is scrolled to, as `synced_toc_index` finds it.
    pub open spec fn spec_synced(&self) -> Option<usize> {
        if count_at_most(self.toc_line_indices@, self.scroll as int) > 0 {
            Some((count_at_most(self.toc_line_indices@, self.scroll as int) - 1) as usize)
        } else {
            None
        }
    }

    /// Row `i` of the file list: the file's name indented two spaces a level, and the
    /// cursor marked where the panel has the focus.
    pub open spec fn spec_file_row(&self, i: int) -> (Seq<char>, RowStyle) {
        (
            spaces(2 * self.dir_files@[i].depth) + self.dir_files@[i].display_name@,
            if i == self.dir_cursor && self.focus == Focus::Toc {
                RowStyle::Selected
            } else {
                RowStyle::Plain
            },
        )
    }

    /// Row `i` of the table of contents: the heading marked by its level; the cursor
    /// where the panel has the focus, else the heading scrolled to, else the level's style.
    pub open spec fn spec_toc_row(&self, i: int) -> (Seq<char>, RowStyle) {
        let e = self.document.toc@[i];
        (
            spec_toc_marker(e.level) + e.title@,
            if i == self.toc_cursor && self.focus == Focus::Toc {
                RowStyle::Selected
            } else if self.spec_synced() == Some(i as usize) {
                RowStyle::Synced
            } else {
                RowStyle::Heading(e.level)
            },
        )
    }

    fn file_row(&self, i: usize) -> (r: PanelRow)
        requires
            i < self.dir_files@.len(),
        ensures
            (r.text@, r.style) == self.spec_file_row(i as int),
    {
        let e = &self.dir_files[i];
        let mut text = String::new();
        let mut k: usize = 0;
        while k < e.depth
            invariant
                k <= e.depth,
                text@ == spaces(2 * k),
            decreases e.depth - k,
        {
            push_str(&mut text, "  ");
            k = k + 1;
            proof {
                reveal_strlit("  ");
                assert(text@ =~= spaces(2 * k));
            }
        }
        push_str(&mut text, e.display_name.as_str());
        let style = if i == self.dir_cursor && self.focus == Focus::Toc {
            RowStyle::Selected
        } else {
            RowStyle::Plain
        };
        PanelRow { text, style }
    }

    fn toc_row(&self, i: usize, synced: Option<usize>) -> (r: PanelRow)
        requires
            i < self.document.toc@.len(),
            synced == self.spec_synced(),
        ensures
            (r.text@, r.style) == self.spec_toc_row(i as int),
    {
        let e = &self.document.toc[i];
        let mut text = String::new();
        push_str(&mut text, toc_marker(e.level));
        push_str(&mut text, e.title.as_str());
        let style = if i == self.toc_cursor && self.focus == Focus::Toc {
            RowStyle::Selected
        } else if synced == Some(i) {
            RowStyle::Synced
        } else {
            RowStyle::Heading(e.level)
        };
        assert(text@ =~= self.spec_toc_row(i as int).0);
        PanelRow { text, style }
    }

    /// The side panel with `rows` lines for rows: the list of files in directory mode,
    /// else the table of contents, each from its scroll position.
    pub fn side_panel(&self, rows: usize) -> (p: SidePanel)
        ensures
            p.title@ == spec_panel_title(self.spec_file_list()),
            self.spec_file_list() ==> {
                &&& rows_view(p.rows@).len() == spec_shown(self.dir_scroll as int, rows as int, self.dir_files@.len() as int)
                &&& forall|k: int| 0 <= k < p.rows@.len()
                    ==> #[trigger] rows_view(p.rows@)[k] == self.spec_file_row(self.dir_scroll + k)
                &&& p.selected == sat(self.dir_cursor - self.dir_scroll)
            },
            !self.spec_file_list() ==> {
                &&& rows_view(p.rows@).len() == spec_shown(self.toc_scroll as int, rows as int, self.document.toc@.len() as int)
                &&& forall|k: int| 0 <= k < p.rows@.len()
                    ==> #[trigger] rows_view(p.rows@)[k] == self.spec_toc_row(self.toc_scroll + k)
                &&& p.selected == sat(self.toc_cursor - self.toc_scroll)
            },
    {
        let file_list = self.directory_mode && self.dir_view == DirView::FileList;
        let (start, len) = if file_list {
            (self.dir_scroll, self.dir_files.len())
        } else {
            (self.toc_scroll, self.document.toc.len())
        };
        let n = shown(start, rows, len);
        let synced = self.synced_toc_index();
        let mut out: Vec<PanelRow> = Vec::new();
        let mut k: usize = 0;
        while k < n
            invariant
                k <= n,
                n == spec_shown(start as int, rows as int, len as int),
                file_list == self.spec_file_list(),
                file_list ==> start == self.dir_scroll && len == self.dir_files@.len(),
                !file_list ==> start == self.toc_scroll && len == self.document.toc@.len(),
                synced == self.spec_synced(),
                out@.len() == k,
                forall|j: int| 0 <= j < k ==> #[trigger] rows_view(out@)[j] == (if file_list {
                    self.spec_file_row(start + j)
                } else {
                    self.spec_toc_row(start + j)
                }),
            decreases n - k,
        {
            let row = if file_list {
                self.file_row(start + k)
            } else {
                self.toc_row(start + k, synced)
            };
            let ghost before = out@;
            out.push(row);
            proof {
                assert forall|j: int| 0 <= j < k + 1 implies #[trigger] rows_view(out@)[j] == (if file_list {
                    self.spec_file_row(start + j)
                } else {
                    self.spec_toc_row(start + j)
                }) by {
                    if j < k {
                        assert(out@[j] == before[j]);
                        assert(rows_view(before)[j] == rows_view(out@)[j]);
                    }
                }
            }
            k = k + 1;
        }
        let (title, cursor) = if file_list {
            (" 📁 files ", self.dir_cursor)
        } else {
            (" 📑 TOC ", self.toc_cursor)
        };
        SidePanel { title, rows: out, selected: cursor.saturating_sub(start) }
    }
}

// ---------------------------------------------------------------------------
// Text panel
// ---------------------------------------------------------------------------

/// The title of the text panel: the file's name, then which match of how many the
/// search is at, where it has any.
pub open spec fn spec_content_title(file_name: Seq<char>, current: u64, matches: u64) -> Seq<char> {
    "  "@ + file_name + " "@ + if matches == 0 {
        Seq::empty()
    } else {
        " "@ + spec_decimal(current) + "/"@ + spec_decimal(matches) + " "@
    }
}

/// The title of the text panel in directory mode's file list: the directory's name.
pub open spec fn spec_list_title(file_name: Seq<char>) -> Seq<char> {
    "  "@ + file_name + " "@
}

/// The last line of directory mode's welcome: how many files were found.
pub open spec fn spec_files_found(count: u64) -> Seq<char> {
    "  "@ + spec_decimal(count) + " markdown file(s) found  "@
}

/// Where an image is drawn: its entry in `image_positions`, its first row in the text
/// panel, and how many rows it has there.
#[derive(Clone, Copy, Debug, PartialEq, Eq, Structural)]
pub struct ImageSlot {
    pub index: usize,
    pub row: u16,
    pub height: u16,
}

/// Whether the image placed at `line` shows in a panel of `height` rows scrolled to
/// `scroll`, and where: from its row down, no more than the image's height and no
/// further than the panel's bottom.
pub open spec fn spec_image_slot(index: int, line: int, scroll: int, height: int) -> Option<ImageSlot> {
    if line < scroll || line >= scroll + height {
        None
    } else {
        let row = line - scroll;
        let h = at_most(crate::renderer::IMAGE_RENDER_HEIGHT as int, height - row);
        if h == 0 {
            None
        } else {
            Some(ImageSlot { index: index as usize, row: row as u16, height: h as u16 })
        }
    }
}

/// The slots of the images among `positions[..k]` that show, in order.
pub open spec fn spec_image_slots(positions: Seq<int>, scroll: int, height: int) -> Seq<ImageSlot>
    decreases positions.len(),
{
    if positions.len() == 0 {
        Seq::empty()
    } else {
        let rest = spec_image_slots(positions.drop_last(), scroll, height);
        match spec_image_slot(positions.len() - 1, positions.last(), scroll, height) {
            Some(slot) => rest.push(slot),
            None => rest,
        }
    }
}

impl App {
    /// The title of the text panel.
    pub fn content_title(&self) -> (s: String)
        requires
            self.search_matches@.len() > 0 ==> self.search_current < self.search_matches@.len(),
        ensures
            self.spec_file_list() ==> s@ == spec_list_title(self.file_name@),
            !self.spec_file_list() ==> s@ == spec_content_title(
                self.file_name@,
                (self.search_current + 1) as u64,
                self.search_matches@.len() as u64,
            ),
    {
        let mut s = String::new();
        push_str(&mut s, "  ");
        push_str(&mut s, self.file_name.as_str());
        push_str(&mut s, " ");
        if self.directory_mode && self.dir_view == DirView::FileList {
            return s;
        }
        let n = self.search_matches.len() as u64;
        if n > 0 {
            let current = (self.search_current + 1) as u64;
            push_str(&mut s, " ");
            push_decimal(&mut s, current);
            push_str(&mut s, "/");
            push_decimal(&mut s, n);
            push_str(&mut s, " ");
        }
        s
    }
    /// Whether the image placed at `line` is near enough the screen to load: within a
    /// screen and an image's height above or below it.
    pub open spec fn spec_near_screen(&self, line: int) -> bool {
        let overscan = self.content_height + crate::renderer::IMAGE_RENDER_HEIGHT;
        sat(self.scroll - overscan) <= line <= self.scroll + self.content_height + overscan
    }

    /// The entries of `image_positions` to load now: none in directory mode, else those
    /// near the screen, in order.
    pub fn images_to_load(&self) -> (v: Vec<usize>)
        ensures
            self.directory_mode ==> v@.len() == 0,
            !self.directory_mode ==> v@ == Seq::new(self.image_positions@.len() as nat, |i: int| i as usize).filter(
                |i: usize| self.spec_near_screen(self.image_positions@[i as int].0 as int),
            ),
    {
        let mut v: Vec<usize> = Vec::new();
        if self.directory_mode {
            return v;
        }
        let ghost all = Seq::new(self.image_positions@.len() as nat, |i: int| i as usize);
        let ghost near = |i: usize| self.spec_near_screen(self.image_positions@[i as int].0 as int);
        let h = self.content_height as usize;
        let overscan = h + crate::renderer::IMAGE_RENDER_HEIGHT;
        let start = self.scroll.saturating_sub(overscan);
        let mut i: usize = 0;
        proof {
            reveal(Seq::filter);
            assert(all.take(0) =~= Seq::<usize>::empty());
        }
        while i < self.image_positions.len()
            invariant
                i <= self.image_positions@.len(),
                all == Seq::new(self.image_positions@.len() as nat, |i: int| i as usize),
                near == (|i: usize| self.spec_near_screen(self.image_positions@[i as int].0 as int)),
                h == self.content_height,
                overscan == self.content_height + crate::renderer::IMAGE_RENDER_HEIGHT,
                start == sat(self.scroll - overscan),
                v@ == all.take(i as int).filter(near),
            decreases self.image_positions@.len() - i,
        {
            let line = self.image_positions[i].0;
            let inside = line >= start && (line <= self.scroll || line - self.scroll <= h + overscan);
            proof {
                assert(all.take(i + 1) =~= all.take(i as int).push(i as usize));
                all.take(i as int).lemma_filter_push(i as usize, near);
                assert(line as int == self.image_positions@[i as int].0 as int);
                assert(inside == self.spec_near_screen(line as int));
                assert(inside == near(i as usize));
            }
            if inside {
                v.push(i);
            }
            i = i + 1;
        }
        assert(all.take(i as int) =~= all);
        v
    }

    /// The images that show in a text panel of `height` rows, and where.
    pub fn image_slots(&self, height: u16) -> (v: Vec<ImageSlot>)
        ensures
            v@ == spec_image_slots(
                Seq::new(self.image_positions@.len(), |i: int| self.image_positions@[i].0 as int),
                self.scroll as int,
                height as int,
            ),
    {
        let ghost positions = Seq::new(self.image_positions@.len(), |i: int| self.image_positions@[i].0 as int);
        let mut v: Vec<ImageSlot> = Vec::new();
        let mut i: usize = 0;
        assert(positions.take(0) =~= Seq::<int>::empty());
        while i < self.image_positions.len()
            invariant
                i <= self.image_positions@.len(),
                positions == Seq::new(self.image_positions@.len(), |i: int| self.image_positions@[i].0 as int),
                v@ == spec_image_slots(positions.take(i as int), self.scroll as int, height as int),
            decreases self.image_positions@.len() - i,
        {
            let line = self.image_positions[i].0;
            assert(positions.take(i + 1).drop_last() =~= positions.take(i as int));
            assert(positions.take(i + 1).last() == line as int);
            if line >= self.scroll && line - self.scroll < height as usize {
                let row = line - self.scroll;
                let room = height as usize - row;
                let h = if crate::renderer::IMAGE_RENDER_HEIGHT < room {
                    crate::renderer::IMAGE_RENDER_HEIGHT
                } else {
                    room
                };
                if h > 0 {
                    v.push(ImageSlot { index: i, row: row as u16, height: h as u16 });
                }
            }
            i = i + 1;
        }
        assert(positions.take(i as int) =~= positions);
        v
    }
}

/// The last line of directory mode's welcome.
pub fn files_found(count: u64) -> (s: String)
    ensures
        s@ == spec_files_found(count),
{
    let mut s = String::new();
    push_str(&mut s, "  ");
    push_decimal(&mut s, count);
    push_str(&mut s, " markdown file(s) found  ");
    s
}

// ---------------------------------------------------------------------------
// Theme picker
// ---------------------------------------------------------------------------

/// The keys of the theme picker's hint, as the configuration names them: those that
/// move, and those that cancel.
pub struct PickerHint {
    pub move_keys: String,
    pub cancel_keys: String,
    /// The whole hint on one line, which sets the picker's width.
    pub line: String,
}

/// The keys that move the picker.
pub open spec fn spec_move_keys(k: KeybindingsConfig) -> Seq<char> {
    k.down@ + "/"@ + k.up@
}

/// The keys that cancel the picker.
pub open spec fn spec_cancel_keys(k: KeybindingsConfig) -> Seq<char> {
    "Esc/"@ + k.next_theme@ + "/"@ + k.quit@
}

/// The picker's hint on one line.
pub open spec fn spec_picker_line(k: KeybindingsConfig) -> Seq<char> {
    spec_move_keys(k) + " or ↑/↓ move   Enter confirm   "@ + spec_cancel_keys(k) + " cancel"@
}

/// The theme picker's hint.
pub fn picker_hint(keys: &KeybindingsConfig) -> (h: PickerHint)
    ensures
        h.move_keys@ == spec_move_keys(*keys),
        h.cancel_keys@ == spec_cancel_keys(*keys),
        h.line@ == spec_picker_line(*keys),
{
    let mut move_keys = String::new();
    push_str(&mut move_keys, keys.down.as_str());
    push_str(&mut move_keys, "/");
    push_str(&mut move_keys, keys.up.as_str());
    let mut cancel_keys = String::new();
    push_str(&mut cancel_keys, "Esc/");
    push_str(&mut cancel_keys, keys.next_theme.as_str());
    push_str(&mut cancel_keys, "/");
    push_str(&mut cancel_keys, keys.quit.as_str());
    let mut line = String::new();
    push_str(&mut line, move_keys.as_str());
    push_str(&mut line, " or ↑/↓ move   Enter confirm   ");
    push_str(&mut line, cancel_keys.as_str());
    push_str(&mut line, " cancel");
    PickerHint { move_keys, cancel_keys, line }
}

/// Where the theme picker goes on a screen of `screen`: as wide as its hint and four
/// columns more, at least 30 and at most the screen; 9 to 12 rows high, at most the
/// screen; centred.
pub open spec fn spec_picker_box(hint_width: int, screen: Area) -> Area {
    let wanted = if hint_width + 4 > 30 {
        hint_width + 4
    } else {
        30
    };
    let w = at_most(wanted, screen.width as int);
    let clamped = if screen.height < 9 {
        9
    } else if screen.height > 12 {
        12
    } else {
        screen.height as int
    };
    let h = at_most(clamped, screen.height as int);
    Area {
        x: (screen.x + sat(screen.width - w) / 2) as u16,
        y: (screen.y + sat(screen.height - h) / 2) as u16,
        width: w as u16,
        height: h as u16,
    }
}

/// Where the theme picker goes.
pub fn picker_box(hint: &str, screen: Area, cjk: bool) -> (a: Area)
    requires
        screen.x + screen.width <= u16::MAX,
        screen.y + screen.height <= u16::MAX,
    ensures
        a == spec_picker_box(spec_str_width(hint@, cjk) as int, screen),
{
    let hw = str_width_capped(hint, 100000, cjk);
    let wanted: usize = if hw + 4 > 30 {
        hw + 4
    } else {
        30
    };
    let w: u16 = if wanted < screen.width as usize {
        wanted as u16
    } else {
        screen.width
    };
    let clamped: u16 = if screen.height < 9 {
        9
    } else if screen.height > 12 {
        12
    } else {
        screen.height
    };
    let h = if clamped < screen.height {
        clamped
    } else {
        screen.height
    };
    Area {
        x: screen.x + (screen.width - w) / 2,
        y: screen.y + (screen.height - h) / 2,
        width: w,
        height: h,
    }
}

/// Row `i` of the theme picker: the theme's name, marked where it is the one chosen.
pub open spec fn spec_picker_row(i: int, chosen: int) -> (Seq<char>, RowStyle) {
    (
        (if i == chosen {
            "› "@
        } else {
            "  "@
        }) + spec_display_name(spec_available_theme(i)),
        if i == chosen {
            RowStyle::Selected
        } else {
            RowStyle::Plain
        },
    )
}

/// The rows of the theme picker, one for each theme on offer.
pub fn picker_rows(chosen: usize) -> (v: Vec<PanelRow>)
    ensures
        rows_view(v@).len() == AVAILABLE_THEME_COUNT,
        forall|i: int| 0 <= i < AVAILABLE_THEME_COUNT ==> #[trigger] rows_view(v@)[i] == spec_picker_row(i, chosen as int),
{
    let mut v: Vec<PanelRow> = Vec::new();
    let mut i: usize = 0;
    while i < AVAILABLE_THEME_COUNT
        invariant
            i <= AVAILABLE_THEME_COUNT,
            v@.len() == i,
            forall|j: int| 0 <= j < i ==> #[trigger] rows_view(v@)[j] == spec_picker_row(j, chosen as int),
        decreases AVAILABLE_THEME_COUNT - i,
    {
        let mut text = String::new();
        let style = if i == chosen {
            push_str(&mut text, "› ");
            RowStyle::Selected
        } else {
            push_str(&mut text, "  ");
            RowStyle::Plain
        };
        push_str(&mut text, available_theme(i).display_name());
        let ghost before = v@;
        v.push(PanelRow { text, style });
        proof {
            assert forall|j: int| 0 <= j < i + 1 implies #[trigger] rows_view(v@)[j] == spec_picker_row(j, chosen as int) by {
                if j < i {
                    assert(v@[j] == before[j]);
                    assert(rows_view(before)[j] == rows_view(v@)[j]);
                }
            }
        }
        i = i + 1;
    }
    v
}

// ---------------------------------------------------------------------------
// Toast and first-run hint
// ---------------------------------------------------------------------------

/// Where a toast of `message_width` columns goes on a screen of `screen`: six columns
/// wider than its message, at least 20 and otherwise no wider than the screen less
/// four; three rows high; centred, three rows above the bottom; no larger than the screen.
pub open spec fn spec_toast_box(message_width: int, screen: Area) -> Area {
    let fitted = at_most(message_width + 6, sat(screen.width - 4));
    let w = if fitted > 20 {
        fitted
    } else {
        20
    };
    let y = sat(screen.height - 6);
    Area {
        x: (sat(screen.width - w) / 2) as u16,
        y: (if y > screen.y {
            y
        } else {
            screen.y as int
        }) as u16,
        width: at_most(w, screen.width as int) as u16,
        height: at_most(3, screen.height as int) as u16,
    }
}

/// Where a toast goes.
pub fn toast_box(message: &str, screen: Area, cjk: bool) -> (a: Area)
    ensures
        a == spec_toast_box(spec_str_width(message@, cjk) as int, screen),
{
    let mw = str_width_capped(message, 100000, cjk);
    let room = screen.width.saturating_sub(4) as usize;
    let fitted = if mw + 6 < room {
        mw + 6
    } else {
        room
    };
    let w: u16 = if fitted > 20 {
        fitted as u16
    } else {
        20
    };
    let y = screen.height.saturating_sub(6);
    Area {
        x: screen.width.saturating_sub(w) / 2,
        y: if y > screen.y {
            y
        } else {
            screen.y
        },
        width: if w < screen.width {
            w
        } else {
            screen.width
        },
        height: if 3 < screen.height {
            3
        } else {
            screen.height
        },
    }
}

/// The hint shown until the first key press.
pub open spec fn spec_first_run_hint() -> Seq<char> {
    "? for help"@
}

/// Where the first-run hint goes: one row, three rows above the bottom, its width and
/// four columns more, one column from the right edge; no larger than the screen.
pub open spec fn spec_hint_box(hint_width: int, screen: Area) -> Area {
    let w = hint_width + 4;
    Area {
        x: sat(screen.width - (w + 1)) as u16,
        y: sat(screen.height - 3) as u16,
        width: at_most(w, screen.width as int) as u16,
        height: at_most(1, screen.height as int) as u16,
    }
}

/// The first-run hint and where it goes.
pub fn first_run_hint(screen: Area, cjk: bool) -> (r: (&'static str, Area))
    ensures
        r.0@ == spec_first_run_hint(),
        r.1 == spec_hint_box(spec_str_width(r.0@, cjk) as int, screen),
{
    let hint = "? for help";
    let hw = str_width_capped(hint, 100000, cjk);
    let w = hw + 4;
    let area = Area {
        x: (screen.width as usize).saturating_sub(w + 1) as u16,
        y: screen.height.saturating_sub(3),
        width: if w < screen.width as usize {
            w as u16
        } else {
            screen.width
        },
        height: if 1 < screen.height {
            1
        } else {
            screen.height
        },
    };
    (hint, area)
}

// ---------------------------------------------------------------------------
// File names found by a search
// ---------------------------------------------------------------------------

/// A piece of a file name in the list: the text, and whether it matches the search.
pub struct NamePiece {
    pub text: String,
    pub matched: bool,
}

/// The texts and flags of a list of pieces.
pub open spec fn pieces_view(v: Seq<NamePiece>) -> Seq<(Seq<char>, bool)> {
    Seq::new(v.len(), |i: int| (v[i].text@, v[i].matched))
}

/// Every match, `qlen` characters from each of `ps`, lies within `n` characters.
pub open spec fn matches_fit(ps: Seq<int>, qlen: int, n: int) -> bool {
    forall|i: int| 0 <= i < ps.len() ==> #[trigger] ps[i] + qlen <= n
}

/// `name` cut at matches of `qlen` characters starting at `ps`, from character `last`
/// on: the text before each match (where there is any), the match, and the rest after
/// the last one (where there is any).
pub open spec fn name_pieces(name: Seq<char>, ps: Seq<int>, qlen: int, last: int) -> Seq<(Seq<char>, bool)>
    decreases ps.len(),
{
    if ps.len() == 0 {
        if last < name.len() {
            seq![(name.subrange(last, name.len() as int), false)]
        } else {
            Seq::empty()
        }
    } else {
        let s = ps[0];
        (if s > last {
            seq![(name.subrange(last, s), false)]
        } else {
            Seq::empty()
        }) + seq![(name.subrange(s, s + qlen), true)] + name_pieces(name, ps.drop_first(), qlen, s + qlen)
    }
}

/// A file name as the list shows it while a search filters it: the indent, then the
/// name with each match of the query in the lowercased name marked, matches found left
/// to right without overlapping; without a query, the name whole.
pub open spec fn spec_highlight(indent: Seq<char>, name: Seq<char>, lower: Seq<char>, query: Seq<char>) -> Seq<(Seq<char>, bool)> {
    seq![(indent, false)] + if query.len() == 0 {
        seq![(name, false)]
    } else {
        name_pieces(name, crate::renderer::search::match_starts(lower, query, 0), query.len() as int, 0)
    }
}

/// Matches found left to right lie at or after where the search starts, and each ends
/// before the next begins.
proof fn lemma_match_starts_spaced(hay: Seq<char>, q: Seq<char>, from: int)
    requires
        q.len() > 0,
        from >= 0,
    ensures
        forall|a: int| 0 <= a < crate::renderer::search::match_starts(hay, q, from).len()
            ==> #[trigger] crate::renderer::search::match_starts(hay, q, from)[a] >= from,
        forall|a: int, b: int| 0 <= a < b < crate::renderer::search::match_starts(hay, q, from).len()
            ==> crate::renderer::search::match_starts(hay, q, from)[a] + q.len()
            <= crate::renderer::search::match_starts(hay, q, from)[b],
    decreases hay.len() + 1 - from,
{
    if from + q.len() > hay.len() {
        assert(crate::renderer::search::match_starts(hay, q, from) == Seq::<int>::empty());
    } else if hay.subrange(from, from + q.len()) == q {
        lemma_match_starts_spaced(hay, q, from + q.len());
        let rest = crate::renderer::search::match_starts(hay, q, from + q.len());
        let all = crate::renderer::search::match_starts(hay, q, from);
        assert(all == seq![from] + rest);
        assert forall|a: int, b: int| 0 <= a < b < all.len() implies all[a] + q.len() <= all[b] by {
            if a == 0 {
                assert(all[b] == rest[b - 1]);
            } else {
                assert(all[a] == rest[a - 1]);
                assert(all[b] == rest[b - 1]);
            }
        }
        assert forall|a: int| 0 <= a < all.len() implies #[trigger] all[a] >= from by {
            if a > 0 {
                assert(all[a] == rest[a - 1]);
            }
        }
    } else {
        lemma_match_starts_spaced(hay, q, from + 1);
        assert(crate::renderer::search::match_starts(hay, q, from) == crate::renderer::search::match_starts(
            hay,
            q,
            from + 1,
        ));
    }
}

fn piece(v: &Vec<char>, from: usize, to: usize, matched: bool) -> (p: NamePiece)
    requires
        from <= to <= v@.len(),
    ensures
        p.text@ == v@.subrange(from as int, to as int),
        p.matched == matched,
{
    NamePiece { text: crate::text::string_of_range(v, from, to), matched }
}

/// A file name cut at the matches of `query_lower` in `name_lower`, the name lowercased.
pub fn highlight_name_with(indent: &str, name: &str, name_lower: &str, query_lower: &str) -> (v: Vec<NamePiece>)
    requires
        query_lower@.len() > 0 ==> matches_fit(
            crate::renderer::search::match_starts(name_lower@, query_lower@, 0),
            query_lower@.len() as int,
            name@.len() as int,
        ),
    ensures
        pieces_view(v@) == spec_highlight(indent@, name@, name_lower@, query_lower@),
{
    let mut v: Vec<NamePiece> = Vec::new();
    let mut first = String::new();
    push_str(&mut first, indent);
    v.push(NamePiece { text: first, matched: false });
    let q = crate::text::chars_of(query_lower);
    if q.len() == 0 {
        let mut whole = String::new();
        push_str(&mut whole, name);
        v.push(NamePiece { text: whole, matched: false });
        assert(pieces_view(v@) =~= spec_highlight(indent@, name@, name_lower@, query_lower@));
        return v;
    }
    let chars = crate::text::chars_of(name);
    let lower = crate::text::chars_of(name_lower);
    let ps = crate::renderer::search::find_all(&lower, &q);
    let ghost starts = crate::renderer::search::match_starts(lower@, q@, 0);
    let ghost qlen = q@.len() as int;
    let nlen = chars.len();
    let mut last: usize = 0;
    let mut i: usize = 0;
    assert(starts.skip(0) =~= starts);
    proof {
        lemma_match_starts_spaced(lower@, q@, 0);
    }
    while i < ps.len()
        invariant
            i <= ps@.len() == starts.len(),
            q@.len() > 0,
            qlen == q@.len(),
            chars@ == name@,
            nlen == chars@.len(),
            forall|k: int| 0 <= k < ps@.len() ==> #[trigger] ps@[k] as int == starts[k],
            matches_fit(starts, qlen, chars@.len() as int),
            forall|a: int, b: int| 0 <= a < b < starts.len() ==> starts[a] + qlen <= starts[b],
            i > 0 ==> last == starts[i - 1] + qlen,
            i == 0 ==> last == 0,
            i < starts.len() ==> last <= starts[i as int],
            last <= chars@.len(),
            pieces_view(v@) + name_pieces(name@, starts.skip(i as int), qlen, last as int) == spec_highlight(
                indent@,
                name@,
                name_lower@,
                query_lower@,
            ),
        decreases ps@.len() - i,
    {
        let start = ps[i];
        assert(starts[i as int] + qlen <= chars@.len());
        let end = start + q.len();
        let ghost before = v@;
        let ghost rest = starts.skip(i as int);
        assert(rest[0] == start as int);
        assert(rest.drop_first() =~= starts.skip(i + 1));
        if start > last {
            v.push(piece(&chars, last, start, false));
        }
        v.push(piece(&chars, start, end, true));
        proof {
            let head = if start > last {
                seq![(name@.subrange(last as int, start as int), false)]
            } else {
                Seq::empty()
            };
            assert(pieces_view(v@) =~= pieces_view(before) + head + seq![(name@.subrange(start as int, end as int), true)]);
            if i + 1 < starts.len() {
                assert(starts[i as int] + qlen <= starts[i + 1]);
            }
        }
        last = end;
        i = i + 1;
    }
    let ghost before = v@;
    assert(starts.skip(i as int) =~= Seq::<int>::empty());
    if last < chars.len() {
        v.push(piece(&chars, last, chars.len(), false));
        assert(pieces_view(v@) =~= pieces_view(before) + seq![(name@.subrange(last as int, name@.len() as int), false)]);
    } else {
        assert(pieces_view(v@) =~= pieces_view(before) + Seq::<(Seq<char>, bool)>::empty());
    }
    v
}

/// A file name as the list shows it while a search filters it, or `None` where a match
/// in the lowercased name reaches past the end of the name (lowercasing can lengthen a
/// name), which the cut cannot follow.
pub fn highlight_file_name(indent: &str, name: &str, query_lower: &str) -> (r: Option<Vec<NamePiece>>)
    ensures
        r is Some <==> (query_lower@.len() == 0 || matches_fit(
            crate::renderer::search::match_starts(crate::text::str_lowercase(name@), query_lower@, 0),
            query_lower@.len() as int,
            name@.len() as int,
        )),
        r matches Some(v) ==> pieces_view(v@) == spec_highlight(
            indent@,
            name@,
            crate::text::str_lowercase(name@),
            query_lower@,
        ),
{
    if query_lower.unicode_len() == 0 {
        return Some(highlight_name_with(indent, name, name, query_lower));
    }
    let lower = crate::text::to_lowercase(name);
    let q = crate::text::chars_of(query_lower);
    let lv = crate::text::chars_of(lower.as_str());
    let ps = crate::renderer::search::find_all(&lv, &q);
    let n = name.unicode_len();
    let mut k: usize = 0;
    while k < ps.len()
        invariant
            k <= ps@.len(),
            q@ == query_lower@,
            lv@ == lower@,
            lower@ == crate::text::str_lowercase(name@),
            n == name@.len(),
            ps@.len() == crate::renderer::search::match_starts(lv@, q@, 0).len(),
            forall|i: int| 0 <= i < ps@.len() ==> #[trigger] ps@[i] as int == crate::renderer::search::match_starts(lv@, q@, 0)[i],
            forall|i: int| 0 <= i < ps@.len() ==> ps@[i] + q@.len() <= lv@.len(),
            forall|i: int| 0 <= i < k ==> #[trigger] crate::renderer::search::match_starts(lv@, q@, 0)[i] + q@.len() <= n,
        decreases ps@.len() - k,
    {
        if ps[k] > n || q.len() > n - ps[k] {
            assert(crate::renderer::search::match_starts(lv@, q@, 0)[k as int] + q@.len() > n);
            return None;
        }
        k = k + 1;
    }
    Some(highlight_name_with(indent, name, lower.as_str(), query_lower))
}

// ---------------------------------------------------------------------------
// Screen layout
// ---------------------------------------------------------------------------

/// Columns kept free on the two sides of the text, together.
pub const CONTENT_MARGIN: u16 = 2;

/// What `ratatui`'s `Layout::vertical([Min(0), Length(1)])` makes of an area: the area
/// above the last row, and the last row.
pub uninterp spec fn ratatui_status_split(screen: Area) -> (Area, Area);

/// What `ratatui`'s `Layout::horizontal([Percentage(pct), Percentage(100 - pct)])` makes
/// of an area: the left part and the right part.
pub uninterp spec fn ratatui_percent_split(area: Area, pct: u16) -> (Area, Area);

/// Calls `ratatui::layout::Layout::vertical` with a flexible area above a one-row one and
/// splits `screen` with it; the result depends on `screen` alone.
#[verifier::external_body]
fn split_status_line(screen: Area) -> (r: (Area, Area))
    ensures
        r == ratatui_status_split(screen),
{
    let layout = Layout::vertical([Constraint::Min(0), Constraint::Length(1)]);
    let [a, b] = layout.areas(Rect::new(screen.x, screen.y, screen.width, screen.height));
    (Area { x: a.x, y: a.y, width: a.width, height: a.height }, Area { x: b.x, y: b.y, width: b.width, height: b.height })
}

/// Calls `ratatui::layout::Layout::horizontal` with `pct` and the remaining percent and
/// splits `area` with it; the result depends on `area` and `pct` alone.
#[verifier::external_body]
fn split_percent(area: Area, pct: u16) -> (r: (Area, Area))
    requires
        pct <= 100,
    ensures
        r == ratatui_percent_split(area, pct),
{
    let layout = Layout::horizontal([Constraint::Percentage(pct), Constraint::Percentage(100 - pct)]);
    let [a, b] = layout.areas(Rect::new(area.x, area.y, area.width, area.height));
    (Area { x: a.x, y: a.y, width: a.width, height: a.height }, Area { x: b.x, y: b.y, width: b.width, height: b.height })
}

/// Where the panels go: the side panel (when shown), the text panel, the status bar.
pub struct ScreenLayout {
    pub toc: Option<Area>,
    pub content: Area,
    pub status: Area,
}

/// The side panel's share of the width, in percent: as set, at most half.
pub open spec fn toc_share(pct: u16) -> u16 {
    if pct < 50 {
        pct
    } else {
        50
    }
}

impl App {
    /// Splits `screen` into the panels: the status bar on the last row; above it the side
    /// panel, when shown, on the left with its share of the width, and the text panel;
    /// and takes the panels' sizes (`set_layout`).
    pub fn calculate_layout(&mut self, screen: Area, content_margin: u16) -> (l: ScreenLayout)
        ensures
            l.status == ratatui_status_split(screen).1,
            old(self).show_toc && (old(self).document.toc@.len() > 0 || old(self).directory_mode) ==> {
                let parts = ratatui_percent_split(ratatui_status_split(screen).0, toc_share(old(self).toc_width_pct));
                l.toc == Some(parts.0) && l.content == parts.1
            },
            !(old(self).show_toc && (old(self).document.toc@.len() > 0 || old(self).directory_mode)) ==> l.toc is None
                && l.content == ratatui_status_split(screen).0,
            final(self).toc_height == (match l.toc {
                Some(t) => crate::app::sat_sub_u16(t.height, crate::app::PANEL_BORDER_SIZE),
                None => 0,
            }),
            final(self).content_height == crate::app::sat_sub_u16(l.content.height, crate::app::PANEL_BORDER_SIZE),
            final(self).content_width == crate::app::sat_sub_u16(
                crate::app::sat_sub_u16(l.content.width, crate::app::PANEL_BORDER_SIZE),
                ((content_margin / 2) * 2) as u16,
            ),
            final(self).full_content_width == final(self).content_width,
            *final(self) == (App {
                toc_height: final(self).toc_height,
                content_height: final(self).content_height,
                content_width: final(self).content_width,
                full_content_width: final(self).full_content_width,
                ..*old(self)
            }),
    {
        let (main, status) = split_status_line(screen);
        let (toc, content) = if self.shows_toc_panel() {
            let pct = if self.toc_width_pct < 50 {
                self.toc_width_pct
            } else {
                50
            };
            let (left, right) = split_percent(main, pct);
            (Some(left), right)
        } else {
            (None, main)
        };
        let toc_height = match toc {
            Some(t) => Some(t.height),
            None => None,
        };
        self.set_layout(toc_height, content.width, content.height, content_margin);
        ScreenLayout { toc, content, status }
    }
}

} // verus!
