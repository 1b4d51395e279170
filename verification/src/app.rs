//! The viewer's state and what each user action does to it.
use crate::parser::{views, Document, DocNodeV};
use crate::renderer::code::CodeHighlighter;
use crate::renderer::measure::{nodes_ok, spec_node_height};
use crate::renderer::nodes::{
    nodes_render_ok, render_nodes, render_viewport, sorted, spec_render_nodes, spec_viewport,
    RenderResult,
};
use crate::renderer::search::{apply_search_highlight, spec_apply_search};
use crate::renderer::{line_text, StyledLine};
use crate::text::{push_char, str_lowercase, to_lowercase};
use std::sync::Arc;
use vstd::prelude::*;

verus! {

/// How long a search waits after the last keystroke before it runs, in milliseconds.
pub const SEARCH_DEBOUNCE_MS: u64 = 75;

/// How many highlighted lines the search keeps.
pub const MAX_SEARCH_HIGHLIGHT_CACHE: usize = 256;

/// How many parsed files directory mode keeps.
pub const MAX_FILE_CACHE: usize = 32;

/// Lines rendered above and below the viewport for smooth scrolling.
pub const RENDER_BUFFER_LINES: usize = 50;

/// How long a toast stays, in milliseconds.
pub const TOAST_MS: u64 = 1500;

/// Which panel keys act on.
#[derive(Clone, Copy, Debug, PartialEq, Eq, Structural)]
pub enum Focus {
    Toc,
    Content,
}

/// What keys do.
#[derive(Clone, Copy, Debug, PartialEq, Eq, Structural)]
pub enum Mode {
    Normal,
    Search,
    Help,
    ThemePicker,
}

/// In directory mode: the list of files, or one file.
#[derive(Clone, Copy, Debug, PartialEq, Eq, Structural)]
pub enum DirView {
    FileList,
    FileView,
}

/// A markdown file found in directory mode.
#[derive(Clone, Debug)]
pub struct DirEntry {
    pub path: String,
    pub display_name: String,
    pub depth: usize,
    /// Modification time, in nanoseconds since the epoch.
    pub modified: u64,
}

/// A short message shown for a while.
#[derive(Clone, Debug)]
pub struct Toast {
    pub message: String,
    /// When it appeared, in milliseconds.
    pub created_at: u64,
    /// How long it stays, in milliseconds.
    pub duration: u64,
}

/// The first file shown when file `cursor` is to be the last of `rows` shown; with no
/// rows shown, the first file of all.
pub open spec fn list_top_for(cursor: int, rows: int) -> int {
    if rows == 0 {
        0
    } else if cursor >= rows - 1 {
        cursor - (rows - 1)
    } else {
        0
    }
}

/// Whether a toast shown at `created_at` for `duration` is gone at `now`.
pub open spec fn toast_expired(created_at: int, duration: int, now: int) -> bool {
    now > created_at && now - created_at > duration
}

/// Once a toast has expired it stays expired.
pub proof fn law_toast_stays_expired(created_at: int, duration: int, now: int, later: int)
    requires
        toast_expired(created_at, duration, now),
        now <= later,
    ensures
        toast_expired(created_at, duration, later),
{
}

impl Toast {
    /// A toast showing `message` from `now` on for `duration_ms`.
    pub fn new(message: &str, duration_ms: u64, now: u64) -> (t: Toast)
        ensures
            t.message@ == message@,
            t.created_at == now,
            t.duration == duration_ms,
    {
        let mut m = String::new();
        crate::text::push_str(&mut m, message);
        Toast { message: m, created_at: now, duration: duration_ms }
    }

    /// Whether the toast has been shown for longer than its duration at time `now`.
    pub fn is_expired(&self, now: u64) -> (b: bool)
        ensures
            b == toast_expired(self.created_at as int, self.duration as int, now as int),
    {
        now > self.created_at && now - self.created_at > self.duration
    }
}

/// A parsed file of directory mode with its layout.
pub struct CachedDocument {
    pub document: Arc<Document>,
    pub node_heights: Vec<usize>,
    pub node_line_starts: Vec<usize>,
    pub total_lines: usize,
    pub toc_line_indices: Vec<usize>,
}

/// Calls `Arc::clone`: another handle to the same document.
#[verifier::external_body]
fn share(d: &Arc<Document>) -> (r: Arc<Document>)
    ensures
        r == *d,
{
    Arc::clone(d)
}

/// The application state.
pub struct App {
    pub file_path: String,
    pub file_name: String,
    pub document: Arc<Document>,
    pub node_heights: Vec<usize>,
    pub node_line_starts: Vec<usize>,
    pub total_content_lines: usize,
    pub raw_lines: Vec<String>,
    pub image_positions: Vec<(usize, String, String)>,
    pub toc_line_indices: Vec<usize>,
    pub viewport_scroll: usize,
    pub viewport_lines: Vec<StyledLine>,
    pub viewport_dirty: bool,
    /// The lowercased text of every rendered line, for search.
    pub full_rendered_texts: Vec<String>,
    pub full_render_width: u16,
    pub content_height: u16,
    pub content_width: u16,
    pub full_content_width: u16,
    pub toc_width_pct: u16,
    pub show_toc: bool,
    pub focus: Focus,
    pub scroll: usize,
    pub toc_cursor: usize,
    pub toc_scroll: usize,
    pub toc_height: u16,
    pub mode: Mode,
    pub search_query: String,
    pub search_matches: Vec<usize>,
    pub search_current: usize,
    /// Highlighted lines by index, oldest first.
    pub search_highlight_cache: Vec<(usize, StyledLine)>,
    pub cached_search_query: Option<String>,
    pub search_dirty: bool,
    /// When a pending search runs, in milliseconds.
    pub search_deadline: Option<u64>,
    pub theme_picker_index: usize,
    pub theme_picker_origin: Option<usize>,
    pub toast: Option<Toast>,
    pub first_run: bool,
    pub quit: bool,
    pub directory_mode: bool,
    pub dir_view: DirView,
    pub dir_files: Vec<DirEntry>,
    pub dir_base: String,
    pub dir_cursor: usize,
    pub dir_scroll: usize,
    pub current_file_index: Option<usize>,
    /// Parsed files by index, least recently used first.
    pub file_cache: Vec<(usize, CachedDocument)>,
    /// Scroll positions left in files, by index.
    pub scroll_positions: Vec<(usize, usize)>,
    /// Whether East Asian ambiguous characters count two columns.
    pub cjk: bool,
}

/// How far down the document `scroll` is, in percent of `total` lines (100 for an empty
/// document, and never more than 100).
pub open spec fn spec_scroll_percent(scroll: int, total: int) -> int {
    if total == 0 {
        100
    } else if (scroll * 100) / total <= 100 {
        (scroll * 100) / total
    } else {
        100
    }
}

/// How many of `s` are at most `x`.
pub open spec fn count_at_most(s: Seq<usize>, x: int) -> nat
    decreases s.len(),
{
    if s.len() == 0 {
        0
    } else {
        count_at_most(s.drop_last(), x) + if s.last() <= x {
            1nat
        } else {
            0nat
        }
    }
}

proof fn lemma_count_sorted(s: Seq<usize>, x: int)
    requires
        crate::renderer::nodes::sorted(s),
    ensures
        count_at_most(s, x) <= s.len(),
        forall|i: int| 0 <= i < count_at_most(s, x) ==> s[i] <= x,
        forall|i: int| count_at_most(s, x) <= i < s.len() ==> s[i] > x,
    decreases s.len(),
{
    if s.len() > 0 {
        let d = s.drop_last();
        assert(crate::renderer::nodes::sorted(d)) by {
            assert forall|i: int, j: int| 0 <= i <= j < d.len() implies d[i] <= d[j] by {
                assert(d[i] == s[i] && d[j] == s[j]);
            }
        }
        lemma_count_sorted(d, x);
        let c = count_at_most(d, x);
        if s.last() <= x {
            assert forall|i: int| 0 <= i < d.len() implies d[i] <= x by {
                assert(d[i] == s[i]);
                assert(s[i] <= s[s.len() - 1]);
            }
            assert(c == d.len());
        }
        assert forall|i: int| 0 <= i < count_at_most(s, x) implies s[i] <= x by {
            if i < d.len() {
                assert(d[i] == s[i]);
            }
        }
        assert forall|i: int| count_at_most(s, x) <= i < s.len() implies s[i] > x by {
            if i < d.len() {
                assert(d[i] == s[i]);
            }
        }
    }
}

/// The heading the table of contents follows is the last one that starts at or above the
/// top line on screen: it starts there or earlier, and the next one starts below.
pub proof fn law_synced_heading_is_last_above(toc_lines: Seq<usize>, scroll: int)
    requires
        crate::renderer::nodes::sorted(toc_lines),
        count_at_most(toc_lines, scroll) > 0,
    ensures
        ({
            let k = count_at_most(toc_lines, scroll) - 1;
            &&& 0 <= k < toc_lines.len()
            &&& toc_lines[k] <= scroll
            &&& k + 1 < toc_lines.len() ==> toc_lines[k + 1] > scroll
        }),
{
    lemma_count_sorted(toc_lines, scroll);
}

proof fn lemma_count_le_len(s: Seq<usize>, x: int)
    ensures
        count_at_most(s, x) <= s.len(),
    decreases s.len(),
{
    if s.len() > 0 {
        lemma_count_le_len(s.drop_last(), x);
    }
}

/// How many of `v` are at most `x`.
fn count_le(v: &Vec<usize>, x: usize) -> (c: usize)
    ensures
        c == count_at_most(v@, x as int),
        c <= v@.len(),
{
    let mut c: usize = 0;
    let mut k: usize = 0;
    while k < v.len()
        invariant
            k <= v@.len(),
            c == count_at_most(v@.take(k as int), x as int),
            c <= k,
        decreases v@.len() - k,
    {
        assert(v@.take(k + 1).drop_last() =~= v@.take(k as int));
        if v[k] <= x {
            c = c + 1;
        }
        k = k + 1;
    }
    assert(v@.take(v@.len() as int) =~= v@);
    c
}

/// The table-of-contents line of each entry: where its node starts (0 past the nodes).
pub open spec fn spec_toc_lines(toc_nodes: Seq<int>, starts: Seq<usize>) -> Seq<usize> {
    Seq::new(
        toc_nodes.len(),
        |i: int|
            if 0 <= toc_nodes[i] < starts.len() {
                starts[toc_nodes[i]]
            } else {
                0usize
            },
    )
}

/// The layout of a document at `width` columns: each node's height, its first line, the
/// total, and the first line of each table-of-contents entry.
pub struct Measured {
    pub node_heights: Vec<usize>,
    pub node_line_starts: Vec<usize>,
    pub total_content_lines: usize,
    pub toc_line_indices: Vec<usize>,
}

impl App {
    /// What the rest of the state relies on: the document can be laid out, and there is one
    /// start per node, in order; no file is kept twice, nor more files than the limit, and
    /// no file has two saved scroll positions.
    pub open spec fn wf(&self) -> bool {
        &&& nodes_ok(views(self.document.nodes@))
        &&& nodes_render_ok(views(self.document.nodes@), self.cjk)
        &&& self.node_line_starts@.len() == self.document.nodes@.len()
        &&& sorted(self.node_line_starts@)
        &&& distinct_keys(self.file_cache@)
        &&& self.file_cache@.len() <= MAX_FILE_CACHE
        &&& distinct_keys(self.scroll_positions@)
    }

    /// The lines that can be scrolled to: all but a screenful.
    pub open spec fn spec_max_scroll(&self) -> nat {
        if self.total_content_lines >= self.content_height {
            (self.total_content_lines - self.content_height) as nat
        } else {
            0
        }
    }

    pub fn total_lines(&self) -> (n: usize)
        ensures
            n == self.total_content_lines,
    {
        self.total_content_lines
    }

    pub fn max_scroll(&self) -> (n: usize)
        ensures
            n == self.spec_max_scroll(),
    {
        self.total_lines().saturating_sub(self.content_height as usize)
    }

    /// Lays the document out again for `width` columns: its node heights, where each node
    /// starts, its length and where its headings are. Leaves everything as it was when the
    /// document has more lines than can be counted.
    pub fn remeasure(&mut self, width: u16) -> (done: bool)
        requires
            old(self).wf(),
        ensures
            final(self).wf(),
            !done ==> *final(self) == *old(self),
            done <==> crate::renderer::measure::prefix_sum(
                Seq::new(old(self).document.nodes@.len(), |k: int| spec_node_height(old(self).document.nodes@[k]@, width as nat, old(self).cjk) as usize),
                old(self).document.nodes@.len() as int,
            ) <= usize::MAX,
            done ==> {
                &&& final(self).document == old(self).document
                &&& final(self).node_heights@.len() == old(self).document.nodes@.len()
                &&& forall|k: int| 0 <= k < old(self).document.nodes@.len() ==> (#[trigger] final(self).node_line_starts@[k]) as nat
                    == crate::renderer::measure::prefix_sum(final(self).node_heights@, k)
                &&& final(self).node_line_starts@.len() == old(self).document.nodes@.len()
                &&& final(self).toc_line_indices@ == spec_toc_lines(
                    Seq::new(old(self).document.toc@.len(), |i: int| old(self).document.toc@[i].node_index as int),
                    final(self).node_line_starts@,
                )
                &&& forall|k: int| 0 <= k < old(self).document.nodes@.len() ==> (#[trigger] final(self).node_heights@[k]) as nat
                    == spec_node_height(old(self).document.nodes@[k]@, width as nat, old(self).cjk)
                &&& final(self).total_content_lines as nat == crate::renderer::measure::prefix_sum(
                    final(self).node_heights@,
                    old(self).document.nodes@.len() as int,
                )
                &&& final(self).viewport_dirty
            },
    {
        match measure_document(&self.document, width, self.cjk) {
            Some(m) => {
                assert(m.node_heights@ =~= Seq::new(
                    old(self).document.nodes@.len(),
                    |k: int| spec_node_height(old(self).document.nodes@[k]@, width as nat, old(self).cjk) as usize,
                ));
                self.node_heights = m.node_heights;
                self.node_line_starts = m.node_line_starts;
                self.total_content_lines = m.total_content_lines;
                self.toc_line_indices = m.toc_line_indices;
                self.mark_viewport_dirty();
                true
            },
            None => false,
        }
    }

    /// Whether the side panel is shown: when asked for and there is a table of contents or
    /// a file list to show.
    pub fn shows_toc_panel(&self) -> (b: bool)
        ensures
            b == (self.show_toc && (self.document.toc@.len() > 0 || self.directory_mode)),
    {
        self.show_toc && (self.toc_len() > 0 || self.is_directory_mode())
    }

    /// Takes the sizes of the screen areas: the side panel's height (when it is shown) and
    /// the content area's width and height, both with their borders; `content_margin` is
    /// split between the two sides.
    pub fn set_layout(&mut self, toc_area_height: Option<u16>, content_area_width: u16, content_area_height: u16, content_margin: u16)
        ensures
            final(self).toc_height == (match toc_area_height {
                Some(h) => sat_sub_u16(h, PANEL_BORDER_SIZE),
                None => 0,
            }),
            final(self).content_height == sat_sub_u16(content_area_height, PANEL_BORDER_SIZE),
            final(self).content_width == sat_sub_u16(
                sat_sub_u16(content_area_width, PANEL_BORDER_SIZE),
                ((content_margin / 2) * 2) as u16,
            ),
            final(self).full_content_width == final(self).content_width,
            *final(self) == (App {
                toc_height: final(self).toc_height,
                content_height: final(self).content_height,
                content_width: final(self).content_width,
                full_content_width: final(self).full_content_width,
                ..*old(self)
            }),
    {
        self.toc_height = match toc_area_height {
            Some(h) => h.saturating_sub(PANEL_BORDER_SIZE),
            None => 0,
        };
        let effective_margin = (content_margin / 2) * 2;
        self.content_height = content_area_height.saturating_sub(PANEL_BORDER_SIZE);
        self.content_width = content_area_width.saturating_sub(PANEL_BORDER_SIZE).saturating_sub(effective_margin);
        self.full_content_width = self.content_width;
    }

    /// How far down the document the view is, in percent of its lines (100 for an empty one).
    pub fn scroll_percent(&self) -> (p: u64)
        requires
            self.scroll <= u64::MAX / 100,
        ensures
            p == spec_scroll_percent(self.scroll as int, self.total_content_lines as int),
    {
        if self.total_content_lines == 0 {
            return 100;
        }
        let p = (self.scroll as u64 * 100) / (self.total_content_lines as u64);
        if p <= 100 {
            p
        } else {
            100
        }
    }

    /// Half a screen, at least one line.
    pub fn half_page(&self) -> (n: usize)
        ensures
            n == (if self.content_height / 2 >= 1 { (self.content_height / 2) as usize } else { 1usize }),
    {
        let h = self.content_height as usize / 2;
        if h > 1 {
            h
        } else {
            1
        }
    }

    /// Marks the rendered viewport stale and drops the search texts.
    pub fn mark_viewport_dirty(&mut self)
        ensures
            final(self).viewport_dirty,
            final(self).full_rendered_texts@.len() == 0,
            *final(self) == (App {
                viewport_dirty: true,
                full_rendered_texts: final(self).full_rendered_texts,
                ..*old(self)
            }),
    {
        self.viewport_dirty = true;
        self.full_rendered_texts.clear();
    }

    /// Where the table-of-contents cursor lands for the scroll position: the last heading
    /// at or above it.
    pub open spec fn spec_synced_cursor(&self) -> nat {
        let c = count_at_most(self.toc_line_indices@, self.scroll as int);
        if c > 0 {
            (c - 1) as nat
        } else {
            0
        }
    }

    /// The table-of-contents scroll that keeps `cursor` in a panel `h` rows high.
    pub open spec fn spec_toc_scroll_for(cursor: nat, scroll: nat, h: nat) -> nat {
        if h == 0 {
            scroll
        } else if cursor < scroll {
            cursor
        } else if cursor >= scroll + h {
            (cursor - h + 1) as nat
        } else {
            scroll
        }
    }

    fn ensure_toc_cursor_visible(&mut self)
        ensures
            *final(self) == (App {
                toc_scroll: Self::spec_toc_scroll_for(
                    old(self).toc_cursor as nat,
                    old(self).toc_scroll as nat,
                    old(self).toc_height as nat,
                ) as usize,
                ..*old(self)
            }),
    {
        let h = self.toc_height as usize;
        if h == 0 {
            return;
        }
        if self.toc_cursor < self.toc_scroll {
            self.toc_scroll = self.toc_cursor;
        } else if self.toc_cursor - self.toc_scroll >= h {
            self.toc_scroll = self.toc_cursor - h + 1;
        }
    }

    /// Moves the table-of-contents cursor to the heading the scroll position is under.
    fn sync_toc_to_scroll(&mut self)
        ensures
            old(self).toc_line_indices@.len() == 0 || old(self).spec_synced_cursor() == old(self).toc_cursor
                ==> *final(self) == *old(self),
            old(self).toc_line_indices@.len() > 0 && old(self).spec_synced_cursor() != old(self).toc_cursor
                ==> *final(self) == (App {
                toc_cursor: old(self).spec_synced_cursor() as usize,
                toc_scroll: Self::spec_toc_scroll_for(
                    old(self).spec_synced_cursor(),
                    old(self).toc_scroll as nat,
                    old(self).toc_height as nat,
                ) as usize,
                ..*old(self)
            }),
    {
        if self.toc_line_indices.len() == 0 {
            return;
        }
        let c = count_le(&self.toc_line_indices, self.scroll);
        let idx = if c > 0 {
            c - 1
        } else {
            0
        };
        if idx != self.toc_cursor {
            self.toc_cursor = idx;
            self.ensure_toc_cursor_visible();
        }
    }

    /// Scrolls to `line` (at most the last screenful), marks the viewport stale and syncs
    /// the table of contents.
    pub fn scroll_to(&mut self, line: usize)
        ensures
            final(self).scroll == (if line <= old(self).spec_max_scroll() { line as nat } else { old(self).spec_max_scroll() }),
            final(self).viewport_dirty,
            final(self).full_rendered_texts@.len() == 0,
            final(self).toc_cursor == (if final(self).toc_line_indices@.len() > 0 { final(self).spec_synced_cursor() } else { old(self).toc_cursor as nat }),
            *final(self) == (App {
                scroll: final(self).scroll,
                viewport_dirty: true,
                full_rendered_texts: final(self).full_rendered_texts,
                toc_cursor: final(self).toc_cursor,
                toc_scroll: final(self).toc_scroll,
                ..*old(self)
            }),
    {
        let m = self.max_scroll();
        self.scroll = if line < m {
            line
        } else {
            m
        };
        self.mark_viewport_dirty();
        let ghost mid = *self;
        let n = self.toc_line_indices.len();
        proof {
            lemma_count_le_len(self.toc_line_indices@, self.scroll as int);
        }
        self.sync_toc_to_scroll();
        assert(self.toc_line_indices == mid.toc_line_indices);
        assert(self.scroll == mid.scroll);
        assert(self.spec_synced_cursor() == mid.spec_synced_cursor());
    }

    /// Scrolls down `n` lines, no further than the last screenful.
    pub fn scroll_down(&mut self, n: usize)
        ensures
            final(self).scroll == scrolled_down(old(self).scroll as int, n as int, old(self).spec_max_scroll() as int),
            final(self).viewport_dirty,
            *final(self) == (App {
                scroll: final(self).scroll,
                viewport_dirty: true,
                full_rendered_texts: final(self).full_rendered_texts,
                toc_cursor: final(self).toc_cursor,
                toc_scroll: final(self).toc_scroll,
                ..*old(self)
            }),
    {
        let m = self.max_scroll();
        self.scroll = if self.scroll <= m && n <= m - self.scroll {
            self.scroll + n
        } else {
            m
        };
        self.mark_viewport_dirty();
        self.sync_toc_to_scroll();
    }

    /// Scrolls up `n` lines, no further than the top.
    pub fn scroll_up(&mut self, n: usize)
        ensures
            final(self).scroll == scrolled_up(old(self).scroll as int, n as int),
            final(self).viewport_dirty,
            *final(self) == (App {
                scroll: final(self).scroll,
                viewport_dirty: true,
                full_rendered_texts: final(self).full_rendered_texts,
                toc_cursor: final(self).toc_cursor,
                toc_scroll: final(self).toc_scroll,
                ..*old(self)
            }),
    {
        self.scroll = self.scroll.saturating_sub(n);
        self.mark_viewport_dirty();
        self.sync_toc_to_scroll();
    }

    pub fn scroll_top(&mut self)
        ensures
            final(self).scroll == 0,
            final(self).viewport_dirty,
            *final(self) == (App {
                scroll: 0,
                viewport_dirty: true,
                full_rendered_texts: final(self).full_rendered_texts,
                toc_cursor: final(self).toc_cursor,
                toc_scroll: final(self).toc_scroll,
                ..*old(self)
            }),
    {
        self.scroll = 0;
        self.mark_viewport_dirty();
        self.sync_toc_to_scroll();
    }

    pub fn scroll_bottom(&mut self)
        ensures
            final(self).scroll == old(self).spec_max_scroll(),
            final(self).viewport_dirty,
            *final(self) == (App {
                scroll: final(self).scroll,
                viewport_dirty: true,
                full_rendered_texts: final(self).full_rendered_texts,
                toc_cursor: final(self).toc_cursor,
                toc_scroll: final(self).toc_scroll,
                ..*old(self)
            }),
    {
        self.scroll = self.max_scroll();
        self.mark_viewport_dirty();
        self.sync_toc_to_scroll();
    }

    pub fn toc_len(&self) -> (n: usize)
        ensures
            n == self.document.toc@.len(),
    {
        self.document.toc.len()
    }

    /// Moves the table-of-contents cursor down one entry, if there is one.
    pub fn toc_down(&mut self)
        ensures
            old(self).toc_cursor + 1 < old(self).document.toc@.len() ==> *final(self) == (App {
                toc_cursor: (old(self).toc_cursor + 1) as usize,
                toc_scroll: Self::spec_toc_scroll_for(
                    (old(self).toc_cursor + 1) as nat,
                    old(self).toc_scroll as nat,
                    old(self).toc_height as nat,
                ) as usize,
                ..*old(self)
            }),
            old(self).toc_cursor + 1 >= old(self).document.toc@.len() ==> *final(self) == *old(self),
    {
        if self.toc_cursor < self.toc_len() && self.toc_cursor + 1 < self.toc_len() {
            self.toc_cursor = self.toc_cursor + 1;
            self.ensure_toc_cursor_visible();
        }
    }

    /// Moves the table-of-contents cursor up one entry, if there is one.
    pub fn toc_up(&mut self)
        ensures
            old(self).toc_cursor > 0 ==> *final(self) == (App {
                toc_cursor: (old(self).toc_cursor - 1) as usize,
                toc_scroll: Self::spec_toc_scroll_for(
                    (old(self).toc_cursor - 1) as nat,
                    old(self).toc_scroll as nat,
                    old(self).toc_height as nat,
                ) as usize,
                ..*old(self)
            }),
            old(self).toc_cursor == 0 ==> *final(self) == *old(self),
    {
        if self.toc_cursor > 0 {
            self.toc_cursor = self.toc_cursor - 1;
            self.ensure_toc_cursor_visible();
        }
    }

    /// Scrolls to the heading under the table-of-contents cursor.
    pub fn toc_jump_to_cursor(&mut self)
        ensures
            old(self).toc_cursor >= old(self).toc_line_indices@.len() ==> *final(self) == *old(self),
            old(self).toc_cursor < old(self).toc_line_indices@.len() ==> final(self).scroll == (
                if old(self).toc_line_indices@[old(self).toc_cursor as int] <= old(self).spec_max_scroll() {
                    old(self).toc_line_indices@[old(self).toc_cursor as int] as nat
                } else {
                    old(self).spec_max_scroll()
                }),
            old(self).toc_cursor < old(self).toc_line_indices@.len() ==> *final(self) == (App {
                scroll: final(self).scroll,
                viewport_dirty: true,
                full_rendered_texts: final(self).full_rendered_texts,
                toc_cursor: final(self).toc_cursor,
                toc_scroll: final(self).toc_scroll,
                ..*old(self)
            }),
            old(self).toc_cursor < old(self).toc_line_indices@.len() ==> final(self).toc_cursor
                == final(self).spec_synced_cursor(),
            final(self).document == old(self).document,
            final(self).node_line_starts == old(self).node_line_starts,
            final(self).cjk == old(self).cjk,
    {
        if self.toc_line_indices.len() == 0 || self.toc_cursor >= self.toc_line_indices.len() {
            return;
        }
        let line = self.toc_line_indices[self.toc_cursor];
        self.scroll_to(line);
    }

    /// The table-of-contents entry of the heading the scroll position is under.
    pub fn synced_toc_index(&self) -> (r: Option<usize>)
        ensures
            r == (if count_at_most(self.toc_line_indices@, self.scroll as int) > 0 {
                Some((count_at_most(self.toc_line_indices@, self.scroll as int) - 1) as usize)
            } else {
                None::<usize>
            }),
    {
        if self.toc_line_indices.len() == 0 {
            return None;
        }
        let c = count_le(&self.toc_line_indices, self.scroll);
        if c > 0 {
            Some(c - 1)
        } else {
            None
        }
    }

    /// Scrolls to the first heading below the scroll position, if any.
    pub fn next_heading(&mut self)
        ensures
            ({
                let c = count_at_most(old(self).toc_line_indices@, old(self).scroll as int);
                &&& c >= old(self).toc_line_indices@.len() ==> *final(self) == *old(self)
                &&& c < old(self).toc_line_indices@.len() ==> final(self).scroll == (
                    if old(self).toc_line_indices@[c as int] <= old(self).spec_max_scroll() {
                        old(self).toc_line_indices@[c as int] as nat
                    } else {
                        old(self).spec_max_scroll()
                    })
            
                &&& c < old(self).toc_line_indices@.len() ==> *final(self) == (App {
                    scroll: final(self).scroll,
                    viewport_dirty: true,
                    full_rendered_texts: final(self).full_rendered_texts,
                    toc_cursor: final(self).toc_cursor,
                    toc_scroll: final(self).toc_scroll,
                    ..*old(self)
                })
            }),
            final(self).document == old(self).document,
            final(self).node_line_starts == old(self).node_line_starts,
            final(self).cjk == old(self).cjk,
    {
        let idx = count_le(&self.toc_line_indices, self.scroll);
        if idx < self.toc_line_indices.len() {
            let line = self.toc_line_indices[idx];
            self.scroll_to(line);
        }
    }

    /// Scrolls to the last heading above the scroll position, if any.
    pub fn prev_heading(&mut self)
        ensures
            ({
                let c = if old(self).scroll == 0 {
                    0
                } else {
                    count_at_most(old(self).toc_line_indices@, old(self).scroll - 1)
                };
                &&& c == 0 ==> *final(self) == *old(self)
                &&& c > 0 ==> final(self).scroll == (
                    if old(self).toc_line_indices@[c - 1] <= old(self).spec_max_scroll() {
                        old(self).toc_line_indices@[c - 1] as nat
                    } else {
                        old(self).spec_max_scroll()
                    })
            
                &&& c > 0 ==> *final(self) == (App {
                    scroll: final(self).scroll,
                    viewport_dirty: true,
                    full_rendered_texts: final(self).full_rendered_texts,
                    toc_cursor: final(self).toc_cursor,
                    toc_scroll: final(self).toc_scroll,
                    ..*old(self)
                })
            }),
            final(self).document == old(self).document,
            final(self).node_line_starts == old(self).node_line_starts,
            final(self).cjk == old(self).cjk,
    {
        let idx = if self.scroll == 0 {
            0
        } else {
            count_le(&self.toc_line_indices, self.scroll - 1)
        };
        if idx > 0 {
            let line = self.toc_line_indices[idx - 1];
            self.scroll_to(line);
        }
    }

    // -----------------------------------------------------------------------
    // Search
    // -----------------------------------------------------------------------

    /// Drops the highlighted lines kept for the search.
    pub fn invalidate_search_cache(&mut self)
        ensures
            final(self).search_highlight_cache@.len() == 0,
            final(self).cached_search_query is None,
            *final(self) == (App {
                search_highlight_cache: final(self).search_highlight_cache,
                cached_search_query: None,
                ..*old(self)
            }),
    {
        self.search_highlight_cache.clear();
        self.cached_search_query = None;
    }

    /// Enters search mode with an empty query.
    pub fn start_search(&mut self)
        ensures
            final(self).mode == Mode::Search,
            final(self).search_query@.len() == 0,
            final(self).search_matches@.len() == 0,
            final(self).search_current == 0,
            !final(self).search_dirty,
            final(self).search_deadline is None,
            final(self).search_highlight_cache@.len() == 0,
            final(self).cached_search_query is None,
            *final(self) == (App {
                mode: Mode::Search,
                search_query: final(self).search_query,
                search_matches: final(self).search_matches,
                search_current: 0,
                search_dirty: false,
                search_deadline: None,
                search_highlight_cache: final(self).search_highlight_cache,
                cached_search_query: None,
                ..*old(self)
            }),
    {
        self.mode = Mode::Search;
        crate::text::clear(&mut self.search_query);
        self.search_matches.clear();
        self.search_current = 0;
        self.search_dirty = false;
        self.search_deadline = None;
        self.invalidate_search_cache();
    }

    /// Leaves search mode and forgets the query and its matches.
    pub fn search_cancel(&mut self)
        ensures
            final(self).mode == Mode::Normal,
            final(self).search_query@.len() == 0,
            final(self).search_matches@.len() == 0,
            !final(self).search_dirty,
            final(self).search_deadline is None,
            final(self).search_highlight_cache@.len() == 0,
            *final(self) == (App {
                mode: Mode::Normal,
                search_query: final(self).search_query,
                search_matches: final(self).search_matches,
                search_dirty: false,
                search_deadline: None,
                search_highlight_cache: final(self).search_highlight_cache,
                cached_search_query: None,
                ..*old(self)
            }),
    {
        self.mode = Mode::Normal;
        crate::text::clear(&mut self.search_query);
        self.search_matches.clear();
        self.search_dirty = false;
        self.search_deadline = None;
        self.invalidate_search_cache();
    }

    /// Arranges for the search to run a little after `now`, once typing pauses.
    fn schedule_search(&mut self, now: u64)
        ensures
            final(self).search_dirty,
            final(self).search_deadline == Some((if now + SEARCH_DEBOUNCE_MS <= u64::MAX { now + SEARCH_DEBOUNCE_MS } else { u64::MAX as int }) as u64),
            final(self).search_highlight_cache@.len() == 0,
            *final(self) == (App {
                search_dirty: true,
                search_deadline: final(self).search_deadline,
                search_highlight_cache: final(self).search_highlight_cache,
                cached_search_query: None,
                ..*old(self)
            }),
    {
        self.search_dirty = true;
        self.search_deadline = Some(now.saturating_add(SEARCH_DEBOUNCE_MS));
        self.invalidate_search_cache();
    }

    /// Adds a character to the query; the search runs once typing pauses.
    pub fn search_push(&mut self, ch: char, now: u64)
        ensures
            final(self).search_query@ == old(self).search_query@.push(ch),
            final(self).search_dirty,
            final(self).search_deadline == Some((if now + SEARCH_DEBOUNCE_MS <= u64::MAX { now + SEARCH_DEBOUNCE_MS } else { u64::MAX as int }) as u64),
            *final(self) == (App {
                search_query: final(self).search_query,
                search_dirty: true,
                search_deadline: final(self).search_deadline,
                search_highlight_cache: final(self).search_highlight_cache,
                cached_search_query: None,
                ..*old(self)
            }),
    {
        push_char(&mut self.search_query, ch);
        self.schedule_search(now);
    }

    /// Removes the last character of the query, if any; the search runs once typing pauses.
    pub fn search_pop(&mut self, now: u64)
        ensures
            final(self).search_query@ == (if old(self).search_query@.len() > 0 {
                old(self).search_query@.drop_last()
            } else {
                old(self).search_query@
            }),
            final(self).search_dirty,
            *final(self) == (App {
                search_query: final(self).search_query,
                search_dirty: true,
                search_deadline: final(self).search_deadline,
                search_highlight_cache: final(self).search_highlight_cache,
                cached_search_query: None,
                ..*old(self)
            }),
    {
        let v = crate::text::chars_of(self.search_query.as_str());
        if v.len() > 0 {
            self.search_query = crate::text::string_of_range(&v, 0, v.len() - 1);
            assert(v@.subrange(0, v@.len() - 1) =~= v@.drop_last());
        }
        self.schedule_search(now);
    }

    /// Scrolls to the current match, if there is one.
    fn jump_to_search_current(&mut self)
        ensures
            old(self).search_current >= old(self).search_matches@.len() ==> *final(self) == *old(self),
            old(self).search_current < old(self).search_matches@.len() ==> final(self).scroll == (
                if old(self).search_matches@[old(self).search_current as int] <= old(self).spec_max_scroll() {
                    old(self).search_matches@[old(self).search_current as int] as nat
                } else {
                    old(self).spec_max_scroll()
                }),
            final(self).document == old(self).document,
            final(self).node_line_starts == old(self).node_line_starts,
            final(self).cjk == old(self).cjk,
            final(self).search_matches == old(self).search_matches,
            final(self).search_current == old(self).search_current,
            final(self).search_query == old(self).search_query,
            final(self).mode == old(self).mode,
            final(self).content_width == old(self).content_width,
            final(self).full_content_width == old(self).full_content_width,
            final(self).search_dirty == old(self).search_dirty,
            final(self).search_deadline == old(self).search_deadline,
            final(self).spec_max_scroll() == old(self).spec_max_scroll(),
            old(self).search_current < old(self).search_matches@.len() ==> *final(self) == (App {
                scroll: final(self).scroll,
                viewport_dirty: true,
                full_rendered_texts: final(self).full_rendered_texts,
                toc_cursor: final(self).toc_cursor,
                toc_scroll: final(self).toc_scroll,
                ..*old(self)
            }),
    {
        if self.search_current < self.search_matches.len() {
            let line = self.search_matches[self.search_current];
            self.scroll_to(line);
        }
    }

    /// The lowercased text of every line of the document rendered at the content width.
    pub open spec fn spec_full_texts(&self) -> Seq<Seq<char>> {
        let r = spec_render_nodes(views(self.document.nodes@), self.content_width as nat, self.full_content_width as nat, self.cjk);
        Seq::new(r.lines.len(), |i: int| str_lowercase(line_text(r.lines[i])))
    }

    /// The lowercased text of rendered line `line_idx`, after rendering the whole document
    /// where that was not done at this width; none past the last line.
    pub fn rendered_line_text_lower(&mut self, line_idx: usize, highlighter: &CodeHighlighter) -> (r: Option<String>)
        requires
            old(self).wf(),
        ensures
            final(self).wf(),
            views(final(self).full_rendered_texts@) == old(self).texts_for_search(),
            match r {
                Some(t) => line_idx < old(self).texts_for_search().len() && t@ == old(self).texts_for_search()[line_idx as int],
                None => line_idx >= old(self).texts_for_search().len(),
            },
            *final(self) == (App {
                full_rendered_texts: final(self).full_rendered_texts,
                full_render_width: final(self).full_render_width,
                ..*old(self)
            }),
    {
        self.ensure_full_rendered_texts(highlighter);
        if line_idx < self.full_rendered_texts.len() {
            let chars = crate::text::chars_of(self.full_rendered_texts[line_idx].as_str());
            proof {
                assert(views(self.full_rendered_texts@)[line_idx as int] == self.full_rendered_texts@[line_idx as int]@);
            }
            Some(crate::text::string_of(&chars))
        } else {
            None
        }
    }

    /// What running the search leaves in `b`, starting from `self`: nothing pending, the
    /// same query and mode; for an empty query no matches; otherwise the lines whose text
    /// holds the query (ignoring case), in order, with the first of them at or below the
    /// top line current (or the first one, when none is), scrolled to where there is one.
    /// Besides the search, only the scroll, the rendered texts kept for search and the
    /// side panel's cursor following the scroll change.
    pub open spec fn search_done(&self, b: App) -> bool {
        &&& !b.search_dirty
        &&& b.search_deadline is None
        &&& b.search_query == self.search_query
        &&& b.mode == self.mode
        &&& b.wf()
        &&& self.found_matches(b.search_matches@)
        &&& self.search_query@.len() == 0 ==> b.search_current == 0
        &&& self.search_query@.len() > 0 ==> b.search_current == first_match_from(b.search_matches@, self.scroll as int)
        &&& b.search_matches@.len() == 0 ==> b.scroll == self.scroll
        &&& b.search_matches@.len() > 0 ==> b.search_current < b.search_matches@.len()
            && b.scroll == self.clamped_line(b.search_matches@[b.search_current as int] as int)
        &&& b == (App {
            search_dirty: false,
            search_deadline: None,
            search_matches: b.search_matches,
            search_current: b.search_current,
            scroll: b.scroll,
            viewport_dirty: b.viewport_dirty,
            full_rendered_texts: b.full_rendered_texts,
            full_render_width: b.full_render_width,
            toc_cursor: b.toc_cursor,
            toc_scroll: b.toc_scroll,
            ..*self
        })
    }

    /// `line`, or the last line that can be scrolled to where it lies further down.
    pub open spec fn clamped_line(&self, line: int) -> nat {
        if line <= self.spec_max_scroll() {
            line as nat
        } else {
            self.spec_max_scroll()
        }
    }

    /// Whether `m` are the lines the query finds: none without a query; else, in
    /// ascending order, exactly the lines whose text holds the query (ignoring case).
    pub open spec fn found_matches(&self, m: Seq<usize>) -> bool {
        &&& self.search_query@.len() == 0 ==> m.len() == 0
        &&& self.search_query@.len() > 0 ==> {
            let texts = self.texts_for_search();
            let q = str_lowercase(self.search_query@);
            &&& forall|k: int| 0 <= k < m.len() ==> {
                let l = #[trigger] m[k];
                &&& l < texts.len()
                &&& str_contains(texts[l as int], q)
            }
            &&& forall|l: int| 0 <= l < texts.len() && str_contains(texts[l], q) ==> m.contains(l as usize)
            &&& forall|a: int, c: int| 0 <= a < c < m.len() ==> m[a] < m[c]
        }
    }

    /// The texts the search looks in: those kept, if rendered at the content width, else
    /// the document rendered afresh.
    pub open spec fn texts_for_search(&self) -> Seq<Seq<char>> {
        if self.full_rendered_texts@.len() > 0 && self.full_render_width == self.content_width {
            views(self.full_rendered_texts@)
        } else {
            self.spec_full_texts()
        }
    }

    /// Renders the whole document for search, unless that was done at this width.
    fn ensure_full_rendered_texts(&mut self, highlighter: &CodeHighlighter)
        requires
            old(self).wf(),
        ensures
            final(self).wf(),
            views(final(self).full_rendered_texts@) == (if old(self).full_rendered_texts@.len() > 0
                && old(self).full_render_width == old(self).content_width {
                views(old(self).full_rendered_texts@)
            } else {
                old(self).spec_full_texts()
            }),
            *final(self) == (App {
                full_rendered_texts: final(self).full_rendered_texts,
                full_render_width: final(self).full_render_width,
                ..*old(self)
            }),
    {
        if self.full_rendered_texts.len() > 0 && self.full_render_width == self.content_width {
            return;
        }
        let result = render_nodes(&self.document.nodes, self.content_width, self.full_content_width, highlighter, self.cjk);
        let ghost lines = views(result.lines@);
        let mut texts: Vec<String> = Vec::new();
        let mut i: usize = 0;
        while i < result.lines.len()
            invariant
                i <= result.lines@.len(),
                lines == views(result.lines@),
                views(texts@) == Seq::new(i as nat, |k: int| str_lowercase(line_text(lines[k]))),
            decreases result.lines@.len() - i,
        {
            let t = result.lines[i].text();
            let lower = to_lowercase(t.as_str());
            let ghost before = texts@;
            texts.push(lower);
            assert(views(texts@) =~= Seq::new((i + 1) as nat, |k: int| str_lowercase(line_text(lines[k])))) by {
                assert(views(texts@) =~= views(before).push(lower@));
            }
            i = i + 1;
        }
        self.full_rendered_texts = texts;
        self.full_render_width = self.content_width;
    }

    /// Runs the search: every rendered line whose lowercased text holds the lowercased
    /// query matches; the current match is the first at or below the scroll position.
    #[verifier::rlimit(60)]
    #[verifier::spinoff_prover]
    fn run_search(&mut self, highlighter: &CodeHighlighter)
        requires
            old(self).wf(),
        ensures
            old(self).search_done(*final(self)),
    {
        self.search_dirty = false;
        self.search_deadline = None;
        if self.search_query.as_str().is_empty() {
            self.search_matches.clear();
            self.search_current = 0;
            return;
        }
        self.ensure_full_rendered_texts(highlighter);
        let q = to_lowercase(self.search_query.as_str());
        let qv = crate::text::chars_of(q.as_str());
        let ghost texts = views(self.full_rendered_texts@);
        let mut matches: Vec<usize> = Vec::new();
        let mut i: usize = 0;
        while i < self.full_rendered_texts.len()
            invariant
                i <= self.full_rendered_texts@.len(),
                texts == views(self.full_rendered_texts@),
                qv@ == q@,
                forall|k: int| 0 <= k < matches@.len() ==> {
                    let l = #[trigger] matches@[k];
                    &&& l < i
                    &&& str_contains(texts[l as int], q@)
                },
                forall|l: int| 0 <= l < i && str_contains(texts[l], q@) ==> matches@.contains(l as usize),
                forall|a: int, b: int| 0 <= a < b < matches@.len() ==> matches@[a] < matches@[b],
            decreases self.full_rendered_texts@.len() - i,
        {
            let tv = crate::text::chars_of(self.full_rendered_texts[i].as_str());
            let found = if qv.len() == 0 {
                true
            } else {
                crate::renderer::search::find_all(&tv, &qv).len() > 0
            };
            if found {
                let ghost before = matches@;
                matches.push(i);
                assert forall|l: int| 0 <= l < i + 1 && str_contains(texts[l], q@) implies matches@.contains(l as usize) by {
                    if l < i {
                        let k = choose|k: int| 0 <= k < before.len() && before[k] == l as usize;
                        assert(matches@[k] == l as usize);
                    } else {
                        assert(matches@[before.len() as int] == i);
                    }
                }
            } else {
                assert forall|l: int| 0 <= l < i + 1 && str_contains(texts[l], q@) implies matches@.contains(l as usize) by {
                    if l == i {
                        assert(texts[l] == tv@);
                    }
                }
            }
            i = i + 1;
        }
        self.search_matches = matches;
        let ghost matched = self.search_matches@;
        let mut current: usize = 0;
        let mut k: usize = 0;
        let mut found = false;
        while k < self.search_matches.len() && !found
            invariant
                k <= self.search_matches@.len(),
                matched == self.search_matches@,
                found ==> current < k && matched[current as int] >= self.scroll,
                found ==> forall|j: int| 0 <= j < current ==> matched[j] < self.scroll,
                !found ==> current == 0 && forall|j: int| 0 <= j < k ==> matched[j] < self.scroll,
            decreases self.search_matches@.len() - k,
        {
            if self.search_matches[k] >= self.scroll {
                current = k;
                found = true;
            }
            k = k + 1;
        }
        proof {
            assert(sorted(matched)) by {
                assert forall|a: int, c: int| 0 <= a <= c < matched.len() implies matched[a] <= matched[c] by {
                    if a < c {
                        assert(matched[a] < matched[c]);
                    }
                }
            }
            lemma_count_sorted(matched, self.scroll - 1);
            let c = count_at_most(matched, self.scroll - 1);
            if found {
                if c < current {
                    assert(matched[c as int] < self.scroll);
                }
                if c > current {
                    assert(matched[current as int] <= self.scroll - 1);
                }
            } else {
                if c < matched.len() {
                    assert(matched[c as int] < self.scroll);
                }
            }
        }
        self.search_current = current;
        self.jump_to_search_current();
    }

    /// Runs a pending search now.
    fn flush_search(&mut self, highlighter: &CodeHighlighter)
        requires
            old(self).wf(),
        ensures
            final(self).wf(),
            !old(self).search_dirty ==> *final(self) == *old(self),
            old(self).search_dirty ==> old(self).search_done(*final(self)),
            final(self).mode == old(self).mode,
    {
        if self.search_dirty {
            self.run_search(highlighter);
        }
    }

    /// Runs the pending search if its time has come at `now`; says whether it ran.
    pub fn run_pending_search(&mut self, now: u64, highlighter: &CodeHighlighter) -> (ran: bool)
        requires
            old(self).wf(),
        ensures
            final(self).wf(),
            ran == (old(self).search_dirty && (old(self).search_deadline matches Some(d) && now >= d)),
            !ran ==> *final(self) == *old(self),
            ran ==> old(self).search_done(*final(self)),
    {
        if self.search_dirty {
            match self.search_deadline {
                Some(d) => {
                    if now >= d {
                        self.run_search(highlighter);
                        return true;
                    }
                },
                None => {},
            }
        }
        false
    }

    /// Runs a pending search, leaves search mode and scrolls to the current match.
    pub fn search_confirm(&mut self, highlighter: &CodeHighlighter)
        requires
            old(self).wf(),
        ensures
            final(self).wf(),
            final(self).mode == Mode::Normal,
            final(self).search_query == old(self).search_query,
            !old(self).search_dirty ==> final(self).search_matches == old(self).search_matches
                && final(self).search_current == old(self).search_current,
            old(self).search_dirty ==> old(self).search_done(App { mode: old(self).mode, ..*final(self) }),
            final(self).search_current < final(self).search_matches@.len() ==> final(self).scroll
                == old(self).clamped_line(final(self).search_matches@[final(self).search_current as int] as int),
            final(self).search_current >= final(self).search_matches@.len() ==> final(self).scroll == old(self).scroll,
    {
        self.flush_search(highlighter);
        self.mode = Mode::Normal;
        self.jump_to_search_current();
    }

    /// Moves to the next match, round to the first after the last.
    pub fn search_next(&mut self, highlighter: &CodeHighlighter)
        requires
            old(self).wf(),
        ensures
            final(self).wf(),
            !old(self).search_dirty && old(self).search_matches@.len() > 0 ==> final(self).search_current == next_match(old(self).search_current as int, old(self).search_matches@.len() as int),
            !old(self).search_dirty && old(self).search_matches@.len() == 0 ==> *final(self) == *old(self),
            old(self).search_dirty && final(self).search_matches@.len() > 0 ==> final(self).search_current == next_match(
                first_match_from(final(self).search_matches@, old(self).scroll as int) as int,
                final(self).search_matches@.len() as int,
            ),
            old(self).search_dirty ==> final(self).search_matches@.len() == 0 || final(self).search_current < final(self).search_matches@.len(),
            final(self).search_matches@.len() > 0 ==> final(self).scroll == (
                if final(self).search_matches@[final(self).search_current as int] <= final(self).spec_max_scroll() {
                    final(self).search_matches@[final(self).search_current as int] as nat
                } else {
                    final(self).spec_max_scroll()
                }),
            old(self).search_dirty ==> old(self).found_matches(final(self).search_matches@) && !final(self).search_dirty
                && final(self).search_query == old(self).search_query && final(self).search_deadline is None,
            !old(self).search_dirty ==> final(self).search_matches == old(self).search_matches && !final(self).search_dirty
                && final(self).search_query == old(self).search_query && final(self).search_deadline == old(self).search_deadline,
    {
        self.flush_search(highlighter);
        if self.search_matches.len() == 0 {
            return;
        }
        let n = self.search_matches.len();
        let c = self.search_current % n;
        proof {
            let x = self.search_current as int;
            vstd::arithmetic::div_mod::lemma_add_mod_noop(x, 1, n as int);
            if n > 1 {
                vstd::arithmetic::div_mod::lemma_small_mod(1, n as nat);
            } else {
                assert(1int % 1int == 0) by (nonlinear_arith);
            }
            if c + 1 < n {
                vstd::arithmetic::div_mod::lemma_small_mod((c + 1) as nat, n as nat);
            }
            vstd::arithmetic::div_mod::lemma_mod_self_0(n as int);
        }
        self.search_current = if c + 1 < n {
            c + 1
        } else {
            0
        };
        self.jump_to_search_current();
    }

    /// Moves to the previous match, round to the last before the first.
    pub fn search_prev(&mut self, highlighter: &CodeHighlighter)
        requires
            old(self).wf(),
        ensures
            final(self).wf(),
            !old(self).search_dirty && old(self).search_matches@.len() > 0 ==> final(self).search_current == prev_match(old(self).search_current as int, old(self).search_matches@.len() as int),
            !old(self).search_dirty && old(self).search_matches@.len() == 0 ==> *final(self) == *old(self),
            old(self).search_dirty && final(self).search_matches@.len() > 0 ==> final(self).search_current == prev_match(
                first_match_from(final(self).search_matches@, old(self).scroll as int) as int,
                final(self).search_matches@.len() as int,
            ),
            final(self).search_current < final(self).search_matches@.len() ==> final(self).scroll == (
                if final(self).search_matches@[final(self).search_current as int] <= final(self).spec_max_scroll() {
                    final(self).search_matches@[final(self).search_current as int] as nat
                } else {
                    final(self).spec_max_scroll()
                }),
            old(self).search_dirty ==> old(self).found_matches(final(self).search_matches@) && !final(self).search_dirty
                && final(self).search_query == old(self).search_query && final(self).search_deadline is None,
            !old(self).search_dirty ==> final(self).search_matches == old(self).search_matches && !final(self).search_dirty
                && final(self).search_query == old(self).search_query && final(self).search_deadline == old(self).search_deadline,
            !old(self).search_dirty && final(self).search_current >= final(self).search_matches@.len() ==> final(self).scroll
                == old(self).scroll,
    {
        self.flush_search(highlighter);
        if self.search_matches.len() == 0 {
            return;
        }
        if self.search_current == 0 {
            self.search_current = self.search_matches.len() - 1;
        } else {
            self.search_current = self.search_current - 1;
        }
        self.jump_to_search_current();
    }

    /// Whether rendered line `line_idx` holds `query_lower` (in its lowercased text).
    pub fn rendered_line_matches(&mut self, line_idx: usize, query_lower: &str, highlighter: &CodeHighlighter) -> (b: bool)
        requires
            old(self).wf(),
        ensures
            final(self).wf(),
            b == (line_idx < final(self).full_rendered_texts@.len() && str_contains(final(self).full_rendered_texts@[line_idx as int]@, query_lower@)),
            *final(self) == (App {
                full_rendered_texts: final(self).full_rendered_texts,
                full_render_width: final(self).full_render_width,
                ..*old(self)
            }),
    {
        self.ensure_full_rendered_texts(highlighter);
        if line_idx < self.full_rendered_texts.len() {
            let tv = crate::text::chars_of(self.full_rendered_texts[line_idx].as_str());
            let qv = crate::text::chars_of(query_lower);
            if qv.len() == 0 {
                true
            } else {
                crate::renderer::search::find_all(&tv, &qv).len() > 0
            }
        } else {
            false
        }
    }

    /// The lines on screen: the rendered lines from the scroll position on, at most
    /// `height` of them; while there is a search query, those whose text holds it (ignoring
    /// case) with its occurrences marked.
    pub fn visible_lines(&mut self, height: usize, highlighter: &CodeHighlighter) -> (r: Vec<StyledLine>)
        requires
            old(self).wf(),
            old(self).scroll + height <= usize::MAX,
        ensures
            final(self).wf(),
            *final(self) == (App {
                full_rendered_texts: final(self).full_rendered_texts,
                full_render_width: final(self).full_render_width,
                ..*old(self)
            }),
            r@.len() == spec_visible_count(old(self).viewport_lines@.len(), old(self).viewport_scroll, old(self).scroll, height),
            forall|i: int| 0 <= i < r@.len() ==> {
                let line = old(self).viewport_lines@[old(self).scroll - old(self).viewport_scroll + i];
                let idx = old(self).scroll + i;
                #[trigger] r@[i]@ == (if old(self).search_query@.len() > 0 && idx < final(self).full_rendered_texts@.len()
                    && str_contains(final(self).full_rendered_texts@[idx]@, str_lowercase(old(self).search_query@)) {
                    spec_apply_search(seq![line@], old(self).search_query@, None, idx, None, 0)[0]
                } else {
                    line@
                })
            },
    {
        let scroll = self.scroll;
        let offset = self.viewport_scroll;
        let len = self.viewport_lines.len();
        let count = if offset <= scroll && scroll - offset < len {
            if len - (scroll - offset) < height {
                len - (scroll - offset)
            } else {
                height
            }
        } else {
            0
        };
        let query = self.search_query.clone();
        let lower = crate::text::to_lowercase(query.as_str());
        let searching = !query.as_str().is_empty();
        if searching {
            self.ensure_full_rendered_texts(highlighter);
        }
        let qv = crate::text::chars_of(lower.as_str());
        let mut out: Vec<StyledLine> = Vec::new();
        let mut i: usize = 0;
        while i < count
            invariant
                self.wf(),
                *self == (App {
                    full_rendered_texts: self.full_rendered_texts,
                    full_render_width: self.full_render_width,
                    ..*old(self)
                }),
                i <= count,
                count == spec_visible_count(len as nat, offset, scroll, height),
                len == self.viewport_lines@.len(),
                scroll == self.scroll,
                offset == self.viewport_scroll,
                query@ == self.search_query@,
                searching == (query@.len() > 0),
                qv@ == str_lowercase(query@),
                count > 0 ==> offset <= scroll && scroll - offset + count <= len,
                scroll + height <= usize::MAX,
                count <= height,
                out@.len() == i,
                forall|j: int| 0 <= j < i ==> {
                    let line = self.viewport_lines@[scroll - offset + j];
                    let idx = scroll + j;
                    #[trigger] out@[j]@ == (if query@.len() > 0 && idx < self.full_rendered_texts@.len()
                        && str_contains(self.full_rendered_texts@[idx]@, qv@) {
                        spec_apply_search(seq![line@], query@, None, idx, None, 0)[0]
                    } else {
                        line@
                    })
                },
            decreases count - i,
        {
            let line = self.viewport_lines[scroll - offset + i].copy();
            let idx = scroll + i;
            let hit = if searching && idx < self.full_rendered_texts.len() {
                let tv = crate::text::chars_of(self.full_rendered_texts[idx].as_str());
                qv.len() == 0 || crate::renderer::search::find_all(&tv, &qv).len() > 0
            } else {
                false
            };
            let ghost expected = if query@.len() > 0 && idx < self.full_rendered_texts@.len()
                && str_contains(self.full_rendered_texts@[idx as int]@, qv@) {
                spec_apply_search(seq![line@], query@, None, idx as int, None, 0)[0]
            } else {
                line@
            };
            let ghost out0 = out@;
            if hit {
                let lines1 = vec![line];
                proof {
                    assert(lines1@ == seq![line]);
                    assert(views(lines1@) =~= seq![line@]);
                }
                let mut v = apply_search_highlight(lines1, query.as_str(), None, idx, None, 0);
                assert(views(v@).len() == 1);
                assert(v@.len() == views(v@).len());
                let ghost v0 = v@;
                let h = v.remove(0);
                assert(h@ == views(v0)[0]);
                assert(h@ == expected);
                out.push(h);
            } else {
                assert(line@ == expected);
                out.push(line);
            }
            assert(out@[i as int]@ == expected);
            assert forall|j: int| 0 <= j < i implies out@[j] == out0[j] by {}
            i = i + 1;
        }
        out
    }

    /// The highlighted line `line_idx` kept for the current query, if any.
    pub fn get_cached_highlight(&self, line_idx: usize) -> (r: Option<&StyledLine>)
        ensures
            r matches Some(l) ==> (self.cached_search_query matches Some(q) && q@ == self.search_query@)
                && exists|k: int| 0 <= k < self.search_highlight_cache@.len()
                    && self.search_highlight_cache@[k].0 == line_idx && self.search_highlight_cache@[k].1 == *l,
            r is None ==> !(self.cached_search_query matches Some(q) && q@ == self.search_query@)
                || forall|k: int| 0 <= k < self.search_highlight_cache@.len() ==> self.search_highlight_cache@[k].0 != line_idx,
    {
        let same = match &self.cached_search_query {
            Some(q) => q.eq(&self.search_query),
            None => false,
        };
        if !same {
            return None;
        }
        let mut k: usize = 0;
        while k < self.search_highlight_cache.len()
            invariant
                k <= self.search_highlight_cache@.len(),
                self.cached_search_query matches Some(q) && q@ == self.search_query@,
                forall|m: int| 0 <= m < k ==> self.search_highlight_cache@[m].0 != line_idx,
            decreases self.search_highlight_cache@.len() - k,
        {
            if self.search_highlight_cache[k].0 == line_idx {
                return Some(&self.search_highlight_cache[k].1);
            }
            k = k + 1;
        }
        None
    }

    /// Keeps the highlighted line `line_idx` for the current query; a new line goes last
    /// and pushes the oldest out past the limit.
    pub fn cache_highlight(&mut self, line_idx: usize, line: StyledLine)
        ensures
            final(self).cached_search_query matches Some(q) && q@ == old(self).search_query@,
            first_key(old(self).search_highlight_cache@, line_idx) matches Some(k) ==> final(self).search_highlight_cache@
                == old(self).search_highlight_cache@.update(k, (line_idx, line)),
            first_key(old(self).search_highlight_cache@, line_idx) is None ==> final(self).search_highlight_cache@
                == keep_newest(old(self).search_highlight_cache@.push((line_idx, line)), MAX_SEARCH_HIGHLIGHT_CACHE as nat),
            exists|k: int| 0 <= k < final(self).search_highlight_cache@.len()
                && final(self).search_highlight_cache@[k].0 == line_idx && final(self).search_highlight_cache@[k].1 == line,
            final(self).search_highlight_cache@.len() <= MAX_SEARCH_HIGHLIGHT_CACHE
                || final(self).search_highlight_cache@.len() <= old(self).search_highlight_cache@.len(),
            distinct_keys(old(self).search_highlight_cache@) ==> distinct_keys(final(self).search_highlight_cache@),
    {
        self.cached_search_query = Some(self.search_query.clone());
        let ghost q0 = old(self).search_query@;
        let ghost c0 = old(self).search_highlight_cache@;
        let mut k: usize = 0;
        while k < self.search_highlight_cache.len()
            invariant
                k <= self.search_highlight_cache@.len(),
                self.cached_search_query matches Some(q) && q@ == q0,
                q0 == old(self).search_query@,
                self.search_highlight_cache@ == c0,
                c0 == old(self).search_highlight_cache@,
                first_key(c0, line_idx) == first_key_from(c0, line_idx, k as int),
                forall|m: int| 0 <= m < k ==> self.search_highlight_cache@[m].0 != line_idx,
            decreases self.search_highlight_cache@.len() - k,
        {
            if self.search_highlight_cache[k].0 == line_idx {
                self.search_highlight_cache.set(k, (line_idx, line));
                assert(self.search_highlight_cache@[k as int].0 == line_idx);
                assert(self.cached_search_query matches Some(q) && q@ == q0);
                proof {
                    if distinct_keys(c0) {
                        assert forall|a: int, b: int| 0 <= a < b < self.search_highlight_cache@.len() implies
                            self.search_highlight_cache@[a].0 != self.search_highlight_cache@[b].0 by {
                            if a != k && b != k {
                                assert(self.search_highlight_cache@[a] == c0[a]);
                                assert(self.search_highlight_cache@[b] == c0[b]);
                            } else if a == k {
                                assert(self.search_highlight_cache@[b] == c0[b]);
                                assert(c0[k as int].0 == line_idx);
                            } else {
                                assert(self.search_highlight_cache@[a] == c0[a]);
                                assert(c0[k as int].0 == line_idx);
                            }
                        }
                    }
                }
                return;
            }
            k = k + 1;
        }
        let ghost pushed = c0.push((line_idx, line));
        self.search_highlight_cache.push((line_idx, line));
        let ghost mut dropped: int = 0;
        while self.search_highlight_cache.len() > MAX_SEARCH_HIGHLIGHT_CACHE
            invariant
                self.search_highlight_cache@.len() >= 1,
                0 <= dropped <= pushed.len(),
                self.search_highlight_cache@ == pushed.skip(dropped),
                dropped > 0 ==> pushed.len() - dropped >= MAX_SEARCH_HIGHLIGHT_CACHE,
                self.cached_search_query matches Some(q) && q@ == q0,
                self.search_highlight_cache@.last().0 == line_idx,
                self.search_highlight_cache@.last().1 == line,
            decreases self.search_highlight_cache@.len(),
        {
            self.search_highlight_cache.remove(0);
            proof {
                dropped = dropped + 1;
                assert(self.search_highlight_cache@ =~= pushed.skip(dropped));
            }
        }
        assert(self.search_highlight_cache@[self.search_highlight_cache@.len() - 1].0 == line_idx);
        proof {
            if pushed.len() > MAX_SEARCH_HIGHLIGHT_CACHE {
                assert(dropped == pushed.len() - MAX_SEARCH_HIGHLIGHT_CACHE);
            } else {
                assert(dropped == 0);
                assert(pushed.skip(0) =~= pushed);
            }
            if distinct_keys(c0) {
                assert forall|a: int, b: int| 0 <= a < b < self.search_highlight_cache@.len() implies
                    self.search_highlight_cache@[a].0 != self.search_highlight_cache@[b].0 by {
                    assert(self.search_highlight_cache@[a] == pushed[a + dropped]);
                    assert(self.search_highlight_cache@[b] == pushed[b + dropped]);
                }
            }
        }
    }
}

/// The last `n` entries of `s` (all of them where there are no more).
pub open spec fn keep_newest<V>(s: Seq<(usize, V)>, n: nat) -> Seq<(usize, V)> {
    if s.len() > n {
        s.skip(s.len() - n)
    } else {
        s
    }
}

/// No key occurs twice.
pub open spec fn distinct_keys<V>(s: Seq<(usize, V)>) -> bool {
    forall|a: int, b: int| 0 <= a < b < s.len() ==> s[a].0 != s[b].0
}

/// Whether `q` occurs in `hay`, the empty string occurring everywhere.
pub open spec fn str_contains(hay: Seq<char>, q: Seq<char>) -> bool {
    q.len() == 0 || crate::renderer::search::occurs(hay, q)
}

/// A copy of `v`.
fn copy_usizes(v: &Vec<usize>) -> (r: Vec<usize>)
    ensures
        r@ == v@,
{
    let mut r: Vec<usize> = Vec::new();
    let mut k: usize = 0;
    while k < v.len()
        invariant
            k <= v@.len(),
            r@ == v@.take(k as int),
        decreases v@.len() - k,
    {
        r.push(v[k]);
        k = k + 1;
        assert(r@ =~= v@.take(k as int));
    }
    assert(v@.take(v@.len() as int) =~= v@);
    r
}

/// The first line of each table-of-contents entry's node (0 for an entry past the nodes).
fn toc_lines(doc: &Document, starts: &Vec<usize>) -> (r: Vec<usize>)
    ensures
        r@ == spec_toc_lines(Seq::new(doc.toc@.len(), |i: int| doc.toc@[i].node_index as int), starts@),
{
    let ghost nodes = Seq::new(doc.toc@.len(), |i: int| doc.toc@[i].node_index as int);
    let mut r: Vec<usize> = Vec::new();
    let mut k: usize = 0;
    while k < doc.toc.len()
        invariant
            k <= doc.toc@.len(),
            nodes == Seq::new(doc.toc@.len(), |i: int| doc.toc@[i].node_index as int),
            r@ == spec_toc_lines(nodes, starts@).take(k as int),
        decreases doc.toc@.len() - k,
    {
        let i = doc.toc[k].node_index;
        let line = if i < starts.len() {
            starts[i]
        } else {
            0
        };
        r.push(line);
        k = k + 1;
        assert(r@ =~= spec_toc_lines(nodes, starts@).take(k as int));
    }
    assert(spec_toc_lines(nodes, starts@).take(doc.toc@.len() as int) =~= spec_toc_lines(nodes, starts@));
    r
}

/// Measures a document at `width` columns: each node's height and first line, the total,
/// and the first line of each table-of-contents entry; `None` when the total height does
/// not fit a `usize`.
pub fn measure_document(doc: &Document, width: u16, cjk: bool) -> (r: Option<Measured>)
    requires
        nodes_ok(views(doc.nodes@)),
    ensures
        match r {
            Some(m) => {
                &&& m.node_heights@.len() == doc.nodes@.len()
                &&& forall|k: int| 0 <= k < doc.nodes@.len() ==> (#[trigger] m.node_heights@[k]) as nat
                    == spec_node_height(doc.nodes@[k]@, width as nat, cjk)
                &&& m.node_line_starts@.len() == doc.nodes@.len()
                &&& forall|k: int| 0 <= k < doc.nodes@.len() ==> (#[trigger] m.node_line_starts@[k]) as nat
                    == crate::renderer::measure::prefix_sum(m.node_heights@, k)
                &&& m.total_content_lines as nat == crate::renderer::measure::prefix_sum(m.node_heights@, doc.nodes@.len() as int)
                &&& sorted(m.node_line_starts@)
                &&& m.toc_line_indices@ == spec_toc_lines(Seq::new(doc.toc@.len(), |i: int| doc.toc@[i].node_index as int), m.node_line_starts@)
            },
            None => crate::renderer::measure::prefix_sum(
                Seq::new(doc.nodes@.len(), |k: int| spec_node_height(doc.nodes@[k]@, width as nat, cjk) as usize),
                doc.nodes@.len() as int,
            ) > usize::MAX,
        },
{
    let heights = crate::renderer::measure::measure_nodes(&doc.nodes, width, cjk);
    assert(heights@ =~= Seq::new(doc.nodes@.len(), |k: int| spec_node_height(doc.nodes@[k]@, width as nat, cjk) as usize));
    let mut total: usize = 0;
    let mut k: usize = 0;
    while k < heights.len()
        invariant
            k <= heights@.len(),
            heights@ == Seq::new(doc.nodes@.len(), |j: int| spec_node_height(doc.nodes@[j]@, width as nat, cjk) as usize),
            total as nat == crate::renderer::measure::prefix_sum(heights@, k as int),
        decreases heights@.len() - k,
    {
        if heights[k] > usize::MAX - total {
            proof {
                lemma_prefix_sum_ge(heights@, k as int + 1, heights@.len() as int);
            }
            assert(crate::renderer::measure::prefix_sum(heights@, heights@.len() as int) > usize::MAX);
            return None;
        }
        total = total + heights[k];
        k = k + 1;
    }
    let starts = crate::renderer::measure::compute_line_starts(&heights);
    proof {
        assert forall|a: int, b: int| 0 <= a <= b < starts@.len() implies starts@[a] <= starts@[b] by {
            lemma_prefix_sum_ge(heights@, a, b);
        }
    }
    let toc = toc_lines(doc, &starts);
    Some(Measured { node_heights: heights, node_line_starts: starts, total_content_lines: total, toc_line_indices: toc })
}

proof fn lemma_prefix_sum_ge(h: Seq<usize>, a: int, b: int)
    requires
        0 <= a <= b <= h.len(),
    ensures
        crate::renderer::measure::prefix_sum(h, a) <= crate::renderer::measure::prefix_sum(h, b),
    decreases b - a,
{
    if a < b {
        lemma_prefix_sum_ge(h, a, b - 1);
    }
}

impl App {
    /// The state a new viewer starts in, whatever it shows: at the top, nothing searched,
    /// nothing rendered or measured on screen yet, no toast, no kept files.
    pub open spec fn spec_fresh(&self) -> bool {
        &&& self.scroll == 0
        &&& self.toc_cursor == 0
        &&& self.toc_scroll == 0
        &&& self.toc_height == 0
        &&& self.content_height == 0
        &&& self.content_width == 0
        &&& self.full_content_width == 0
        &&& self.mode == Mode::Normal
        &&& self.show_toc
        &&& !self.quit
        &&& self.viewport_dirty
        &&& self.viewport_scroll == 0
        &&& self.viewport_lines@.len() == 0
        &&& self.full_rendered_texts@.len() == 0
        &&& self.search_query@.len() == 0
        &&& self.search_matches@.len() == 0
        &&& self.search_current == 0
        &&& !self.search_dirty
        &&& self.search_deadline is None
        &&& self.search_highlight_cache@.len() == 0
        &&& self.cached_search_query is None
        &&& self.theme_picker_index == 0
        &&& self.theme_picker_origin is None
        &&& self.toast is None
        &&& self.dir_cursor == 0
        &&& self.dir_scroll == 0
        &&& self.current_file_index is None
        &&& self.file_cache@.len() == 0
        &&& self.scroll_positions@.len() == 0
    }

    /// A viewer on `document`, whose layout the caller measured.
    pub fn new(
        file_path: String,
        file_name: String,
        document: Document,
        raw_lines: Vec<String>,
        node_heights: Vec<usize>,
        node_line_starts: Vec<usize>,
        total_content_lines: usize,
        image_positions: Vec<(usize, String, String)>,
        toc_line_indices: Vec<usize>,
        toc_width_pct: u16,
        cjk: bool,
    ) -> (app: App)
        requires
            nodes_ok(views(document.nodes@)),
            nodes_render_ok(views(document.nodes@), cjk),
            node_line_starts@.len() == document.nodes@.len(),
            sorted(node_line_starts@),
        ensures
            app.wf(),
            app.spec_fresh(),
            app.file_path == file_path,
            app.file_name == file_name,
            *app.document == document,
            app.raw_lines == raw_lines,
            app.node_heights == node_heights,
            app.node_line_starts == node_line_starts,
            app.image_positions == image_positions,
            app.dir_files@.len() == 0,
            app.cjk == cjk,
            app.scroll == 0,
            app.focus == Focus::Content,
            app.mode == Mode::Normal,
            app.show_toc,
            app.first_run,
            !app.quit,
            !app.directory_mode,
            app.dir_view == DirView::FileView,
            app.viewport_dirty,
            app.toc_line_indices@ == toc_line_indices@,
            app.total_content_lines == total_content_lines,
            app.toc_width_pct == toc_width_pct,
            app.content_height == 0,
            app.toc_cursor == 0,
            app.toc_scroll == 0,
    {
        App {
            file_path,
            file_name,
            document: Arc::new(document),
            node_heights,
            node_line_starts,
            total_content_lines,
            raw_lines,
            image_positions,
            toc_line_indices,
            viewport_scroll: 0,
            viewport_lines: Vec::new(),
            viewport_dirty: true,
            full_rendered_texts: Vec::new(),
            full_render_width: 0,
            content_height: 0,
            content_width: 0,
            full_content_width: 0,
            toc_width_pct,
            show_toc: true,
            focus: Focus::Content,
            scroll: 0,
            toc_cursor: 0,
            toc_scroll: 0,
            toc_height: 0,
            mode: Mode::Normal,
            search_query: String::new(),
            search_matches: Vec::new(),
            search_current: 0,
            search_highlight_cache: Vec::new(),
            cached_search_query: None,
            search_dirty: false,
            search_deadline: None,
            theme_picker_index: 0,
            theme_picker_origin: None,
            toast: None,
            first_run: true,
            quit: false,
            directory_mode: false,
            dir_view: DirView::FileView,
            dir_files: Vec::new(),
            dir_base: String::new(),
            dir_cursor: 0,
            dir_scroll: 0,
            current_file_index: None,
            file_cache: Vec::new(),
            scroll_positions: Vec::new(),
            cjk,
        }
    }

    /// A viewer on the markdown files of a directory, showing the list.
    pub fn new_directory_mode(dir_base: String, dir_name: String, dir_files: Vec<DirEntry>, toc_width_pct: u16, cjk: bool) -> (app: App)
        ensures
            app.wf(),
            app.spec_fresh(),
            app.file_name == dir_name,
            app.dir_base == dir_base,
            app.toc_width_pct == toc_width_pct,
            app.cjk == cjk,
            app.directory_mode,
            app.dir_view == DirView::FileList,
            app.focus == Focus::Toc,
            !app.first_run,
            app.document.nodes@.len() == 0,
            app.dir_cursor == 0,
            app.dir_scroll == 0,
            app.dir_files@ == dir_files@,
    {
        App {
            file_path: String::new(),
            file_name: dir_name,
            document: Arc::new(Document { nodes: Vec::new(), toc: Vec::new() }),
            node_heights: Vec::new(),
            node_line_starts: Vec::new(),
            total_content_lines: 0,
            raw_lines: Vec::new(),
            image_positions: Vec::new(),
            toc_line_indices: Vec::new(),
            viewport_scroll: 0,
            viewport_lines: Vec::new(),
            viewport_dirty: true,
            full_rendered_texts: Vec::new(),
            full_render_width: 0,
            content_height: 0,
            content_width: 0,
            full_content_width: 0,
            toc_width_pct,
            show_toc: true,
            focus: Focus::Toc,
            scroll: 0,
            toc_cursor: 0,
            toc_scroll: 0,
            toc_height: 0,
            mode: Mode::Normal,
            search_query: String::new(),
            search_matches: Vec::new(),
            search_current: 0,
            search_highlight_cache: Vec::new(),
            cached_search_query: None,
            search_dirty: false,
            search_deadline: None,
            theme_picker_index: 0,
            theme_picker_origin: None,
            toast: None,
            first_run: false,
            quit: false,
            directory_mode: true,
            dir_view: DirView::FileList,
            dir_files,
            dir_base,
            dir_cursor: 0,
            dir_scroll: 0,
            current_file_index: None,
            file_cache: Vec::new(),
            scroll_positions: Vec::new(),
            cjk,
        }
    }

    // -----------------------------------------------------------------------
    // Rendering
    // -----------------------------------------------------------------------

    /// Whether the rendered lines can be shown as they are: nothing changed since they were
    /// rendered, there are some, they start at or above the scroll position, and they were
    /// rendered for this scroll position, or reach down past the screen, or to the end of
    /// the document.
    pub open spec fn spec_viewport_current(&self) -> bool {
        let vs = self.viewport_scroll as int;
        let end = vs + self.viewport_lines@.len();
        &&& !self.viewport_dirty
        &&& self.viewport_lines@.len() > 0
        &&& vs <= self.scroll
        &&& (vs == (if self.scroll >= RENDER_BUFFER_LINES { self.scroll - RENDER_BUFFER_LINES } else { 0 })
            || self.scroll + self.content_height <= end || end >= self.total_content_lines)
    }

    /// Renders the lines around the scroll position unless those rendered are current;
    /// says whether it rendered. Right after a render that gave lines, they are current, so
    /// a second call renders nothing and changes nothing.
    pub fn ensure_viewport_rendered(&mut self, width: u16, full_width: u16, highlighter: &CodeHighlighter) -> (rendered: bool)
        requires
            old(self).wf(),
            old(self).scroll + old(self).content_height + RENDER_BUFFER_LINES <= usize::MAX,
        ensures
            final(self).wf(),
            rendered == !old(self).spec_viewport_current(),
            rendered && final(self).viewport_lines@.len() > 0 ==> final(self).spec_viewport_current(),
            !rendered ==> *final(self) == *old(self),
            rendered ==> {
                let first = if old(self).scroll >= RENDER_BUFFER_LINES { (old(self).scroll - RENDER_BUFFER_LINES) as nat } else { 0 };
                let r = spec_viewport(
                    views(old(self).document.nodes@),
                    old(self).node_line_starts@,
                    first,
                    (old(self).scroll + old(self).content_height + RENDER_BUFFER_LINES) as nat,
                    width as nat,
                    full_width as nat,
                    old(self).cjk,
                );
                &&& views(final(self).viewport_lines@) == r.lines
                &&& crate::renderer::nodes::images_view(final(self).image_positions@) == r.images
                &&& final(self).viewport_scroll == first
                &&& !final(self).viewport_dirty
                &&& *final(self) == (App {
                    viewport_lines: final(self).viewport_lines,
                    image_positions: final(self).image_positions,
                    viewport_scroll: final(self).viewport_scroll,
                    viewport_dirty: false,
                    ..*old(self)
                })
            },
    {
        let start = self.scroll.saturating_sub(RENDER_BUFFER_LINES);
        if !self.viewport_dirty && self.viewport_lines.len() > 0 && self.viewport_scroll <= self.scroll {
            let vs = self.viewport_scroll;
            let len = self.viewport_lines.len();
            let end_ok = len >= self.total_content_lines || vs >= self.total_content_lines - len;
            let covers = self.content_height as usize <= len && self.scroll - vs <= len - self.content_height as usize;
            if vs == start || covers || end_ok {
                return false;
            }
        }
        let viewport_end = self.scroll + self.content_height as usize + RENDER_BUFFER_LINES;
        let scroll_start = self.scroll.saturating_sub(RENDER_BUFFER_LINES);
        let result = render_viewport(
            &self.document.nodes,
            &self.node_line_starts,
            scroll_start,
            viewport_end,
            width,
            full_width,
            highlighter,
            self.cjk,
        );
        self.viewport_lines = result.lines;
        self.image_positions = result.image_positions;
        self.viewport_scroll = scroll_start;
        self.viewport_dirty = false;
        true
    }

    /// The rendered lines around the scroll position.
    pub fn get_viewport_lines(&self) -> (l: &Vec<StyledLine>)
        ensures
            *l == self.viewport_lines,
    {
        &self.viewport_lines
    }

    /// The document line the first rendered line is.
    pub fn get_viewport_scroll(&self) -> (n: usize)
        ensures
            n == self.viewport_scroll,
    {
        self.viewport_scroll
    }

    /// Takes freshly rendered lines, maps each table-of-contents entry to the line its
    /// heading starts on, keeps the scroll position in range and syncs the table of contents.
    pub fn update_render(
        &mut self,
        rendered_lines: Vec<StyledLine>,
        image_positions: Vec<(usize, String, String)>,
        node_line_starts: &Vec<usize>,
    )
        ensures
            final(self).viewport_lines == rendered_lines,
            final(self).image_positions == image_positions,
            final(self).viewport_scroll == old(self).scroll,
            !final(self).viewport_dirty,
            final(self).toc_line_indices@ == spec_toc_lines(
                Seq::new(old(self).document.toc@.len(), |i: int| old(self).document.toc@[i].node_index as int),
                node_line_starts@,
            ),
            final(self).scroll == (if old(self).scroll <= old(self).spec_max_scroll() { old(self).scroll as nat } else { old(self).spec_max_scroll() }),
            final(self).search_highlight_cache@.len() == 0,
            final(self).toc_line_indices@.len() > 0 ==> final(self).toc_cursor == final(self).spec_synced_cursor(),
            final(self).document == old(self).document,
            final(self).node_line_starts == old(self).node_line_starts,
            final(self).cjk == old(self).cjk,
    {
        self.viewport_lines = rendered_lines;
        self.image_positions = image_positions;
        self.viewport_scroll = self.scroll;
        self.viewport_dirty = false;
        self.toc_line_indices = toc_lines(&self.document, node_line_starts);
        let m = self.max_scroll();
        if self.scroll > m {
            self.scroll = m;
        }
        self.invalidate_search_cache();
        let n = self.toc_line_indices.len();
        proof {
            lemma_count_le_len(self.toc_line_indices@, self.scroll as int);
        }
        self.sync_toc_to_scroll();
    }

    // -----------------------------------------------------------------------
    // Toasts, panels and modes
    // -----------------------------------------------------------------------

    /// Shows `message` for a moment from `now` on.
    pub fn show_toast(&mut self, message: &str, now: u64)
        ensures
            final(self).toast matches Some(t) && t.message@ == message@ && t.created_at == now && t.duration == TOAST_MS,
            *final(self) == (App { toast: final(self).toast, ..*old(self) }),
    {
        self.toast = Some(Toast::new(message, TOAST_MS, now));
    }

    pub fn has_active_toast(&self) -> (b: bool)
        ensures
            b == self.toast is Some,
    {
        self.toast.is_some()
    }

    /// Drops the toast once it has expired at `now`; says whether it did.
    pub fn tick_toast(&mut self, now: u64) -> (dropped: bool)
        ensures
            dropped == (old(self).toast matches Some(t) && toast_expired(t.created_at as int, t.duration as int, now as int)),
            dropped ==> *final(self) == (App { toast: None, ..*old(self) }),
            !dropped ==> *final(self) == *old(self),
    {
        let expired = match &self.toast {
            Some(t) => t.is_expired(now),
            None => false,
        };
        if expired {
            self.toast = None;
        }
        expired
    }

    /// Shows or hides the table of contents, and says so.
    pub fn toggle_toc(&mut self, now: u64)
        ensures
            final(self).show_toc == !old(self).show_toc,
            final(self).toast matches Some(t) && t.message@ == (if final(self).show_toc { "TOC shown"@ } else { "TOC hidden"@ }),
            *final(self) == (App { show_toc: final(self).show_toc, toast: final(self).toast, ..*old(self) }),
    {
        self.show_toc = !self.show_toc;
        let status = if self.show_toc {
            "TOC shown"
        } else {
            "TOC hidden"
        };
        self.show_toast(status, now);
    }

    /// Widens the table of contents by two percent, to at most half the screen.
    pub fn widen_toc(&mut self, now: u64)
        ensures
            final(self).toc_width_pct == (if old(self).toc_width_pct + 2 <= 50 { old(self).toc_width_pct + 2 } else { 50 }),
            final(self).toast matches Some(t) && t.message@ == toc_width_message(final(self).toc_width_pct),
            *final(self) == (App { toc_width_pct: final(self).toc_width_pct, toast: final(self).toast, ..*old(self) }),
    {
        let w = self.toc_width_pct.saturating_add(2);
        self.toc_width_pct = if w < 50 {
            w
        } else {
            50
        };
        let msg = toc_width_text(self.toc_width_pct);
        self.show_toast(msg.as_str(), now);
    }

    /// Narrows the table of contents by two percent, to at least a tenth of the screen.
    pub fn narrow_toc(&mut self, now: u64)
        ensures
            final(self).toc_width_pct == (if old(self).toc_width_pct >= 12 { old(self).toc_width_pct - 2 } else { 10 }),
            final(self).toast matches Some(t) && t.message@ == toc_width_message(final(self).toc_width_pct),
            *final(self) == (App { toc_width_pct: final(self).toc_width_pct, toast: final(self).toast, ..*old(self) }),
    {
        let w = self.toc_width_pct.saturating_sub(2);
        self.toc_width_pct = if w > 10 {
            w
        } else {
            10
        };
        let msg = toc_width_text(self.toc_width_pct);
        self.show_toast(msg.as_str(), now);
    }

    /// Moves focus to the other panel.
    pub fn toggle_focus(&mut self)
        ensures
            final(self).focus == toggled_focus(old(self).focus),
            *final(self) == (App { focus: final(self).focus, ..*old(self) }),
    {
        self.focus = match self.focus {
            Focus::Content => Focus::Toc,
            Focus::Toc => Focus::Content,
        };
    }

    /// Opens the help, or closes it.
    pub fn toggle_help(&mut self)
        ensures
            final(self).mode == toggled_help(old(self).mode),
            *final(self) == (App { mode: final(self).mode, ..*old(self) }),
    {
        self.mode = match self.mode {
            Mode::Help => Mode::Normal,
            _ => Mode::Help,
        };
    }

    /// Opens the theme picker on theme `current_index`, remembering it.
    pub fn open_theme_picker(&mut self, current_index: usize)
        ensures
            *final(self) == (App {
                theme_picker_index: current_index,
                theme_picker_origin: Some(current_index),
                mode: Mode::ThemePicker,
                ..*old(self)
            }),
    {
        self.theme_picker_index = current_index;
        self.theme_picker_origin = Some(current_index);
        self.mode = Mode::ThemePicker;
    }

    /// Moves the theme picker `delta` places round `total_themes` themes; returns the new
    /// place, or nothing when there are no themes.
    pub fn move_theme_picker(&mut self, delta: isize, total_themes: usize) -> (r: Option<usize>)
        requires
            old(self).theme_picker_index <= isize::MAX,
            total_themes <= isize::MAX,
            isize::MIN <= old(self).theme_picker_index + delta <= isize::MAX,
        ensures
            total_themes == 0 ==> r is None && *final(self) == *old(self),
            total_themes > 0 ==> r == Some(picker_moved(old(self).theme_picker_index as int, delta as int, total_themes as int) as usize)
                && *final(self) == (App {
                    theme_picker_index: picker_moved(old(self).theme_picker_index as int, delta as int, total_themes as int) as usize,
                    ..*old(self)
                }),
    {
        if total_themes == 0 {
            return None;
        }
        let len = total_themes as i128;
        let sum = self.theme_picker_index as i128 + delta as i128;
        let next: i128 = if sum >= 0 {
            let r = ((sum as u128) % (len as u128)) as i128;
            assert(r as int == (sum as int) % (len as int));
            r
        } else {
            let a = (((0 - sum) as u128) % (len as u128)) as i128;
            let r = if a == 0 {
                0
            } else {
                len - a
            };
            proof {
                let x = 0 - sum as int;
                let n = len as int;
                let q = x / n;
                vstd::arithmetic::div_mod::lemma_fundamental_div_mod(x, n);
                assert(x == n * q + a as int);
                if a == 0 {
                    assert(sum as int == (-q) * n + 0) by (nonlinear_arith)
                        requires
                            x == n * q,
                            sum as int == -x,
                    ;
                    vstd::arithmetic::div_mod::lemma_fundamental_div_mod_converse(sum as int, n, -q, 0);
                } else {
                    assert(sum as int == (-q - 1) * n + (n - a as int)) by (nonlinear_arith)
                        requires
                            x == n * q + a as int,
                            sum as int == -x,
                    ;
                    vstd::arithmetic::div_mod::lemma_fundamental_div_mod_converse(sum as int, n, -q - 1, n - a as int);
                }
            }
            r
        };
        assert(next == (old(self).theme_picker_index + delta) % (total_themes as int));
        self.theme_picker_index = next as usize;
        Some(next as usize)
    }

    /// Keeps the theme chosen in the picker and closes it.
    pub fn confirm_theme_picker(&mut self)
        ensures
            *final(self) == (App { theme_picker_origin: None, mode: Mode::Normal, ..*old(self) }),
    {
        self.theme_picker_origin = None;
        self.mode = Mode::Normal;
    }

    /// Closes the theme picker; returns the theme it was opened on, to go back to.
    pub fn cancel_theme_picker(&mut self) -> (r: Option<usize>)
        ensures
            r == old(self).theme_picker_origin,
            *final(self) == (App { theme_picker_origin: None, mode: Mode::Normal, ..*old(self) }),
    {
        self.mode = Mode::Normal;
        let r = self.theme_picker_origin;
        self.theme_picker_origin = None;
        r
    }
}

/// The rows and columns a panel's border takes.
pub const PANEL_BORDER_SIZE: u16 = 2;

/// `a - b`, or 0.
pub open spec fn sat_sub_u16(a: u16, b: u16) -> u16 {
    if a >= b {
        (a - b) as u16
    } else {
        0
    }
}

/// How many rendered lines are on a screen `height` lines high: those from the scroll
/// position on, when the rendered lines start at or before it.
pub open spec fn spec_visible_count(len: nat, offset: usize, scroll: usize, height: usize) -> nat {
    if offset <= scroll && scroll - offset < len {
        if len - (scroll - offset) < height {
            (len - (scroll - offset)) as nat
        } else {
            height as nat
        }
    } else {
        0
    }
}

/// The first of sorted line numbers `m` at or below `line`, or the first when none is.
pub open spec fn first_match_from(m: Seq<usize>, line: int) -> nat {
    let c = count_at_most(m, line - 1);
    if c < m.len() {
        c
    } else {
        0
    }
}

/// The scroll position `n` lines further down, stopping at `max`.
pub open spec fn scrolled_down(scroll: int, n: int, max: int) -> int {
    if scroll + n <= max {
        scroll + n
    } else {
        max
    }
}

/// The scroll position `n` lines further up, stopping at the top.
pub open spec fn scrolled_up(scroll: int, n: int) -> int {
    if scroll >= n {
        scroll - n
    } else {
        0
    }
}

/// The match after `current` of `n`, round to the first after the last.
pub open spec fn next_match(current: int, n: int) -> int {
    (current + 1) % n
}

/// The match before `current` of `n`, round to the last before the first.
pub open spec fn prev_match(current: int, n: int) -> int {
    if current == 0 {
        n - 1
    } else {
        current - 1
    }
}

/// The other pane.
pub open spec fn toggled_focus(f: Focus) -> Focus {
    if f == Focus::Content {
        Focus::Toc
    } else {
        Focus::Content
    }
}

/// The mode after the help key: help closes to normal mode, any other mode opens it.
pub open spec fn toggled_help(m: Mode) -> Mode {
    if m == Mode::Help {
        Mode::Normal
    } else {
        Mode::Help
    }
}

/// The theme picker's place `delta` steps from `index`, round `total` themes.
pub open spec fn picker_moved(index: int, delta: int, total: int) -> int {
    (index + delta) % total
}

/// Scrolling keeps the position between the top and the last position that still fills
/// the screen, whichever way and however far it goes.
pub proof fn law_scroll_stays_in_range(scroll: int, n: int, max: int)
    requires
        0 <= scroll <= max,
        0 <= n,
    ensures
        0 <= scrolled_down(scroll, n, max) <= max,
        0 <= scrolled_up(scroll, n) <= max,
{
}

/// Scrolling up undoes scrolling down by as many lines, unless the bottom stopped it.
pub proof fn law_scroll_up_undoes_down(scroll: int, n: int, max: int)
    requires
        0 <= scroll,
        0 <= n,
        scroll + n <= max,
    ensures
        scrolled_up(scrolled_down(scroll, n, max), n) == scroll,
{
}

/// Scrolling down undoes scrolling up by as many lines, unless the top stopped it.
pub proof fn law_scroll_down_undoes_up(scroll: int, n: int, max: int)
    requires
        0 <= n <= scroll <= max,
    ensures
        scrolled_down(scrolled_up(scroll, n), n, max) == scroll,
{
}

/// The previous match after the next one is the match one started from, and the other way
/// round; so is the `n`-th next match after going round all `n` matches.
pub proof fn law_search_next_prev_inverse(current: int, n: int)
    requires
        0 <= current < n,
    ensures
        prev_match(next_match(current, n), n) == current,
        next_match(prev_match(current, n), n) == current,
        0 <= next_match(current, n) < n,
        0 <= prev_match(current, n) < n,
{
    if current + 1 < n {
        vstd::arithmetic::div_mod::lemma_small_mod((current + 1) as nat, n as nat);
    } else {
        vstd::arithmetic::div_mod::lemma_mod_self_0(n);
    }
    if current == 0 {
        vstd::arithmetic::div_mod::lemma_mod_self_0(n);
    } else {
        vstd::arithmetic::div_mod::lemma_small_mod(current as nat, n as nat);
    }
}

/// Pressing the help key twice, or switching panes twice, leaves things as they were.
pub proof fn law_toggles_are_involutions(f: Focus, m: Mode)
    requires
        m == Mode::Normal || m == Mode::Help,
    ensures
        toggled_focus(toggled_focus(f)) == f,
        toggled_help(toggled_help(m)) == m,
{
}

/// In the theme picker, a step down then a step up comes back to the same theme, and so
/// does the reverse; every step lands on a theme.
pub proof fn law_picker_steps_inverse(index: int, total: int)
    requires
        0 <= index < total,
    ensures
        picker_moved(picker_moved(index, 1, total), -1, total) == index,
        picker_moved(picker_moved(index, -1, total), 1, total) == index,
        0 <= picker_moved(index, 1, total) < total,
        0 <= picker_moved(index, -1, total) < total,
{
    vstd::arithmetic::div_mod::lemma_small_mod(index as nat, total as nat);
    vstd::arithmetic::div_mod::lemma_mod_add_multiples_vanish(-1, total);
    vstd::arithmetic::div_mod::lemma_small_mod((total - 1) as nat, total as nat);
    vstd::arithmetic::div_mod::lemma_mod_self_0(total);
    assert((-1int) % total == total - 1);
    if index + 1 < total {
        vstd::arithmetic::div_mod::lemma_small_mod((index + 1) as nat, total as nat);
    }
    if index >= 1 {
        vstd::arithmetic::div_mod::lemma_small_mod((index - 1) as nat, total as nat);
    }
}

/// The toast shown when the table of contents changes width.
pub open spec fn toc_width_message(pct: u16) -> Seq<char> {
    "TOC width: "@ + crate::text::spec_decimal(pct as u64) + seq!['%']
}

fn toc_width_text(pct: u16) -> (s: String)
    ensures
        s@ == toc_width_message(pct),
{
    let mut s = String::new();
    crate::text::push_str(&mut s, "TOC width: ");
    crate::text::push_decimal(&mut s, pct as u64);
    push_char(&mut s, '%');
    s
}

impl App {
    // -----------------------------------------------------------------------
    // Directory mode
    // -----------------------------------------------------------------------

    pub fn is_directory_mode(&self) -> (b: bool)
        ensures
            b == self.directory_mode,
    {
        self.directory_mode
    }

    /// Moves the file cursor up one file, scrolling the list to keep it shown.
    pub fn dir_up(&mut self)
        ensures
            !old(self).directory_mode || old(self).dir_files@.len() == 0 ==> *final(self) == *old(self),
            old(self).directory_mode && old(self).dir_files@.len() > 0 ==> {
                let c = if old(self).dir_cursor > 0 { (old(self).dir_cursor - 1) as usize } else { 0usize };
                *final(self) == (App {
                    dir_cursor: c,
                    dir_scroll: if c < old(self).dir_scroll { c } else { old(self).dir_scroll },
                    ..*old(self)
                })
            },
    {
        if !self.directory_mode || self.dir_files.len() == 0 {
            return;
        }
        self.dir_cursor = self.dir_cursor.saturating_sub(1);
        if self.dir_cursor < self.dir_scroll {
            self.dir_scroll = self.dir_cursor;
        }
    }

    /// Moves the file cursor down one file (no further than the last), scrolling the list
    /// to keep it shown.
    pub fn dir_down(&mut self)
        ensures
            !old(self).directory_mode || old(self).dir_files@.len() == 0 ==> *final(self) == *old(self),
            old(self).directory_mode && old(self).dir_files@.len() > 0 ==> {
                let n = old(self).dir_files@.len();
                let c = if old(self).dir_cursor + 1 <= n - 1 { (old(self).dir_cursor + 1) as usize } else { (n - 1) as usize };
                let v = old(self).toc_height as int;
                *final(self) == (App {
                    dir_cursor: c,
                    dir_scroll: if c >= old(self).dir_scroll + v {
                        list_top_for(c as int, v) as usize
                    } else {
                        old(self).dir_scroll
                    },
                    ..*old(self)
                })
            },
    {
        if !self.directory_mode || self.dir_files.len() == 0 {
            return;
        }
        let last = self.dir_files.len() - 1;
        self.dir_cursor = if self.dir_cursor < last {
            self.dir_cursor + 1
        } else {
            last
        };
        let visible = self.toc_height as usize;
        if self.dir_cursor >= self.dir_scroll && self.dir_cursor - self.dir_scroll >= visible {
            self.dir_scroll = if visible == 0 {
                0
            } else {
                self.dir_cursor.saturating_sub(visible - 1)
            };
        }
    }

    /// Moves the file cursor to the first file.
    pub fn dir_top(&mut self)
        ensures
            *final(self) == (App { dir_cursor: 0, dir_scroll: 0, ..*old(self) }),
    {
        self.dir_cursor = 0;
        self.dir_scroll = 0;
    }

    /// Moves the file cursor to the last file, scrolling the list to show it at the bottom.
    pub fn dir_bottom(&mut self)
        ensures
            old(self).dir_files@.len() == 0 ==> *final(self) == *old(self),
            old(self).dir_files@.len() > 0 ==> {
                let c = (old(self).dir_files@.len() - 1) as usize;
                let v = old(self).toc_height as int;
                *final(self) == (App {
                    dir_cursor: c,
                    dir_scroll: list_top_for(c as int, v) as usize,
                    ..*old(self)
                })
            },
    {
        if self.dir_files.len() == 0 {
            return;
        }
        self.dir_cursor = self.dir_files.len() - 1;
        let visible = self.toc_height as usize;
        self.dir_scroll = if visible == 0 {
            0
        } else {
            self.dir_cursor.saturating_sub(visible - 1)
        };
    }

    fn find_position(&self, index: usize) -> (r: Option<usize>)
        ensures
            match r {
                Some(k) => first_key(self.scroll_positions@, index) == Some(k as int) && k < self.scroll_positions@.len(),
                None => first_key(self.scroll_positions@, index) is None,
            },
    {
        let mut k: usize = 0;
        while k < self.scroll_positions.len()
            invariant
                k <= self.scroll_positions@.len(),
                first_key(self.scroll_positions@, index) == first_key_from(self.scroll_positions@, index, k as int),
            decreases self.scroll_positions@.len() - k,
        {
            if self.scroll_positions[k].0 == index {
                return Some(k);
            }
            k = k + 1;
        }
        None
    }

    /// The saved scroll position of file `index`: the first entry for it.
    pub open spec fn spec_saved_scroll(&self, index: usize) -> Option<usize> {
        match first_key(self.scroll_positions@, index) {
            Some(k) => Some(self.scroll_positions@[k].1),
            None => None,
        }
    }

    /// Remembers `scroll` as the position of file `index`.
    fn save_position(&mut self, index: usize, scroll: usize)
        ensures
            final(self).spec_saved_scroll(index) == Some(scroll),
            forall|j: usize| j != index ==> #[trigger] final(self).spec_saved_scroll(j) == old(self).spec_saved_scroll(j),
            distinct_keys(old(self).scroll_positions@) ==> distinct_keys(final(self).scroll_positions@),
            *final(self) == (App { scroll_positions: final(self).scroll_positions, ..*old(self) }),
    {
        let ghost before = self.scroll_positions@;
        match self.find_position(index) {
            Some(k) => {
                self.scroll_positions.set(k, (index, scroll));
                proof {
                    lemma_first_key_from_holds(before, index, 0);
                    lemma_first_key_from_update(before, index, 0, k as int, (index, scroll));
                    assert forall|j: usize| j != index implies #[trigger] first_key(self.scroll_positions@, j) == first_key(before, j) by {
                        lemma_first_key_from_other_update(before, j, 0, k as int, (index, scroll));
                    }
                    assert forall|a: int, b: int| 0 <= a < b < self.scroll_positions@.len() implies self.scroll_positions@[a].0
                        == before[a].0 && self.scroll_positions@[b].0 == before[b].0 by {}
                }
            },
            None => {
                self.scroll_positions.push((index, scroll));
                proof {
                    lemma_first_key_from_push(before, index, 0, (index, scroll));
                    lemma_first_key_from_none(before, index, 0);
                    assert forall|j: usize| j != index implies #[trigger] first_key(self.scroll_positions@, j) == first_key(before, j) by {
                        lemma_first_key_from_other_push(before, j, 0, (index, scroll));
                    }
                }
            },
        }
        proof {
            assert forall|j: usize| j != index implies #[trigger] self.spec_saved_scroll(j) == old(self).spec_saved_scroll(j) by {
                assert(first_key(self.scroll_positions@, j) == first_key(before, j));
                match first_key(before, j) {
                    Some(p) => {
                        lemma_first_key_from_holds(before, j, 0);
                        assert(self.scroll_positions@[p] == before[p]);
                    },
                    None => {},
                }
            }
        }
    }
}

/// The first place from `from` on whose key is `index`.
pub open spec fn first_key_from<V>(s: Seq<(usize, V)>, index: usize, from: int) -> Option<int>
    decreases s.len() - from,
{
    if from < 0 || from >= s.len() {
        None
    } else if s[from].0 == index {
        Some(from)
    } else {
        first_key_from(s, index, from + 1)
    }
}

/// The first place whose key is `index`.
pub open spec fn first_key<V>(s: Seq<(usize, V)>, index: usize) -> Option<int> {
    first_key_from(s, index, 0)
}

/// The first place with key `index`, where there is one, holds that key.
proof fn lemma_first_key_from_holds<V>(s: Seq<(usize, V)>, index: usize, from: int)
    ensures
        first_key_from(s, index, from) matches Some(k) ==> 0 <= k < s.len() && s[k].0 == index,
    decreases s.len() - from,
{
    if 0 <= from < s.len() && s[from].0 != index {
        lemma_first_key_from_holds(s, index, from + 1);
    }
}

/// A place at or after `from` holding key `index` is found.
proof fn lemma_first_key_from_found<V>(s: Seq<(usize, V)>, index: usize, from: int, j: int)
    requires
        0 <= from <= j < s.len(),
        s[j].0 == index,
    ensures
        first_key_from(s, index, from) is Some,
    decreases j - from,
{
    if s[from].0 != index {
        lemma_first_key_from_found(s, index, from + 1, j);
    }
}

/// Where none is found from `from` on, no place from there holds key `index`.
proof fn lemma_first_key_from_none<V>(s: Seq<(usize, V)>, index: usize, from: int)
    requires
        0 <= from,
        first_key_from(s, index, from) is None,
    ensures
        forall|j: int| from <= j < s.len() ==> s[j].0 != index,
    decreases s.len() - from,
{
    if from < s.len() {
        lemma_first_key_from_none(s, index, from + 1);
    }
}

/// Writing a place with another key leaves where key `j` is first found.
proof fn lemma_first_key_from_other_update<V>(s: Seq<(usize, V)>, j: usize, from: int, k: int, x: (usize, V))
    requires
        0 <= from,
        0 <= k < s.len(),
        s[k].0 == x.0,
        x.0 != j,
    ensures
        first_key_from(s.update(k, x), j, from) == first_key_from(s, j, from),
    decreases s.len() - from,
{
    if from < s.len() {
        lemma_first_key_from_other_update(s, j, from + 1, k, x);
    }
}

/// Adding an entry with another key leaves where key `j` is first found.
proof fn lemma_first_key_from_other_push<V>(s: Seq<(usize, V)>, j: usize, from: int, x: (usize, V))
    requires
        0 <= from,
        x.0 != j,
    ensures
        first_key_from(s.push(x), j, from) == first_key_from(s, j, from),
    decreases s.len() + 1 - from,
{
    if from < s.len() + 1 {
        lemma_first_key_from_other_push(s, j, from + 1, x);
    }
}

proof fn lemma_first_key_from_update<V>(s: Seq<(usize, V)>, index: usize, from: int, k: int, x: (usize, V))
    requires
        0 <= from <= k < s.len(),
        first_key_from(s, index, from) == Some(k),
        x.0 == index,
    ensures
        first_key_from(s.update(k, x), index, from) == Some(k),
    decreases k - from,
{
    if from < k {
        lemma_first_key_from_update(s, index, from + 1, k, x);
    }
}

proof fn lemma_first_key_from_push<V>(s: Seq<(usize, V)>, index: usize, from: int, x: (usize, V))
    requires
        0 <= from <= s.len(),
        first_key_from(s, index, from) is None,
        x.0 == index,
    ensures
        first_key_from(s.push(x), index, from) == Some(s.len() as int),
    decreases s.len() - from,
{
    if from < s.len() {
        lemma_first_key_from_push(s, index, from + 1, x);
    }
}

impl App {
    /// Where file `index` is among the kept files.
    fn find_cached(&self, index: usize) -> (r: Option<usize>)
        ensures
            match r {
                Some(k) => first_key(self.file_cache@, index) == Some(k as int) && k < self.file_cache@.len(),
                None => first_key(self.file_cache@, index) is None,
            },
    {
        let mut k: usize = 0;
        while k < self.file_cache.len()
            invariant
                k <= self.file_cache@.len(),
                first_key(self.file_cache@, index) == first_key_from(self.file_cache@, index, k as int),
            decreases self.file_cache@.len() - k,
        {
            if self.file_cache[k].0 == index {
                return Some(k);
            }
            k = k + 1;
        }
        None
    }

    /// Whether file `index` is kept parsed.
    pub fn is_file_cached(&self, index: usize) -> (b: bool)
        ensures
            b == first_key(self.file_cache@, index) is Some,
    {
        self.find_cached(index).is_some()
    }

    /// Drops the saved scroll position of file `key`, if there is one.
    fn forget_position(&mut self, key: usize)
        ensures
            distinct_keys(old(self).scroll_positions@) ==> distinct_keys(final(self).scroll_positions@),
            *final(self) == (App { scroll_positions: final(self).scroll_positions, ..*old(self) }),
    {
        let mut positions: Vec<(usize, usize)> = Vec::new();
        std::mem::swap(&mut positions, &mut self.scroll_positions);
        let mut p: usize = 0;
        while p < positions.len()
            invariant
                p <= positions@.len(),
                distinct_keys(old(self).scroll_positions@) ==> distinct_keys(positions@),
            decreases positions@.len() - p,
        {
            if positions[p].0 == key {
                let ghost before = positions@;
                positions.remove(p);
                proof {
                    if distinct_keys(before) {
                        assert forall|a: int, b: int| 0 <= a < b < positions@.len() implies positions@[a].0
                            != positions@[b].0 by {
                            let ia = if a < p { a } else { a + 1 };
                            let ib = if b < p { b } else { b + 1 };
                            assert(positions@[a] == before[ia] && positions@[b] == before[ib]);
                        }
                    }
                }
                break;
            }
            p = p + 1;
        }
        self.scroll_positions = positions;
    }

    /// Keeps file `index` parsed as the most recently used. Past the limit, the least
    /// recently used file is dropped with its scroll position; where that is the open
    /// file, it is moved to the most recent place instead and the next one is dropped.
    fn insert_file_cache(&mut self, index: usize, cached: CachedDocument)
        ensures
            first_key(final(self).file_cache@, index) is Some,
            final(self).file_cache@.len() >= 1,
            final(self).file_cache@.last().0 == index || old(self).current_file_index == Some(
                final(self).file_cache@.last().0,
            ),
            distinct_keys(old(self).file_cache@) ==> distinct_keys(final(self).file_cache@),
            distinct_keys(old(self).file_cache@) && old(self).file_cache@.len() <= MAX_FILE_CACHE
                ==> final(self).file_cache@.len() <= MAX_FILE_CACHE,
            distinct_keys(old(self).scroll_positions@) ==> distinct_keys(final(self).scroll_positions@),
            distinct_keys(old(self).file_cache@) ==> final(self).file_cache@.last() == (index, cached)
                || (old(self).current_file_index == Some(final(self).file_cache@.last().0)
                && final(self).file_cache@.last().0 != index),
            distinct_keys(old(self).file_cache@) ==> (first_key(final(self).file_cache@, index) matches Some(q)
                && final(self).file_cache@[q] == (index, cached)),
            *final(self) == (App {
                file_cache: final(self).file_cache,
                scroll_positions: final(self).scroll_positions,
                ..*old(self)
            }),
    {
        let ghost c0 = self.file_cache@;
        match self.find_cached(index) {
            Some(p) => {
                proof {
                    lemma_first_key_from_holds(c0, index, 0);
                }
                self.file_cache.remove(p);
                proof {
                    if distinct_keys(c0) {
                        assert forall|j: int| 0 <= j < self.file_cache@.len() implies self.file_cache@[j].0 != index by {
                            if j < p {
                                assert(self.file_cache@[j] == c0[j]);
                            } else {
                                assert(self.file_cache@[j] == c0[j + 1]);
                            }
                        }
                    }
                }
            },
            None => {
                proof {
                    lemma_first_key_from_none(c0, index, 0);
                }
            },
        }
        let ghost c1 = self.file_cache@;
        assert(c1.len() <= c0.len());
        assert(distinct_keys(c0) ==> distinct_keys(c1) && forall|j: int| 0 <= j < c1.len() ==> c1[j].0 != index);
        self.file_cache.push((index, cached));
        let ghost c2 = self.file_cache@;
        let ghost mut at: int = c1.len() as int;
        assert(c2[at].0 == index);
        assert(c2.last().0 == index);
        assert(distinct_keys(c0) ==> distinct_keys(c2));
        self.evict_past_limit();
        proof {
            let f = self.file_cache@;
            let here: int = if c2.len() > MAX_FILE_CACHE {
                if f.last() == c2.last() { f.len() - 1 } else { f.len() - 2 }
            } else {
                at
            };
            assert(f[here] == (index, cached));
            lemma_first_key_from_found(f, index, 0, here);
            lemma_first_key_from_holds(f, index, 0);
        }
    }

    /// Past the limit, drops the least recently used kept file with its scroll position;
    /// where that is the open file, it is moved to the most recent place instead and the
    /// next one is dropped.
    #[verifier::rlimit(60)]
    fn evict_past_limit(&mut self)
        requires
            old(self).file_cache@.len() >= 1,
        ensures
            old(self).file_cache@.len() <= MAX_FILE_CACHE ==> *final(self) == *old(self),
            old(self).file_cache@.len() > MAX_FILE_CACHE ==> {
                let c = old(self).file_cache@;
                let f = final(self).file_cache@;
                &&& f.len() >= 2
                &&& f.last() == c.last() || (f[f.len() - 2] == c.last() && old(self).current_file_index == Some(f.last().0))
                &&& distinct_keys(c) ==> f.len() + 1 == c.len()
            },
            distinct_keys(old(self).file_cache@) ==> distinct_keys(final(self).file_cache@),
            distinct_keys(old(self).scroll_positions@) ==> distinct_keys(final(self).scroll_positions@),
            *final(self) == (App {
                file_cache: final(self).file_cache,
                scroll_positions: final(self).scroll_positions,
                ..*old(self)
            }),
    {
        if self.file_cache.len() <= MAX_FILE_CACHE {
            return;
        }
        let ghost c2 = self.file_cache@;
        let front = self.file_cache[0].0;
        let front_open = match self.current_file_index {
            Some(c) => c == front,
            None => false,
        };
        if front_open {
            let e = self.file_cache.remove(0);
            self.file_cache.push(e);
            proof {
                let c3 = self.file_cache@;
                assert(c3.len() == c2.len());
                assert(c3[c3.len() - 2] == c2.last());
                assert(c3.last() == c2[0]);
                if distinct_keys(c2) {
                    assert forall|a: int, b: int| 0 <= a < b < c3.len() implies c3[a].0 != c3[b].0 by {
                        if b < c3.len() - 1 {
                            assert(c3[a] == c2[a + 1] && c3[b] == c2[b + 1]);
                        } else {
                            assert(c3[a] == c2[a + 1] && c3[b] == c2[0]);
                        }
                    }
                    assert(c3[0] == c2[1]);
                }
            }
        }
        let ghost c4 = self.file_cache@;
        assert(c4.len() == c2.len());
        assert(c4.last() == c2.last() || (c4[c4.len() - 2] == c2.last() && self.current_file_index == Some(c4.last().0)));
        let key = self.file_cache[0].0;
        let keep = match self.current_file_index {
            Some(c) => c == key,
            None => false,
        };
        if !keep {
            self.file_cache.remove(0);
            proof {
                let f = self.file_cache@;
                assert(f.last() == c4.last());
                assert(f[f.len() - 2] == c4[c4.len() - 2]);
                if distinct_keys(c4) {
                    assert forall|a: int, b: int| 0 <= a < b < f.len() implies f[a].0 != f[b].0 by {
                        assert(f[a] == c4[a + 1] && f[b] == c4[b + 1]);
                    }
                }
            }
            self.forget_position(key);
        }
    }

    /// Keeps the open file parsed, in directory mode.
    pub fn sync_current_file_cache(&mut self)
        requires
            old(self).wf(),
        ensures
            final(self).wf(),
            final(self).document == old(self).document,
            final(self).node_line_starts == old(self).node_line_starts,
            final(self).cjk == old(self).cjk,
            old(self).directory_mode && old(self).current_file_index is Some ==> {
                let e = final(self).file_cache@.last();
                &&& final(self).file_cache@.len() >= 1
                &&& e.0 == old(self).current_file_index.unwrap()
                &&& e.1.document == old(self).document
                &&& e.1.node_heights@ == old(self).node_heights@
                &&& e.1.node_line_starts@ == old(self).node_line_starts@
                &&& e.1.total_lines == old(self).total_content_lines
                &&& e.1.toc_line_indices@ == old(self).toc_line_indices@
                &&& *final(self) == (App {
                    file_cache: final(self).file_cache,
                    scroll_positions: final(self).scroll_positions,
                    ..*old(self)
                })
            },
            !(old(self).directory_mode && old(self).current_file_index is Some) ==> *final(self) == *old(self),
    {
        if !self.directory_mode {
            return;
        }
        match self.current_file_index {
            Some(file_index) => {
                let cached = CachedDocument {
                    document: share(&self.document),
                    node_heights: copy_usizes(&self.node_heights),
                    node_line_starts: copy_usizes(&self.node_line_starts),
                    total_lines: self.total_content_lines,
                    toc_line_indices: copy_usizes(&self.toc_line_indices),
                };
                self.insert_file_cache(file_index, cached);
            },
            None => {},
        }
    }

    /// Leaves the open file for the list, remembering where it was scrolled to.
    pub fn return_to_file_list(&mut self)
        ensures
            !old(self).directory_mode ==> *final(self) == *old(self),
            old(self).directory_mode ==> {
                &&& final(self).dir_view == DirView::FileList
                &&& final(self).focus == Focus::Toc
                &&& final(self).toc_cursor == 0
                &&& final(self).toc_scroll == 0
                &&& old(self).current_file_index matches Some(i) ==> final(self).spec_saved_scroll(i) == Some(old(self).scroll)
                &&& forall|j: usize| old(self).current_file_index != Some(j) ==> #[trigger] final(self).spec_saved_scroll(j)
                    == old(self).spec_saved_scroll(j)
                &&& distinct_keys(old(self).scroll_positions@) ==> distinct_keys(final(self).scroll_positions@)
                &&& *final(self) == (App {
                    dir_view: DirView::FileList,
                    focus: Focus::Toc,
                    toc_cursor: 0,
                    toc_scroll: 0,
                    scroll_positions: final(self).scroll_positions,
                    ..*old(self)
                })
            },
    {
        if !self.directory_mode {
            return;
        }
        match self.current_file_index {
            Some(idx) => {
                let scroll = self.scroll;
                self.save_position(idx, scroll);
            },
            None => {},
        }
        let ghost saved = *self;
        self.dir_view = DirView::FileList;
        self.focus = Focus::Toc;
        self.toc_cursor = 0;
        self.toc_scroll = 0;
        proof {
            assert forall|j: usize| old(self).current_file_index != Some(j) implies #[trigger] self.spec_saved_scroll(j)
                == old(self).spec_saved_scroll(j) by {
                assert(self.spec_saved_scroll(j) == saved.spec_saved_scroll(j));
            }
        }
    }

    /// Whether file `file_index` of the list can be opened: it is in the list, and either
    /// it is among the kept files, whose document can be laid out with one start per node
    /// in order, or `markdown` holds its text, whose document can be laid out and whose
    /// lines at the content width can be counted.
    pub open spec fn spec_opens(&self, file_index: usize, markdown: Option<&str>) -> bool {
        &&& file_index < self.dir_files@.len()
        &&& match first_key(self.file_cache@, file_index) {
            Some(p) => {
                let c = self.file_cache@[p].1;
                &&& nodes_ok(views(c.document.nodes@))
                &&& nodes_render_ok(views(c.document.nodes@), self.cjk)
                &&& c.node_line_starts@.len() == c.document.nodes@.len()
                &&& sorted(c.node_line_starts@)
            },
            None => match markdown {
                Some(md) => {
                    let d = crate::parser::spec_parse_events(crate::events::cmark_events(md@)).nodes;
                    &&& nodes_ok(d)
                    &&& nodes_render_ok(d, self.cjk)
                    &&& crate::renderer::measure::prefix_sum(
                        Seq::new(d.len(), |k: int| spec_node_height(d[k], self.content_width as nat, self.cjk) as usize),
                        d.len() as int,
                    ) <= usize::MAX
                },
                None => false,
            },
        }
    }

    /// Opens file `file_index` of the list: from the kept files, or else from `markdown`,
    /// its text (`None` when it could not be read), parsed and measured at the content
    /// width. Scrolls to where the file was left. Says whether a file was opened; nothing
    /// changes when none was (the index is past the list, the text is missing, or the
    /// document is too large to lay out).
    pub fn open_file_from_dir(&mut self, file_index: usize, markdown: Option<&str>) -> (opened: bool)
        requires
            old(self).wf(),
        ensures
            final(self).wf(),
            !opened ==> *final(self) == *old(self),
            opened <==> old(self).spec_opens(file_index, markdown),
            opened ==> {
                &&& file_index < old(self).dir_files@.len()
                &&& final(self).current_file_index == Some(file_index)
                &&& final(self).dir_view == DirView::FileView
                &&& final(self).focus == Focus::Content
                &&& final(self).file_path@ == old(self).dir_files@[file_index as int].path@
                &&& final(self).file_name@ == old(self).dir_files@[file_index as int].display_name@
                &&& !final(self).search_dirty
                &&& final(self).search_deadline is None
                &&& final(self).viewport_dirty
                &&& final(self).image_positions@.len() == 0
                &&& first_key(final(self).file_cache@, file_index) is Some
                &&& final(self).scroll == (match final(self).spec_saved_scroll(file_index) {
                    Some(saved) => if saved <= final(self).spec_max_scroll() { saved as nat } else { final(self).spec_max_scroll() },
                    None => 0,
                })
                &&& final(self).content_height == old(self).content_height
                &&& final(self).content_width == old(self).content_width
                &&& final(self).dir_files == old(self).dir_files
                &&& final(self).directory_mode == old(self).directory_mode
                &&& final(self).cjk == old(self).cjk
                &&& first_key(old(self).file_cache@, file_index) is Some ==> final(self).scroll_positions
                    == old(self).scroll_positions
                &&& first_key(final(self).file_cache@, file_index) matches Some(q) && {
                    let c = final(self).file_cache@[q].1;
                    &&& final(self).document == c.document
                    &&& final(self).node_heights@ == c.node_heights@
                    &&& final(self).node_line_starts@ == c.node_line_starts@
                    &&& final(self).total_content_lines == c.total_lines
                    &&& final(self).toc_line_indices@ == c.toc_line_indices@
                }
                &&& first_key(old(self).file_cache@, file_index) matches Some(p) ==> {
                    let c = old(self).file_cache@[p].1;
                    &&& final(self).document == c.document
                    &&& final(self).node_heights@ == c.node_heights@
                    &&& final(self).node_line_starts@ == c.node_line_starts@
                    &&& final(self).total_content_lines == c.total_lines
                    &&& final(self).toc_line_indices@ == c.toc_line_indices@
                }
                &&& first_key(old(self).file_cache@, file_index) is None ==> {
                    let nodes = final(self).document.nodes@;
                    let heights = final(self).node_heights@;
                    &&& markdown matches Some(md)
                        && (*final(self).document)@ == crate::parser::spec_parse_events(crate::events::cmark_events(md@))
                    &&& heights.len() == nodes.len()
                    &&& forall|k: int| 0 <= k < nodes.len() ==> (#[trigger] heights[k]) as nat
                        == spec_node_height(nodes[k]@, old(self).content_width as nat, old(self).cjk)
                    &&& forall|k: int| 0 <= k < nodes.len() ==> (#[trigger] final(self).node_line_starts@[k]) as nat
                        == crate::renderer::measure::prefix_sum(heights, k)
                    &&& final(self).total_content_lines as nat == crate::renderer::measure::prefix_sum(heights, nodes.len() as int)
                    &&& final(self).toc_line_indices@ == spec_toc_lines(
                        Seq::new(final(self).document.toc@.len(), |i: int| final(self).document.toc@[i].node_index as int),
                        final(self).node_line_starts@,
                    )
                }
            },
    {
        if file_index >= self.dir_files.len() {
            return false;
        }
        match self.find_cached(file_index) {
            Some(p) => {
                let document = share(&self.file_cache[p].1.document);
                let heights = copy_usizes(&self.file_cache[p].1.node_heights);
                let starts = copy_usizes(&self.file_cache[p].1.node_line_starts);
                let total = self.file_cache[p].1.total_lines;
                let toc = copy_usizes(&self.file_cache[p].1.toc_line_indices);
                if !(crate::renderer::fits::nodes_fit(&document.nodes, self.cjk) && starts.len() == document.nodes.len() && is_sorted(&starts)) {
                    return false;
                }
                self.document = document;
                self.node_heights = heights;
                self.node_line_starts = starts;
                self.total_content_lines = total;
                self.toc_line_indices = toc;
                proof {
                    lemma_first_key_from_holds(self.file_cache@, file_index, 0);
                }
                let ghost c0 = self.file_cache@;
                let entry = self.file_cache.remove(p);
                assert(entry.0 == file_index);
                self.file_cache.push(entry);
                proof {
                    let c = self.file_cache@;
                    assert(c.len() == c0.len());
                    lemma_first_key_from_found(c, file_index, 0, c.len() - 1);
                    lemma_first_key_from_holds(c, file_index, 0);
                    if distinct_keys(c0) {
                        assert forall|a: int, b: int| 0 <= a < b < c.len() implies c[a].0 != c[b].0 by {
                            let ia = if a < p { a } else { a + 1 };
                            assert(c[a] == c0[ia]);
                            if b < c.len() - 1 {
                                let ib = if b < p { b } else { b + 1 };
                                assert(c[b] == c0[ib]);
                            } else {
                                assert(c[b] == c0[p as int]);
                            }
                        }
                    }
                    assert(first_key(c, file_index) == Some((c.len() - 1) as int));
                    assert(c[c.len() - 1] == entry);
                }
            },
            None => {
                let md = match markdown {
                    Some(m) => m,
                    None => {
                        return false;
                    },
                };
                let document = crate::parser::parse(md);
                if !crate::renderer::fits::nodes_fit(&document.nodes, self.cjk) {
                    return false;
                }
                let measured = match measure_document(&document, self.content_width, self.cjk) {
                    Some(m) => m,
                    None => {
                        assert(Seq::new(document.nodes@.len(), |k: int| spec_node_height(document.nodes@[k]@, self.content_width as nat, self.cjk) as usize)
                            =~= Seq::new(document@.nodes.len(), |k: int| spec_node_height(document@.nodes[k], self.content_width as nat, self.cjk) as usize));
                        return false;
                    },
                };
                assert(measured.node_heights@ =~= Seq::new(document@.nodes.len(), |k: int| spec_node_height(document@.nodes[k], self.content_width as nat, self.cjk) as usize));
                let raw_lines = crate::text::lines_of(md);
                let doc = Arc::new(document);
                self.document = share(&doc);
                self.node_heights = copy_usizes(&measured.node_heights);
                self.node_line_starts = copy_usizes(&measured.node_line_starts);
                self.total_content_lines = measured.total_content_lines;
                self.raw_lines = raw_lines;
                self.toc_line_indices = copy_usizes(&measured.toc_line_indices);
                self.insert_file_cache(file_index, CachedDocument {
                    document: doc,
                    node_heights: measured.node_heights,
                    node_line_starts: measured.node_line_starts,
                    total_lines: measured.total_content_lines,
                    toc_line_indices: measured.toc_line_indices,
                });
            },
        }
        self.image_positions = Vec::new();
        self.search_dirty = false;
        self.search_deadline = None;
        self.mark_viewport_dirty();
        self.file_path = self.dir_files[file_index].path.clone();
        self.file_name = self.dir_files[file_index].display_name.clone();
        match self.find_position(file_index) {
            Some(p) => {
                let saved = self.scroll_positions[p].1;
                let m = self.max_scroll();
                self.scroll = if saved < m {
                    saved
                } else {
                    m
                };
            },
            None => {
                self.scroll = 0;
            },
        }
        self.current_file_index = Some(file_index);
        self.dir_view = DirView::FileView;
        self.focus = Focus::Content;
        self.invalidate_search_cache();
        let n = self.toc_line_indices.len();
        self.sync_toc_to_scroll();
        true
    }
}

/// Whether `v` never decreases.
fn is_sorted(v: &Vec<usize>) -> (b: bool)
    ensures
        b == sorted(v@),
{
    let mut k: usize = 1;
    if v.len() == 0 {
        return true;
    }
    while k < v.len()
        invariant
            1 <= k <= v@.len(),
            forall|a: int, b: int| 0 <= a <= b < k ==> v@[a] <= v@[b],
        decreases v@.len() - k,
    {
        if v[k - 1] > v[k] {
            return false;
        }
        assert forall|a: int, b: int| 0 <= a <= b < k + 1 implies v@[a] <= v@[b] by {
            if b == k && a < k {
                assert(v@[a] <= v@[k - 1]);
            }
        }
        k = k + 1;
    }
    true
}

} // verus!
