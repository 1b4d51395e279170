//! Styles: how each part of the display looks in the theme in use.
use crate::config::ThemeConfig;
use crate::renderer::{CodeStyle, SpanStyle};
use crate::themes::Rgb;
use vstd::prelude::*;

verus! {

/// Colours and font attributes of a piece of text; unset colours are the terminal's.
#[derive(Clone, Copy, Debug, PartialEq, Eq, Structural)]
pub struct StyleSpec {
    pub fg: Option<Rgb>,
    pub bg: Option<Rgb>,
    pub bold: bool,
    pub italic: bool,
    pub underlined: bool,
    pub crossed_out: bool,
}

/// A style with just a foreground colour.
pub open spec fn fg_style(c: Rgb) -> StyleSpec {
    StyleSpec { fg: Some(c), bg: None, bold: false, italic: false, underlined: false, crossed_out: false }
}

/// The terminal's own style.
pub open spec fn plain_style() -> StyleSpec {
    StyleSpec { fg: None, bg: None, bold: false, italic: false, underlined: false, crossed_out: false }
}

/// The styles of every part of the display, worked out once per theme.
#[derive(Clone, Copy, Debug, PartialEq, Eq, Structural)]
pub struct CachedStyles {
    pub h1: StyleSpec,
    pub h2: StyleSpec,
    pub h3: StyleSpec,
    pub h4: StyleSpec,
    pub h5: StyleSpec,
    pub h6: StyleSpec,
    pub text: StyleSpec,
    pub subtext: StyleSpec,
    pub bold: StyleSpec,
    pub italic: StyleSpec,
    pub bold_italic: StyleSpec,
    pub strikethrough: StyleSpec,
    pub inline_code: StyleSpec,
    pub link: StyleSpec,
    pub blockquote_bar: StyleSpec,
    pub rule: StyleSpec,
    pub table_header: StyleSpec,
    pub table_border: StyleSpec,
    pub table_row_even: StyleSpec,
    pub table_row_odd: StyleSpec,
    pub code_block_border: StyleSpec,
    pub code_block_lang: StyleSpec,
    pub toc_border: StyleSpec,
    pub toc_border_focused: StyleSpec,
    pub toc_title: StyleSpec,
    pub toc_selected: StyleSpec,
    pub toc_synced: StyleSpec,
    pub content_border: StyleSpec,
    pub content_border_focused: StyleSpec,
    pub content_title: StyleSpec,
    pub search_match: StyleSpec,
    pub search_current: StyleSpec,
    pub statusbar: StyleSpec,
    pub statusbar_mode: StyleSpec,
    pub statusbar_key: StyleSpec,
    pub statusbar_dim: StyleSpec,
}

/// The styles of the theme `t`.
pub open spec fn spec_cached_styles(t: ThemeConfig) -> CachedStyles {
    CachedStyles {
        h1: StyleSpec { fg: Some(t.mauve), bg: None, bold: true, italic: false, underlined: false, crossed_out: false },
        h2: StyleSpec { fg: Some(t.lavender), bg: None, bold: true, italic: false, underlined: false, crossed_out: false },
        h3: StyleSpec { fg: Some(t.sapphire), bg: None, bold: true, italic: false, underlined: false, crossed_out: false },
        h4: StyleSpec { fg: Some(t.teal), bg: None, bold: true, italic: false, underlined: false, crossed_out: false },
        h5: StyleSpec { fg: Some(t.green), bg: None, bold: true, italic: false, underlined: false, crossed_out: false },
        h6: StyleSpec { fg: Some(t.yellow), bg: None, bold: true, italic: false, underlined: false, crossed_out: false },
        text: StyleSpec { fg: Some(t.text), bg: None, bold: false, italic: false, underlined: false, crossed_out: false },
        subtext: StyleSpec { fg: Some(t.subtext), bg: None, bold: false, italic: false, underlined: false, crossed_out: false },
        bold: StyleSpec { fg: Some(t.text), bg: None, bold: true, italic: false, underlined: false, crossed_out: false },
        italic: StyleSpec { fg: Some(t.subtext), bg: None, bold: false, italic: true, underlined: false, crossed_out: false },
        bold_italic: StyleSpec { fg: Some(t.text), bg: None, bold: true, italic: true, underlined: false, crossed_out: false },
        strikethrough: StyleSpec { fg: Some(t.overlay0), bg: None, bold: false, italic: false, underlined: false, crossed_out: true },
        inline_code: StyleSpec { fg: Some(t.peach), bg: Some(t.surface0), bold: false, italic: false, underlined: false, crossed_out: false },
        link: StyleSpec { fg: Some(t.blue), bg: None, bold: false, italic: false, underlined: true, crossed_out: false },
        blockquote_bar: StyleSpec { fg: Some(t.teal), bg: None, bold: false, italic: false, underlined: false, crossed_out: false },
        rule: StyleSpec { fg: Some(t.surface1), bg: None, bold: false, italic: false, underlined: false, crossed_out: false },
        table_header: StyleSpec { fg: Some(t.mauve), bg: None, bold: true, italic: false, underlined: false, crossed_out: false },
        table_border: StyleSpec { fg: Some(t.surface1), bg: None, bold: false, italic: false, underlined: false, crossed_out: false },
        table_row_even: StyleSpec { fg: Some(t.text), bg: None, bold: false, italic: false, underlined: false, crossed_out: false },
        table_row_odd: StyleSpec { fg: Some(t.subtext), bg: None, bold: false, italic: false, underlined: false, crossed_out: false },
        code_block_border: StyleSpec { fg: Some(t.surface1), bg: None, bold: false, italic: false, underlined: false, crossed_out: false },
        code_block_lang: StyleSpec { fg: Some(t.peach), bg: None, bold: false, italic: true, underlined: false, crossed_out: false },
        toc_border: StyleSpec { fg: Some(t.surface1), bg: None, bold: false, italic: false, underlined: false, crossed_out: false },
        toc_border_focused: StyleSpec { fg: Some(t.mauve), bg: None, bold: false, italic: false, underlined: false, crossed_out: false },
        toc_title: StyleSpec { fg: Some(t.mauve), bg: None, bold: true, italic: false, underlined: false, crossed_out: false },
        toc_selected: StyleSpec { fg: Some(t.crust), bg: Some(t.mauve), bold: true, italic: false, underlined: false, crossed_out: false },
        toc_synced: StyleSpec { fg: Some(t.crust), bg: Some(t.lavender), bold: false, italic: false, underlined: false, crossed_out: false },
        content_border: StyleSpec { fg: Some(t.surface1), bg: None, bold: false, italic: false, underlined: false, crossed_out: false },
        content_border_focused: StyleSpec { fg: Some(t.blue), bg: None, bold: false, italic: false, underlined: false, crossed_out: false },
        content_title: StyleSpec { fg: Some(t.blue), bg: None, bold: true, italic: false, underlined: false, crossed_out: false },
        search_match: StyleSpec { fg: Some(t.crust), bg: Some(t.yellow), bold: true, italic: false, underlined: false, crossed_out: false },
        search_current: StyleSpec { fg: Some(t.crust), bg: Some(t.peach), bold: true, italic: false, underlined: false, crossed_out: false },
        statusbar: StyleSpec { fg: Some(t.text), bg: Some(t.surface0), bold: false, italic: false, underlined: false, crossed_out: false },
        statusbar_mode: StyleSpec { fg: Some(t.crust), bg: Some(t.mauve), bold: true, italic: false, underlined: false, crossed_out: false },
        statusbar_key: StyleSpec { fg: Some(t.peach), bg: None, bold: true, italic: false, underlined: false, crossed_out: false },
        statusbar_dim: StyleSpec { fg: Some(t.overlay0), bg: None, bold: false, italic: false, underlined: false, crossed_out: false },
    }
}

/// Works out the styles of the theme `theme`.
pub fn build_cached_styles(theme: &ThemeConfig) -> (s: CachedStyles)
    ensures
        s == spec_cached_styles(*theme),
{
    CachedStyles {
        h1: StyleSpec { fg: Some(theme.mauve), bg: None, bold: true, italic: false, underlined: false, crossed_out: false },
        h2: StyleSpec { fg: Some(theme.lavender), bg: None, bold: true, italic: false, underlined: false, crossed_out: false },
        h3: StyleSpec { fg: Some(theme.sapphire), bg: None, bold: true, italic: false, underlined: false, crossed_out: false },
        h4: StyleSpec { fg: Some(theme.teal), bg: None, bold: true, italic: false, underlined: false, crossed_out: false },
        h5: StyleSpec { fg: Some(theme.green), bg: None, bold: true, italic: false, underlined: false, crossed_out: false },
        h6: StyleSpec { fg: Some(theme.yellow), bg: None, bold: true, italic: false, underlined: false, crossed_out: false },
        text: StyleSpec { fg: Some(theme.text), bg: None, bold: false, italic: false, underlined: false, crossed_out: false },
        subtext: StyleSpec { fg: Some(theme.subtext), bg: None, bold: false, italic: false, underlined: false, crossed_out: false },
        bold: StyleSpec { fg: Some(theme.text), bg: None, bold: true, italic: false, underlined: false, crossed_out: false },
        italic: StyleSpec { fg: Some(theme.subtext), bg: None, bold: false, italic: true, underlined: false, crossed_out: false },
        bold_italic: StyleSpec { fg: Some(theme.text), bg: None, bold: true, italic: true, underlined: false, crossed_out: false },
        strikethrough: StyleSpec { fg: Some(theme.overlay0), bg: None, bold: false, italic: false, underlined: false, crossed_out: true },
        inline_code: StyleSpec { fg: Some(theme.peach), bg: Some(theme.surface0), bold: false, italic: false, underlined: false, crossed_out: false },
        link: StyleSpec { fg: Some(theme.blue), bg: None, bold: false, italic: false, underlined: true, crossed_out: false },
        blockquote_bar: StyleSpec { fg: Some(theme.teal), bg: None, bold: false, italic: false, underlined: false, crossed_out: false },
        rule: StyleSpec { fg: Some(theme.surface1), bg: None, bold: false, italic: false, underlined: false, crossed_out: false },
        table_header: StyleSpec { fg: Some(theme.mauve), bg: None, bold: true, italic: false, underlined: false, crossed_out: false },
        table_border: StyleSpec { fg: Some(theme.surface1), bg: None, bold: false, italic: false, underlined: false, crossed_out: false },
        table_row_even: StyleSpec { fg: Some(theme.text), bg: None, bold: false, italic: false, underlined: false, crossed_out: false },
        table_row_odd: StyleSpec { fg: Some(theme.subtext), bg: None, bold: false, italic: false, underlined: false, crossed_out: false },
        code_block_border: StyleSpec { fg: Some(theme.surface1), bg: None, bold: false, italic: false, underlined: false, crossed_out: false },
        code_block_lang: StyleSpec { fg: Some(theme.peach), bg: None, bold: false, italic: true, underlined: false, crossed_out: false },
        toc_border: StyleSpec { fg: Some(theme.surface1), bg: None, bold: false, italic: false, underlined: false, crossed_out: false },
        toc_border_focused: StyleSpec { fg: Some(theme.mauve), bg: None, bold: false, italic: false, underlined: false, crossed_out: false },
        toc_title: StyleSpec { fg: Some(theme.mauve), bg: None, bold: true, italic: false, underlined: false, crossed_out: false },
        toc_selected: StyleSpec { fg: Some(theme.crust), bg: Some(theme.mauve), bold: true, italic: false, underlined: false, crossed_out: false },
        toc_synced: StyleSpec { fg: Some(theme.crust), bg: Some(theme.lavender), bold: false, italic: false, underlined: false, crossed_out: false },
        content_border: StyleSpec { fg: Some(theme.surface1), bg: None, bold: false, italic: false, underlined: false, crossed_out: false },
        content_border_focused: StyleSpec { fg: Some(theme.blue), bg: None, bold: false, italic: false, underlined: false, crossed_out: false },
        content_title: StyleSpec { fg: Some(theme.blue), bg: None, bold: true, italic: false, underlined: false, crossed_out: false },
        search_match: StyleSpec { fg: Some(theme.crust), bg: Some(theme.yellow), bold: true, italic: false, underlined: false, crossed_out: false },
        search_current: StyleSpec { fg: Some(theme.crust), bg: Some(theme.peach), bold: true, italic: false, underlined: false, crossed_out: false },
        statusbar: StyleSpec { fg: Some(theme.text), bg: Some(theme.surface0), bold: false, italic: false, underlined: false, crossed_out: false },
        statusbar_mode: StyleSpec { fg: Some(theme.crust), bg: Some(theme.mauve), bold: true, italic: false, underlined: false, crossed_out: false },
        statusbar_key: StyleSpec { fg: Some(theme.peach), bg: None, bold: true, italic: false, underlined: false, crossed_out: false },
        statusbar_dim: StyleSpec { fg: Some(theme.overlay0), bg: None, bold: false, italic: false, underlined: false, crossed_out: false },
    }
}

/// Works the styles out again after the theme changed.
pub fn refresh_cached_styles(cache: &mut CachedStyles, theme: &ThemeConfig)
    ensures
        *final(cache) == spec_cached_styles(*theme),
{
    *cache = build_cached_styles(theme);
}

/// The style of a heading of `level` (levels past six look like six).
pub open spec fn spec_heading_style(s: CachedStyles, level: u8) -> StyleSpec {
    if level == 1 {
        s.h1
    } else if level == 2 {
        s.h2
    } else if level == 3 {
        s.h3
    } else if level == 4 {
        s.h4
    } else if level == 5 {
        s.h5
    } else {
        s.h6
    }
}

/// The style of a heading of `level`.
pub fn heading_style(styles: &CachedStyles, level: u8) -> (r: StyleSpec)
    ensures
        r == spec_heading_style(*styles, level),
{
    match level {
        1 => styles.h1,
        2 => styles.h2,
        3 => styles.h3,
        4 => styles.h4,
        5 => styles.h5,
        _ => styles.h6,
    }
}

/// The colour of a list bullet at `depth`: six colours in turn.
pub open spec fn spec_bullet_color(t: ThemeConfig, depth: usize) -> Rgb {
    let k = depth % 6;
    if k == 0 {
        t.mauve
    } else if k == 1 {
        t.blue
    } else if k == 2 {
        t.teal
    } else if k == 3 {
        t.green
    } else if k == 4 {
        t.yellow
    } else {
        t.peach
    }
}

/// The style of a list bullet at `depth`.
pub fn bullet_style(theme: &ThemeConfig, depth: usize) -> (r: StyleSpec)
    ensures
        r == fg_style(spec_bullet_color(*theme, depth)),
{
    let k = depth % 6;
    let c = if k == 0 {
        theme.mauve
    } else if k == 1 {
        theme.blue
    } else if k == 2 {
        theme.teal
    } else if k == 3 {
        theme.green
    } else if k == 4 {
        theme.yellow
    } else {
        theme.peach
    };
    StyleSpec { fg: Some(c), bg: None, bold: false, italic: false, underlined: false, crossed_out: false }
}

/// The style of a table-of-contents entry of `level`: its heading style, not bold.
pub fn toc_item_style(styles: &CachedStyles, level: u8) -> (r: StyleSpec)
    ensures
        r == (StyleSpec { bold: false, ..spec_heading_style(*styles, level) }),
{
    let h = heading_style(styles, level);
    StyleSpec { bold: false, ..h }
}

/// The style of highlighted code: its colour, bold and italic as the highlighter gave them.
pub open spec fn spec_code_style(c: CodeStyle) -> StyleSpec {
    StyleSpec {
        fg: Some(Rgb { r: c.r, g: c.g, b: c.b }),
        bg: None,
        bold: c.bold,
        italic: c.italic,
        underlined: false,
        crossed_out: false,
    }
}

/// How a span of each role looks.
pub open spec fn spec_style_of(role: SpanStyle, s: CachedStyles, t: ThemeConfig) -> StyleSpec {
    match role {
        SpanStyle::Plain => plain_style(),
        SpanStyle::Text => s.text,
        SpanStyle::Subtext => s.subtext,
        SpanStyle::Bold => s.bold,
        SpanStyle::Italic => s.italic,
        SpanStyle::BoldItalic => s.bold_italic,
        SpanStyle::Strikethrough => s.strikethrough,
        SpanStyle::InlineCode => s.inline_code,
        SpanStyle::Link => s.link,
        SpanStyle::Heading(l) => spec_heading_style(s, l),
        SpanStyle::BlockquoteBar => s.blockquote_bar,
        SpanStyle::Rule => s.rule,
        SpanStyle::TableHeader => s.table_header,
        SpanStyle::TableBorder => s.table_border,
        SpanStyle::TableRowEven => s.table_row_even,
        SpanStyle::TableRowOdd => s.table_row_odd,
        SpanStyle::Bullet(d) => fg_style(spec_bullet_color(t, d)),
        SpanStyle::CodeBlockBorder => s.code_block_border,
        SpanStyle::CodeBlockLang => s.code_block_lang,
        SpanStyle::Code(c) => spec_code_style(c),
        SpanStyle::SearchMatch => s.search_match,
        SpanStyle::SearchCurrent => s.search_current,
    }
}

/// How a span of role `role` looks.
pub fn style_of(role: SpanStyle, styles: &CachedStyles, theme: &ThemeConfig) -> (r: StyleSpec)
    ensures
        r == spec_style_of(role, *styles, *theme),
{
    match role {
        SpanStyle::Plain => StyleSpec { fg: None, bg: None, bold: false, italic: false, underlined: false, crossed_out: false },
        SpanStyle::Text => styles.text,
        SpanStyle::Subtext => styles.subtext,
        SpanStyle::Bold => styles.bold,
        SpanStyle::Italic => styles.italic,
        SpanStyle::BoldItalic => styles.bold_italic,
        SpanStyle::Strikethrough => styles.strikethrough,
        SpanStyle::InlineCode => styles.inline_code,
        SpanStyle::Link => styles.link,
        SpanStyle::Heading(l) => heading_style(styles, l),
        SpanStyle::BlockquoteBar => styles.blockquote_bar,
        SpanStyle::Rule => styles.rule,
        SpanStyle::TableHeader => styles.table_header,
        SpanStyle::TableBorder => styles.table_border,
        SpanStyle::TableRowEven => styles.table_row_even,
        SpanStyle::TableRowOdd => styles.table_row_odd,
        SpanStyle::Bullet(d) => bullet_style(theme, d),
        SpanStyle::CodeBlockBorder => styles.code_block_border,
        SpanStyle::CodeBlockLang => styles.code_block_lang,
        SpanStyle::Code(c) => StyleSpec {
            fg: Some(Rgb { r: c.r, g: c.g, b: c.b }),
            bg: None,
            bold: c.bold,
            italic: c.italic,
            underlined: false,
            crossed_out: false,
        },
        SpanStyle::SearchMatch => styles.search_match,
        SpanStyle::SearchCurrent => styles.search_current,
    }
}

} // verus!
