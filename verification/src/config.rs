//! Configuration: key bindings, the theme colours, and which theme is in use.
use crate::text::{chars_of, split_chars, spec_split, spec_trim, str_lowercase, string_of, to_lowercase, trim};
use crate::themes::{spec_theme_colors, spec_theme_for_word, Rgb, ThemeColors, ThemeName, spec_display_name};
use crate::renderer::inline::spec_utf8_bytes;
use vstd::prelude::*;

verus! {

/// A key of the keyboard, as far as bindings tell keys apart.
#[derive(Clone, Copy, Debug, PartialEq, Eq, Structural)]
pub enum KeyCode {
    Char(char),
    Esc,
    Enter,
    Up,
    Down,
    Left,
    Right,
    Tab,
    Backspace,
    PageUp,
    PageDown,
    /// No key: what an unknown binding resolves to.
    Null,
    /// Any other key.
    Other,
}

/// Modifier keys held with a key, as bits: shift, control, alt.
#[derive(Clone, Copy, Debug, PartialEq, Eq, Structural)]
pub struct KeyModifiers {
    pub bits: u8,
}

pub const SHIFT: u8 = 1;
pub const CONTROL: u8 = 2;
pub const ALT: u8 = 4;

impl KeyModifiers {
    /// No modifier.
    pub fn empty() -> (m: KeyModifiers)
        ensures
            m.bits == 0,
    {
        KeyModifiers { bits: 0 }
    }

    /// Whether no modifier is held.
    pub fn is_empty(self) -> (b: bool)
        ensures
            b == (self.bits == 0),
    {
        self.bits == 0
    }
}

/// A key together with the modifiers it must be pressed with.
#[derive(Clone, Copy, Debug, PartialEq, Eq, Structural)]
pub struct KeyBinding {
    pub code: KeyCode,
    pub modifiers: KeyModifiers,
}

/// Whether a key press matches a binding: the same key, and the same modifiers once shift
/// is set aside (shift already shows in the character).
pub open spec fn spec_matches(b: KeyBinding, code: KeyCode, modifiers: KeyModifiers) -> bool {
    b.code == code && (modifiers.bits & !SHIFT) == b.modifiers.bits
}

impl KeyBinding {
    pub fn new(code: KeyCode, modifiers: KeyModifiers) -> (b: KeyBinding)
        ensures
            b == (KeyBinding { code, modifiers }),
    {
        KeyBinding { code, modifiers }
    }

    /// Whether pressing `code` with `modifiers` triggers this binding.
    pub fn matches(self, code: KeyCode, modifiers: KeyModifiers) -> (r: bool)
        ensures
            r == spec_matches(self, code, modifiers),
    {
        if self.code != code {
            return false;
        }
        let relevant = modifiers.bits & !SHIFT;
        relevant == self.modifiers.bits
    }
}

/// Holding shift or not makes no difference to which binding a key press triggers.
pub proof fn law_shift_does_not_matter(b: KeyBinding, code: KeyCode, bits: u8)
    ensures
        spec_matches(b, code, KeyModifiers { bits: bits | SHIFT }) == spec_matches(
            b,
            code,
            KeyModifiers { bits: bits & !SHIFT },
        ),
{
    assert((bits | 1u8) & !1u8 == (bits & !1u8) & !1u8) by (bit_vector);
}

/// A key press triggers a binding only if both hold Control or neither does (and the same
/// for Alt): a Control binding is never triggered by the plain key.
pub proof fn law_control_and_alt_must_agree(b: KeyBinding, code: KeyCode, m: KeyModifiers)
    requires
        spec_matches(b, code, m),
    ensures
        (b.modifiers.bits & CONTROL == 0) == (m.bits & CONTROL == 0),
        (b.modifiers.bits & ALT == 0) == (m.bits & ALT == 0),
{
    let x = m.bits;
    let y = b.modifiers.bits;
    assert(x & !1u8 == y ==> ((y & 2u8 == 0u8) == (x & 2u8 == 0u8) && (y & 4u8 == 0u8) == (x & 4u8 == 0u8))) by (bit_vector);
}

/// The binding that matches nothing.
pub open spec fn null_binding() -> KeyBinding {
    KeyBinding { code: KeyCode::Null, modifiers: KeyModifiers { bits: 0 } }
}

/// The key a lowercase key name names (`Null` for an unknown name).
pub open spec fn spec_key_code_for_word(w: Seq<char>) -> KeyCode {
    if w == "esc"@ {
        KeyCode::Esc
    } else if w == "enter"@ {
        KeyCode::Enter
    } else if w == "up"@ {
        KeyCode::Up
    } else if w == "down"@ {
        KeyCode::Down
    } else if w == "left"@ {
        KeyCode::Left
    } else if w == "right"@ {
        KeyCode::Right
    } else if w == "tab"@ {
        KeyCode::Tab
    } else if w == "backspace"@ {
        KeyCode::Backspace
    } else if w == "ctrl-c"@ || w == "c"@ {
        KeyCode::Char('c')
    } else if w == "pageup"@ || w == "pgup"@ {
        KeyCode::PageUp
    } else if w == "pagedown"@ || w == "pgdown"@ {
        KeyCode::PageDown
    } else {
        KeyCode::Null
    }
}

/// The name of a named key: the key's own name in lowercase (`None` for a character key
/// and for the placeholders).
pub open spec fn key_name(k: KeyCode) -> Option<Seq<char>> {
    match k {
        KeyCode::Esc => Some("esc"@),
        KeyCode::Enter => Some("enter"@),
        KeyCode::Up => Some("up"@),
        KeyCode::Down => Some("down"@),
        KeyCode::Left => Some("left"@),
        KeyCode::Right => Some("right"@),
        KeyCode::Tab => Some("tab"@),
        KeyCode::Backspace => Some("backspace"@),
        KeyCode::PageUp => Some("pageup"@),
        KeyCode::PageDown => Some("pagedown"@),
        _ => None,
    }
}

/// Each named key is what its own name reads as, and a word reads as a named key only
/// where it is that key's name or its short form (`pgup`, `pgdown`); so two keys never
/// share a name.
pub proof fn law_key_names_name_their_keys(k: KeyCode, w: Seq<char>)
    ensures
        key_name(k) matches Some(name) ==> spec_key_code_for_word(name) == k,
        key_name(spec_key_code_for_word(w)) matches Some(name) ==> name == w || (w == "pgup"@
            && spec_key_code_for_word(w) == KeyCode::PageUp) || (w == "pgdown"@ && spec_key_code_for_word(w)
            == KeyCode::PageDown),
{
    reveal_strlit("esc");
    reveal_strlit("enter");
    reveal_strlit("up");
    reveal_strlit("down");
    reveal_strlit("left");
    reveal_strlit("right");
    reveal_strlit("tab");
    reveal_strlit("backspace");
    reveal_strlit("ctrl-c");
    reveal_strlit("c");
    reveal_strlit("pageup");
    reveal_strlit("pgup");
    reveal_strlit("pagedown");
    reveal_strlit("pgdown");
    assert("esc"@.len() == 3 && "esc"@[0] == 'e' && "esc"@[1] == 's');
    assert("enter"@.len() == 5 && "enter"@[0] == 'e' && "enter"@[1] == 'n');
    assert("up"@.len() == 2 && "up"@[0] == 'u' && "up"@[1] == 'p');
    assert("down"@.len() == 4 && "down"@[0] == 'd' && "down"@[1] == 'o');
    assert("left"@.len() == 4 && "left"@[0] == 'l' && "left"@[1] == 'e');
    assert("right"@.len() == 5 && "right"@[0] == 'r' && "right"@[1] == 'i');
    assert("tab"@.len() == 3 && "tab"@[0] == 't' && "tab"@[1] == 'a');
    assert("backspace"@.len() == 9 && "backspace"@[0] == 'b' && "backspace"@[1] == 'a');
    assert("ctrl-c"@.len() == 6 && "ctrl-c"@[0] == 'c' && "ctrl-c"@[1] == 't');
    assert("c"@.len() == 1 && "c"@[0] == 'c');
    assert("pageup"@.len() == 6 && "pageup"@[0] == 'p' && "pageup"@[1] == 'a');
    assert("pgup"@.len() == 4 && "pgup"@[0] == 'p' && "pgup"@[1] == 'g');
    assert("pagedown"@.len() == 8 && "pagedown"@[0] == 'p' && "pagedown"@[1] == 'a');
    assert("pgdown"@.len() == 6 && "pgdown"@[0] == 'p' && "pgdown"@[1] == 'g');
}

fn same(a: &str, b: &str) -> (r: bool)
    ensures
        r == (a@ == b@),
{
    let va = chars_of(a);
    let vb = chars_of(b);
    if va.len() != vb.len() {
        assert(va@.len() != vb@.len());
        return false;
    }
    let mut k: usize = 0;
    while k < va.len()
        invariant
            k <= va@.len() == vb@.len(),
            va@ == a@,
            vb@ == b@,
            va@.take(k as int) == vb@.take(k as int),
        decreases va@.len() - k,
    {
        if va[k] != vb[k] {
            assert(va@[k as int] != vb@[k as int]);
            assert(a@ != b@);
            return false;
        }
        assert(va@.take(k + 1) =~= va@.take(k as int).push(va@[k as int]));
        assert(vb@.take(k + 1) =~= vb@.take(k as int).push(vb@[k as int]));
        k = k + 1;
    }
    assert(va@.take(va@.len() as int) =~= va@);
    assert(vb@.take(vb@.len() as int) =~= vb@);
    true
}

/// The key a lowercase key name names.
pub fn key_code_for_word(w: &str) -> (k: KeyCode)
    ensures
        k == spec_key_code_for_word(w@),
{
    if same(w, "esc") {
        KeyCode::Esc
    } else if same(w, "enter") {
        KeyCode::Enter
    } else if same(w, "up") {
        KeyCode::Up
    } else if same(w, "down") {
        KeyCode::Down
    } else if same(w, "left") {
        KeyCode::Left
    } else if same(w, "right") {
        KeyCode::Right
    } else if same(w, "tab") {
        KeyCode::Tab
    } else if same(w, "backspace") {
        KeyCode::Backspace
    } else if same(w, "ctrl-c") || same(w, "c") {
        KeyCode::Char('c')
    } else if same(w, "pageup") || same(w, "pgup") {
        KeyCode::PageUp
    } else if same(w, "pagedown") || same(w, "pgdown") {
        KeyCode::PageDown
    } else {
        KeyCode::Null
    }
}

/// The key a key name gives: a single character stands for itself (case kept), longer
/// names are matched in any case.
pub open spec fn spec_parse_key_code(s: Seq<char>) -> KeyCode {
    let t = spec_trim(s);
    if t.len() == 1 {
        KeyCode::Char(t[0])
    } else {
        spec_key_code_for_word(str_lowercase(t))
    }
}

/// The key `s` names, around white space.
pub fn parse_key_code(s: &str) -> (k: KeyCode)
    ensures
        k == spec_parse_key_code(s@),
{
    let trimmed = trim(s);
    let v = chars_of(trimmed.as_str());
    if v.len() == 1 {
        return KeyCode::Char(v[0]);
    }
    let lower = to_lowercase(trimmed.as_str());
    key_code_for_word(lower.as_str())
}

/// The modifier bit a lowercase modifier name names.
pub open spec fn spec_modifier_for_word(w: Seq<char>) -> Option<u8> {
    if w == "ctrl"@ || w == "control"@ {
        Some(CONTROL)
    } else if w == "alt"@ || w == "option"@ {
        Some(ALT)
    } else if w == "shift"@ {
        Some(SHIFT)
    } else {
        None
    }
}

/// The modifier bit a lowercase modifier name names, if any.
pub fn modifier_for_word(w: &str) -> (m: Option<u8>)
    ensures
        m == spec_modifier_for_word(w@),
{
    if same(w, "ctrl") || same(w, "control") {
        Some(CONTROL)
    } else if same(w, "alt") || same(w, "option") {
        Some(ALT)
    } else if same(w, "shift") {
        Some(SHIFT)
    } else {
        None
    }
}

/// The modifier bits of the first `k` modifier names, or `None` once one is unknown.
pub open spec fn spec_modifier_bits(parts: Seq<Seq<char>>, k: int) -> Option<u8>
    decreases k,
{
    if k <= 0 {
        Some(0u8)
    } else {
        match spec_modifier_bits(parts, k - 1) {
            None => None,
            Some(b) => match spec_modifier_for_word(str_lowercase(parts[k - 1])) {
                None => None,
                Some(m) => Some(b | m),
            },
        }
    }
}

/// The binding a key description such as `G`, `ctrl-c` or `alt-shift-enter` gives:
/// modifier names joined to the key by hyphens. An empty description, or one with an
/// unknown modifier, binds nothing.
pub open spec fn spec_parse_key(s: Seq<char>) -> KeyBinding {
    let t = spec_trim(s);
    if t.len() == 0 {
        null_binding()
    } else {
        let parts = spec_split(t, '-');
        let nmods = if parts.len() > 1 {
            parts.len() - 1
        } else {
            0
        };
        let key = if parts.len() > 1 {
            parts.last()
        } else {
            t
        };
        match spec_modifier_bits(parts, nmods) {
            None => null_binding(),
            Some(b) => KeyBinding { code: spec_parse_key_code(key), modifiers: KeyModifiers { bits: b } },
        }
    }
}

/// The binding a key description gives.
pub fn parse_key(s: &str) -> (b: KeyBinding)
    ensures
        b == spec_parse_key(s@),
{
    let trimmed = trim(s);
    let v = chars_of(trimmed.as_str());
    if v.len() == 0 {
        return KeyBinding::new(KeyCode::Null, KeyModifiers::empty());
    }
    let parts = split_chars(&v, '-');
    let ghost ps = spec_split(v@, '-');
    let nmods = if parts.len() > 1 {
        parts.len() - 1
    } else {
        0
    };
    let mut bits: u8 = 0;
    let mut k: usize = 0;
    while k < nmods
        invariant
            k <= nmods < parts@.len(),
            parts@.len() == ps.len(),
            v@ == spec_trim(s@),
            v@.len() > 0,
            ps == spec_split(v@, '-'),
            nmods == (if ps.len() > 1 { ps.len() - 1 } else { 0 }),
            forall|q: int| 0 <= q < parts@.len() ==> (#[trigger] parts@[q])@ == ps[q],
            spec_modifier_bits(ps, k as int) == Some(bits),
        decreases nmods - k,
    {
        let part = string_of(&parts[k]);
        let lower = to_lowercase(part.as_str());
        match modifier_for_word(lower.as_str()) {
            None => {
                assert(spec_modifier_bits(ps, (k + 1) as int) == None::<u8>);
                assert forall|j: int| k + 1 <= j <= nmods implies spec_modifier_bits(ps, j) == None::<u8> by {
                    lemma_bits_none(ps, (k + 1) as int, j);
                }
                return KeyBinding::new(KeyCode::Null, KeyModifiers::empty());
            },
            Some(m) => {
                bits = bits | m;
            },
        }
        k = k + 1;
    }
    let code = if parts.len() > 1 {
        let key = string_of(&parts[parts.len() - 1]);
        parse_key_code(key.as_str())
    } else {
        parse_key_code(trimmed.as_str())
    };
    KeyBinding::new(code, KeyModifiers { bits })
}

proof fn lemma_bits_none(parts: Seq<Seq<char>>, a: int, b: int)
    requires
        0 <= a <= b,
        spec_modifier_bits(parts, a) == None::<u8>,
    ensures
        spec_modifier_bits(parts, b) == None::<u8>,
    decreases b - a,
{
    if a < b {
        lemma_bits_none(parts, a, b - 1);
    }
}

/// Key descriptions as written in the configuration file.
#[derive(Clone, Debug)]
pub struct KeybindingsConfig {
    pub quit: String,
    pub up: String,
    pub down: String,
    pub page_up: String,
    pub page_down: String,
    pub top: String,
    pub bottom: String,
    pub toggle_toc: String,
    pub focus_prev: String,
    pub focus_next: String,
    pub search: String,
    pub search_next: String,
    pub search_prev: String,
    pub help: String,
    pub next_theme: String,
}

fn owned(s: &str) -> (r: String)
    ensures
        r@ == s@,
{
    let mut r = String::new();
    crate::text::push_str(&mut r, s);
    r
}

/// Whether `k` holds the default key descriptions: vim-like motions.
pub open spec fn is_default_keys(k: KeybindingsConfig) -> bool {
    &&& k.quit@ == "q"@
    &&& k.up@ == "k"@
    &&& k.down@ == "j"@
    &&& k.page_up@ == "u"@
    &&& k.page_down@ == "d"@
    &&& k.top@ == "g"@
    &&& k.bottom@ == "G"@
    &&& k.toggle_toc@ == "s"@
    &&& k.focus_prev@ == "h"@
    &&& k.focus_next@ == "l"@
    &&& k.search@ == "/"@
    &&& k.search_next@ == "n"@
    &&& k.search_prev@ == "N"@
    &&& k.help@ == "?"@
    &&& k.next_theme@ == "t"@
}

impl Default for KeybindingsConfig {
    fn default() -> (c: KeybindingsConfig)
        ensures
            is_default_keys(c),
    {
        KeybindingsConfig {
            quit: owned("q"),
            up: owned("k"),
            down: owned("j"),
            page_up: owned("u"),
            page_down: owned("d"),
            top: owned("g"),
            bottom: owned("G"),
            toggle_toc: owned("s"),
            focus_prev: owned("h"),
            focus_next: owned("l"),
            search: owned("/"),
            search_next: owned("n"),
            search_prev: owned("N"),
            help: owned("?"),
            next_theme: owned("t"),
        }
    }
}

/// The parsed key bindings.
#[derive(Clone, Copy, Debug, PartialEq, Eq, Structural)]
pub struct ResolvedKeybindings {
    pub quit: KeyBinding,
    pub up: KeyBinding,
    pub down: KeyBinding,
    pub page_up: KeyBinding,
    pub page_down: KeyBinding,
    pub top: KeyBinding,
    pub bottom: KeyBinding,
    pub toggle_toc: KeyBinding,
    pub focus_prev: KeyBinding,
    pub focus_next: KeyBinding,
    pub search: KeyBinding,
    pub search_next: KeyBinding,
    pub search_prev: KeyBinding,
    pub help: KeyBinding,
    pub next_theme: KeyBinding,
}

/// The binding of a single character without modifiers.
pub open spec fn char_binding(c: char) -> KeyBinding {
    KeyBinding { code: KeyCode::Char(c), modifiers: KeyModifiers { bits: 0 } }
}

/// The default bindings.
pub open spec fn spec_default_keymap() -> ResolvedKeybindings {
    ResolvedKeybindings {
        quit: char_binding('q'),
        up: char_binding('k'),
        down: char_binding('j'),
        page_up: char_binding('u'),
        page_down: char_binding('d'),
        top: char_binding('g'),
        bottom: char_binding('G'),
        toggle_toc: char_binding('s'),
        focus_prev: char_binding('h'),
        focus_next: char_binding('l'),
        search: char_binding('/'),
        search_next: char_binding('n'),
        search_prev: char_binding('N'),
        help: char_binding('?'),
        next_theme: char_binding('t'),
    }
}

impl Default for ResolvedKeybindings {
    fn default() -> (k: ResolvedKeybindings)
        ensures
            k == spec_default_keymap(),
    {
        ResolvedKeybindings {
            quit: KeyBinding::new(KeyCode::Char('q'), KeyModifiers::empty()),
            up: KeyBinding::new(KeyCode::Char('k'), KeyModifiers::empty()),
            down: KeyBinding::new(KeyCode::Char('j'), KeyModifiers::empty()),
            page_up: KeyBinding::new(KeyCode::Char('u'), KeyModifiers::empty()),
            page_down: KeyBinding::new(KeyCode::Char('d'), KeyModifiers::empty()),
            top: KeyBinding::new(KeyCode::Char('g'), KeyModifiers::empty()),
            bottom: KeyBinding::new(KeyCode::Char('G'), KeyModifiers::empty()),
            toggle_toc: KeyBinding::new(KeyCode::Char('s'), KeyModifiers::empty()),
            focus_prev: KeyBinding::new(KeyCode::Char('h'), KeyModifiers::empty()),
            focus_next: KeyBinding::new(KeyCode::Char('l'), KeyModifiers::empty()),
            search: KeyBinding::new(KeyCode::Char('/'), KeyModifiers::empty()),
            search_next: KeyBinding::new(KeyCode::Char('n'), KeyModifiers::empty()),
            search_prev: KeyBinding::new(KeyCode::Char('N'), KeyModifiers::empty()),
            help: KeyBinding::new(KeyCode::Char('?'), KeyModifiers::empty()),
            next_theme: KeyBinding::new(KeyCode::Char('t'), KeyModifiers::empty()),
        }
    }
}

/// The bindings the key descriptions of `keys` give.
pub open spec fn spec_resolve_keys(keys: KeybindingsConfig) -> ResolvedKeybindings {
    ResolvedKeybindings {
        quit: spec_parse_key(keys.quit@),
        up: spec_parse_key(keys.up@),
        down: spec_parse_key(keys.down@),
        page_up: spec_parse_key(keys.page_up@),
        page_down: spec_parse_key(keys.page_down@),
        top: spec_parse_key(keys.top@),
        bottom: spec_parse_key(keys.bottom@),
        toggle_toc: spec_parse_key(keys.toggle_toc@),
        focus_prev: spec_parse_key(keys.focus_prev@),
        focus_next: spec_parse_key(keys.focus_next@),
        search: spec_parse_key(keys.search@),
        search_next: spec_parse_key(keys.search_next@),
        search_prev: spec_parse_key(keys.search_prev@),
        help: spec_parse_key(keys.help@),
        next_theme: spec_parse_key(keys.next_theme@),
    }
}

impl ResolvedKeybindings {
    /// Parses the key descriptions of `config`.
    pub fn from_config(config: &Config) -> (k: ResolvedKeybindings)
        ensures
            k == spec_resolve_keys(config.keys),
    {
        let keys = &config.keys;
        ResolvedKeybindings {
            quit: parse_key(keys.quit.as_str()),
            up: parse_key(keys.up.as_str()),
            down: parse_key(keys.down.as_str()),
            page_up: parse_key(keys.page_up.as_str()),
            page_down: parse_key(keys.page_down.as_str()),
            top: parse_key(keys.top.as_str()),
            bottom: parse_key(keys.bottom.as_str()),
            toggle_toc: parse_key(keys.toggle_toc.as_str()),
            focus_prev: parse_key(keys.focus_prev.as_str()),
            focus_next: parse_key(keys.focus_next.as_str()),
            search: parse_key(keys.search.as_str()),
            search_next: parse_key(keys.search_next.as_str()),
            search_prev: parse_key(keys.search_prev.as_str()),
            help: parse_key(keys.help.as_str()),
            next_theme: parse_key(keys.next_theme.as_str()),
        }
    }
}

/// The colours in use.
#[derive(Clone, Copy, Debug, PartialEq, Eq, Structural)]
pub struct ThemeConfig {
    pub base: Rgb,
    pub surface0: Rgb,
    pub surface1: Rgb,
    pub overlay0: Rgb,
    pub text: Rgb,
    pub subtext: Rgb,
    pub lavender: Rgb,
    pub blue: Rgb,
    pub sapphire: Rgb,
    pub teal: Rgb,
    pub green: Rgb,
    pub yellow: Rgb,
    pub peach: Rgb,
    pub mauve: Rgb,
    pub crust: Rgb,
    pub red: Rgb,
    pub pink: Rgb,
    pub flamingo: Rgb,
    pub maroon: Rgb,
    pub sky: Rgb,
}

/// The colours of a palette.
pub open spec fn spec_config_of(c: ThemeColors) -> ThemeConfig {
    ThemeConfig {
        base: c.base,
        surface0: c.surface0,
        surface1: c.surface1,
        overlay0: c.overlay0,
        text: c.text,
        subtext: c.subtext,
        lavender: c.lavender,
        blue: c.blue,
        sapphire: c.sapphire,
        teal: c.teal,
        green: c.green,
        yellow: c.yellow,
        peach: c.peach,
        mauve: c.mauve,
        crust: c.crust,
        red: c.red,
        pink: c.pink,
        flamingo: c.flamingo,
        maroon: c.maroon,
        sky: c.sky,
    }
}

impl ThemeConfig {
    /// The colours of a palette.
    pub fn from_colors(c: ThemeColors) -> (t: ThemeConfig)
        ensures
            t == spec_config_of(c),
    {
        ThemeConfig {
            base: c.base,
            surface0: c.surface0,
            surface1: c.surface1,
            overlay0: c.overlay0,
            text: c.text,
            subtext: c.subtext,
            lavender: c.lavender,
            blue: c.blue,
            sapphire: c.sapphire,
            teal: c.teal,
            green: c.green,
            yellow: c.yellow,
            peach: c.peach,
            mauve: c.mauve,
            crust: c.crust,
            red: c.red,
            pink: c.pink,
            flamingo: c.flamingo,
            maroon: c.maroon,
            sky: c.sky,
        }
    }
}

impl Default for ThemeConfig {
    /// The Catppuccin Mocha colours.
    fn default() -> (t: ThemeConfig)
        ensures
            t == spec_config_of(spec_theme_colors(ThemeName::CatppuccinMocha)),
    {
        ThemeConfig::from_colors(ThemeColors::catppuccin_mocha())
    }
}

impl From<ThemeColors> for ThemeConfig {
    fn from(c: ThemeColors) -> (t: ThemeConfig) {
        ThemeConfig::from_colors(c)
    }
}

impl vstd::std_specs::convert::FromSpecImpl<ThemeColors> for ThemeConfig {
    open spec fn obeys_from_spec() -> bool {
        true
    }

    open spec fn from_spec(c: ThemeColors) -> ThemeConfig {
        spec_config_of(c)
    }
}

/// The whole configuration.
#[derive(Clone, Debug)]
pub struct Config {
    pub theme: ThemeConfig,
    pub keys: KeybindingsConfig,
    pub theme_name: String,
}

impl Default for Config {
    fn default() -> (c: Config)
        ensures
            c.theme == spec_config_of(spec_theme_colors(ThemeName::CatppuccinMocha)),
            is_default_keys(c.keys),
            c.theme_name@ == Seq::<char>::empty(),
    {
        Config { theme: ThemeConfig::default(), keys: KeybindingsConfig::default(), theme_name: String::new() }
    }
}

// ---------------------------------------------------------------------------
// The themes on offer
// ---------------------------------------------------------------------------

/// How many themes there are to choose from.
pub const AVAILABLE_THEME_COUNT: usize = 5;

/// The themes in the order they are offered.
pub open spec fn spec_available_theme(i: int) -> ThemeName {
    if i == 0 {
        ThemeName::CatppuccinMocha
    } else if i == 1 {
        ThemeName::Nord
    } else if i == 2 {
        ThemeName::GruvboxDark
    } else if i == 3 {
        ThemeName::TokyoNight
    } else {
        ThemeName::OneDark
    }
}

/// Theme `index` of those on offer.
pub fn available_theme(index: usize) -> (t: ThemeName)
    requires
        index < AVAILABLE_THEME_COUNT,
    ensures
        t == spec_available_theme(index as int),
{
    if index == 0 {
        ThemeName::CatppuccinMocha
    } else if index == 1 {
        ThemeName::Nord
    } else if index == 2 {
        ThemeName::GruvboxDark
    } else if index == 3 {
        ThemeName::TokyoNight
    } else {
        ThemeName::OneDark
    }
}

/// The place of a theme among those on offer.
pub open spec fn spec_theme_position(t: ThemeName) -> int {
    match t {
        ThemeName::CatppuccinMocha => 0,
        ThemeName::Nord => 1,
        ThemeName::GruvboxDark => 2,
        ThemeName::TokyoNight => 3,
        ThemeName::OneDark => 4,
    }
}

/// The place of a theme among those on offer.
pub fn theme_position(t: ThemeName) -> (i: usize)
    ensures
        i == spec_theme_position(t),
        i < AVAILABLE_THEME_COUNT,
        spec_available_theme(i as int) == t,
{
    match t {
        ThemeName::CatppuccinMocha => 0,
        ThemeName::Nord => 1,
        ThemeName::GruvboxDark => 2,
        ThemeName::TokyoNight => 3,
        ThemeName::OneDark => 4,
    }
}

/// Each theme on offer has a place, and the theme at that place is the theme itself.
pub proof fn law_theme_positions(t: ThemeName, i: int)
    requires
        0 <= i < AVAILABLE_THEME_COUNT,
    ensures
        spec_available_theme(spec_theme_position(t)) == t,
        0 <= spec_theme_position(t) < AVAILABLE_THEME_COUNT,
        spec_theme_position(spec_available_theme(i)) == i,
{
}

/// The theme in use: its place among those on offer and its colours.
#[derive(Clone, Copy, Debug)]
pub struct ThemeState {
    pub index: usize,
    pub theme: ThemeConfig,
}

impl ThemeState {
    /// The default theme, first of those on offer.
    pub fn new() -> (s: ThemeState)
        ensures
            s.index == 0,
            s.theme == spec_config_of(spec_theme_colors(ThemeName::CatppuccinMocha)),
    {
        ThemeState { index: 0, theme: ThemeConfig::default() }
    }

    /// Switches to theme `index` (counted round the themes on offer).
    pub fn apply_theme_by_index(&mut self, index: usize)
        ensures
            final(self).index == index % AVAILABLE_THEME_COUNT,
            final(self).theme == spec_config_of(spec_theme_colors(spec_available_theme((index % AVAILABLE_THEME_COUNT) as int))),
    {
        let normalized = index % AVAILABLE_THEME_COUNT;
        let name = available_theme(normalized);
        self.theme = ThemeConfig::from_colors(ThemeColors::from_theme(name));
        self.index = normalized;
    }

    /// The place of the theme in use among those on offer.
    pub fn current_theme_index(&self) -> (i: usize)
        ensures
            i == self.index % AVAILABLE_THEME_COUNT,
    {
        self.index % AVAILABLE_THEME_COUNT
    }

    /// The name of the theme in use.
    pub fn current_theme_name(&self) -> (s: &'static str)
        ensures
            s@ == spec_display_name(spec_available_theme((self.index % AVAILABLE_THEME_COUNT) as int)),
    {
        available_theme(self.current_theme_index()).display_name()
    }
}

/// A configuration as read: a named theme, where the name is known, replaces the colours
/// and is the theme in use; the key bindings are parsed.
pub open spec fn spec_settle_config(c: Config) -> (ThemeConfig, ResolvedKeybindings, Option<int>) {
    match spec_theme_for_word(str_lowercase(c.theme_name@)) {
        Some(t) => (spec_config_of(spec_theme_colors(t)), spec_resolve_keys(c.keys), Some(spec_theme_position(t))),
        None => (c.theme, spec_resolve_keys(c.keys), None),
    }
}

/// Settles a configuration as read: its key bindings, its colours, and the theme in use
/// when it names one.
pub fn settle_config(config: Config) -> (r: (Config, ResolvedKeybindings, Option<usize>))
    ensures
        r.0.theme == spec_settle_config(config).0,
        r.0.keys == config.keys,
        r.0.theme_name@ == config.theme_name@,
        r.1 == spec_settle_config(config).1,
        match r.2 {
            Some(i) => spec_settle_config(config).2 == Some(i as int),
            None => spec_settle_config(config).2 == None::<int>,
        },
{
    let keymap = ResolvedKeybindings::from_config(&config);
    let mut config = config;
    let mut index: Option<usize> = None;
    match ThemeName::from_str(config.theme_name.as_str()) {
        Some(name) => {
            config.theme = ThemeConfig::from_colors(ThemeColors::from_theme(name));
            index = Some(theme_position(name));
        },
        None => {},
    }
    (config, keymap, index)
}


// ---------------------------------------------------------------------------
// Colours written in hex
// ---------------------------------------------------------------------------

/// `s` without its leading `#` characters.
pub open spec fn trim_hashes(s: Seq<char>) -> Seq<char>
    decreases s.len(),
{
    if s.len() > 0 && s[0] == '#' {
        trim_hashes(s.drop_first())
    } else {
        s
    }
}

/// The value of a hexadecimal digit.
pub open spec fn hex_digit(c: char) -> Option<u8> {
    if '0' <= c && c <= '9' {
        Some((c as int - '0' as int) as u8)
    } else if 'a' <= c && c <= 'f' {
        Some((c as int - 'a' as int + 10) as u8)
    } else if 'A' <= c && c <= 'F' {
        Some((c as int - 'A' as int + 10) as u8)
    } else {
        None
    }
}

/// The byte that two characters write in hex, as `u8::from_str_radix` reads them: two
/// digits, or a `+` sign and one digit.
pub open spec fn hex_pair(a: char, b: char) -> Option<u8> {
    if a == '+' {
        hex_digit(b)
    } else {
        match (hex_digit(a), hex_digit(b)) {
            (Some(x), Some(y)) => Some((16 * x + y) as u8),
            _ => None,
        }
    }
}

/// Why a colour could not be read.
#[derive(Clone, Copy, Debug, PartialEq, Eq, Structural)]
pub enum ColorError {
    /// Not six characters after the `#`.
    WrongLength,
    /// A pair of characters that is not a hex byte.
    NotHex,
}

/// A colour written `#rrggbb` (any number of leading `#`, or none).
pub open spec fn spec_parse_hex_color(s: Seq<char>) -> Result<Rgb, ColorError> {
    let t = trim_hashes(s);
    if spec_utf8_bytes(t) != 6 {
        Err(ColorError::WrongLength)
    } else if t.len() != 6 {
        Err(ColorError::NotHex)
    } else {
        match (hex_pair(t[0], t[1]), hex_pair(t[2], t[3]), hex_pair(t[4], t[5])) {
            (Some(r), Some(g), Some(b)) => Ok(Rgb { r, g, b }),
            _ => Err(ColorError::NotHex),
        }
    }
}

/// Byte `b` of `t` falls between two characters.
pub open spec fn cuts_at(t: Seq<char>, b: nat) -> bool {
    exists|k: int| 0 <= k <= t.len() && #[trigger] spec_utf8_bytes(t.take(k)) == b
}

proof fn lemma_utf8_prefix(t: Seq<char>, k: int)
    requires
        0 <= k <= t.len(),
    ensures
        spec_utf8_bytes(t.take(k)) <= spec_utf8_bytes(t),
    decreases t.len() - k,
{
    if k < t.len() {
        lemma_utf8_prefix(t, k + 1);
        assert(t.take(k + 1).drop_last() =~= t.take(k));
    } else {
        assert(t.take(k) =~= t);
    }
}

fn hex_digit_exec(c: char) -> (d: Option<u8>)
    ensures
        d == hex_digit(c),
{
    if '0' <= c && c <= '9' {
        Some((c as u32 - '0' as u32) as u8)
    } else if 'a' <= c && c <= 'f' {
        Some((c as u32 - 'a' as u32 + 10) as u8)
    } else if 'A' <= c && c <= 'F' {
        Some((c as u32 - 'A' as u32 + 10) as u8)
    } else {
        None
    }
}

fn hex_pair_exec(a: char, b: char) -> (r: Option<u8>)
    ensures
        r == hex_pair(a, b),
{
    if a == '+' {
        return hex_digit_exec(b);
    }
    match (hex_digit_exec(a), hex_digit_exec(b)) {
        (Some(x), Some(y)) => Some(16 * x + y),
        _ => None,
    }
}

/// Reads a colour written `#rrggbb`. Where six bytes follow the `#` but a character
/// straddles the second or fourth, the reading is not defined.
pub fn parse_hex_color(s: &str) -> (r: Result<Rgb, ColorError>)
    requires
        spec_utf8_bytes(trim_hashes(s@)) == 6 ==> cuts_at(trim_hashes(s@), 2) && cuts_at(trim_hashes(s@), 4),
    ensures
        r == spec_parse_hex_color(s@),
{
    let v = chars_of(s);
    let mut i: usize = 0;
    assert(v@.skip(0) =~= v@);
    while i < v.len() && v[i] == '#'
        invariant
            i <= v@.len(),
            v@ == s@,
            trim_hashes(v@.skip(i as int)) == trim_hashes(v@),
        decreases v@.len() - i,
    {
        assert(v@.skip(i as int).drop_first() =~= v@.skip(i + 1));
        i = i + 1;
    }
    let ghost t = v@.skip(i as int);
    assert(trim_hashes(t) == t);
    let mut bytes: usize = 0;
    let mut k: usize = i;
    while k < v.len() && bytes <= 6
        invariant
            i <= k <= v@.len(),
            t == v@.skip(i as int),
            bytes <= 10,
            bytes == spec_utf8_bytes(t.take(k - i)),
        decreases v@.len() - k,
    {
        assert(t.take(k - i + 1).drop_last() =~= t.take(k - i));
        bytes = bytes + crate::renderer::inline::utf8_len(v[k]);
        k = k + 1;
    }
    if bytes > 6 {
        proof {
            lemma_utf8_prefix(t, k - i);
        }
        return Err(ColorError::WrongLength);
    }
    assert(t.take(v@.len() - i) =~= t);
    if bytes != 6 {
        return Err(ColorError::WrongLength);
    }
    if v.len() - i != 6 {
        return Err(ColorError::NotHex);
    }
    let r = hex_pair_exec(v[i], v[i + 1]);
    let g = hex_pair_exec(v[i + 2], v[i + 3]);
    let b = hex_pair_exec(v[i + 4], v[i + 5]);
    match (r, g, b) {
        (Some(r), Some(g), Some(b)) => Ok(Rgb { r, g, b }),
        _ => Err(ColorError::NotHex),
    }
}

} // verus!
