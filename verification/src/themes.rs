//! The built-in colour themes.
use crate::text::{str_lowercase, to_lowercase};
use vstd::prelude::*;

verus! {

/// A colour given by its red, green and blue components.
#[derive(Clone, Copy, Debug, PartialEq, Eq, Structural)]
pub struct Rgb {
    pub r: u8,
    pub g: u8,
    pub b: u8,
}

/// The built-in themes.
#[derive(Clone, Copy, Debug, PartialEq, Eq, Structural)]
pub enum ThemeName {
    CatppuccinMocha,
    Nord,
    GruvboxDark,
    TokyoNight,
    OneDark,
}

/// The palette of a theme.
#[derive(Clone, Copy, Debug, PartialEq, Eq, Structural)]
pub struct ThemeColors {
    pub base: Rgb,
    pub surface0: Rgb,
    pub surface1: Rgb,
    pub overlay0: Rgb,
    pub text: Rgb,
    pub subtext: Rgb,
    pub lavender: Rgb,
    pub blue: Rgb,
    pub sapphire: Rgb,
    pub teal: Rgb,
    pub green: Rgb,
    pub yellow: Rgb,
    pub peach: Rgb,
    pub mauve: Rgb,
    pub crust: Rgb,
    pub red: Rgb,
    pub pink: Rgb,
    pub flamingo: Rgb,
    pub maroon: Rgb,
    pub sky: Rgb,
}

/// The CatppuccinMocha palette.
pub open spec fn spec_catppuccin_mocha() -> ThemeColors {
    ThemeColors {
        base: Rgb { r: 30, g: 30, b: 46 },
        surface0: Rgb { r: 49, g: 50, b: 68 },
        surface1: Rgb { r: 69, g: 71, b: 90 },
        overlay0: Rgb { r: 108, g: 112, b: 134 },
        text: Rgb { r: 205, g: 214, b: 244 },
        subtext: Rgb { r: 166, g: 173, b: 200 },
        lavender: Rgb { r: 180, g: 190, b: 254 },
        blue: Rgb { r: 137, g: 180, b: 250 },
        sapphire: Rgb { r: 116, g: 199, b: 236 },
        teal: Rgb { r: 148, g: 226, b: 213 },
        green: Rgb { r: 166, g: 227, b: 161 },
        yellow: Rgb { r: 249, g: 226, b: 175 },
        peach: Rgb { r: 250, g: 179, b: 135 },
        mauve: Rgb { r: 203, g: 166, b: 247 },
        crust: Rgb { r: 17, g: 17, b: 27 },
        red: Rgb { r: 243, g: 139, b: 168 },
        pink: Rgb { r: 245, g: 194, b: 231 },
        flamingo: Rgb { r: 242, g: 205, b: 205 },
        maroon: Rgb { r: 235, g: 160, b: 172 },
        sky: Rgb { r: 137, g: 220, b: 235 },
    }
}

/// The Nord palette.
pub open spec fn spec_nord() -> ThemeColors {
    ThemeColors {
        base: Rgb { r: 46, g: 52, b: 64 },
        surface0: Rgb { r: 59, g: 66, b: 82 },
        surface1: Rgb { r: 67, g: 76, b: 94 },
        overlay0: Rgb { r: 76, g: 86, b: 106 },
        text: Rgb { r: 216, g: 222, b: 233 },
        subtext: Rgb { r: 189, g: 193, b: 202 },
        lavender: Rgb { r: 136, g: 192, b: 208 },
        blue: Rgb { r: 136, g: 192, b: 208 },
        sapphire: Rgb { r: 129, g: 161, b: 193 },
        teal: Rgb { r: 163, g: 190, b: 140 },
        green: Rgb { r: 163, g: 190, b: 140 },
        yellow: Rgb { r: 235, g: 203, b: 139 },
        peach: Rgb { r: 229, g: 192, b: 112 },
        mauve: Rgb { r: 180, g: 142, b: 173 },
        crust: Rgb { r: 35, g: 39, b: 50 },
        red: Rgb { r: 191, g: 97, b: 106 },
        pink: Rgb { r: 180, g: 142, b: 173 },
        flamingo: Rgb { r: 235, g: 203, b: 139 },
        maroon: Rgb { r: 191, g: 97, b: 106 },
        sky: Rgb { r: 136, g: 192, b: 208 },
    }
}

/// The GruvboxDark palette.
pub open spec fn spec_gruvbox_dark() -> ThemeColors {
    ThemeColors {
        base: Rgb { r: 40, g: 40, b: 40 },
        surface0: Rgb { r: 60, g: 56, b: 54 },
        surface1: Rgb { r: 80, g: 73, b: 69 },
        overlay0: Rgb { r: 102, g: 92, b: 86 },
        text: Rgb { r: 235, g: 219, b: 178 },
        subtext: Rgb { r: 189, g: 174, b: 147 },
        lavender: Rgb { r: 219, g: 192, b: 131 },
        blue: Rgb { r: 184, g: 187, b: 38 },
        sapphire: Rgb { r: 251, g: 73, b: 52 },
        teal: Rgb { r: 184, g: 187, b: 38 },
        green: Rgb { r: 184, g: 187, b: 38 },
        yellow: Rgb { r: 250, g: 189, b: 47 },
        peach: Rgb { r: 254, g: 151, b: 32 },
        mauve: Rgb { r: 211, g: 134, b: 155 },
        crust: Rgb { r: 29, g: 32, b: 35 },
        red: Rgb { r: 251, g: 73, b: 52 },
        pink: Rgb { r: 249, g: 120, b: 133 },
        flamingo: Rgb { r: 211, g: 134, b: 155 },
        maroon: Rgb { r: 204, g: 105, b: 98 },
        sky: Rgb { r: 143, g: 151, b: 74 },
    }
}

/// The TokyoNight palette.
pub open spec fn spec_tokyo_night() -> ThemeColors {
    ThemeColors {
        base: Rgb { r: 20, g: 21, b: 34 },
        surface0: Rgb { r: 32, g: 33, b: 50 },
        surface1: Rgb { r: 43, g: 44, b: 66 },
        overlay0: Rgb { r: 100, g: 102, b: 126 },
        text: Rgb { r: 192, g: 202, b: 245 },
        subtext: Rgb { r: 152, g: 159, b: 192 },
        lavender: Rgb { r: 173, g: 186, b: 249 },
        blue: Rgb { r: 122, g: 162, b: 247 },
        sapphire: Rgb { r: 136, g: 189, b: 244 },
        teal: Rgb { r: 38, g: 203, b: 180 },
        green: Rgb { r: 158, g: 206, b: 106 },
        yellow: Rgb { r: 227, g: 206, b: 130 },
        peach: Rgb { r: 255, g: 180, b: 132 },
        mauve: Rgb { r: 197, g: 156, b: 220 },
        crust: Rgb { r: 14, g: 15, b: 26 },
        red: Rgb { r: 248, g: 113, b: 113 },
        pink: Rgb { r: 243, g: 169, b: 177 },
        flamingo: Rgb { r: 249, g: 180, b: 204 },
        maroon: Rgb { r: 238, g: 137, b: 152 },
        sky: Rgb { r: 125, g: 207, b: 240 },
    }
}

/// The OneDark palette.
pub open spec fn spec_one_dark() -> ThemeColors {
    ThemeColors {
        base: Rgb { r: 40, g: 44, b: 52 },
        surface0: Rgb { r: 52, g: 56, b: 65 },
        surface1: Rgb { r: 60, g: 66, b: 76 },
        overlay0: Rgb { r: 97, g: 103, b: 115 },
        text: Rgb { r: 220, g: 223, b: 228 },
        subtext: Rgb { r: 185, g: 190, b: 200 },
        lavender: Rgb { r: 197, g: 177, b: 243 },
        blue: Rgb { r: 97, g: 175, b: 239 },
        sapphire: Rgb { r: 86, g: 182, b: 194 },
        teal: Rgb { r: 86, g: 182, b: 194 },
        green: Rgb { r: 152, g: 212, b: 106 },
        yellow: Rgb { r: 229, g: 205, b: 124 },
        peach: Rgb { r: 237, g: 169, b: 116 },
        mauve: Rgb { r: 198, g: 120, b: 221 },
        crust: Rgb { r: 28, g: 31, b: 38 },
        red: Rgb { r: 224, g: 108, b: 117 },
        pink: Rgb { r: 220, g: 135, b: 155 },
        flamingo: Rgb { r: 212, g: 162, b: 179 },
        maroon: Rgb { r: 190, g: 111, b: 126 },
        sky: Rgb { r: 97, g: 175, b: 239 },
    }
}

/// The palette of theme `name`.
pub open spec fn spec_theme_colors(name: ThemeName) -> ThemeColors {
    match name {
        ThemeName::CatppuccinMocha => spec_catppuccin_mocha(),
        ThemeName::Nord => spec_nord(),
        ThemeName::GruvboxDark => spec_gruvbox_dark(),
        ThemeName::TokyoNight => spec_tokyo_night(),
        ThemeName::OneDark => spec_one_dark(),
    }
}

impl ThemeColors {
    /// The palette of theme `name`.
    pub fn from_theme(name: ThemeName) -> (c: ThemeColors)
        ensures
            c == spec_theme_colors(name),
    {
        match name {
            ThemeName::CatppuccinMocha => Self::catppuccin_mocha(),
            ThemeName::Nord => Self::nord(),
            ThemeName::GruvboxDark => Self::gruvbox_dark(),
            ThemeName::TokyoNight => Self::tokyo_night(),
            ThemeName::OneDark => Self::one_dark(),
        }
    }

    /// The CatppuccinMocha palette.
    pub fn catppuccin_mocha() -> (c: ThemeColors)
        ensures
            c == spec_catppuccin_mocha(),
    {
        ThemeColors {
                base: Rgb { r: 30, g: 30, b: 46 },
                surface0: Rgb { r: 49, g: 50, b: 68 },
                surface1: Rgb { r: 69, g: 71, b: 90 },
                overlay0: Rgb { r: 108, g: 112, b: 134 },
                text: Rgb { r: 205, g: 214, b: 244 },
                subtext: Rgb { r: 166, g: 173, b: 200 },
                lavender: Rgb { r: 180, g: 190, b: 254 },
                blue: Rgb { r: 137, g: 180, b: 250 },
                sapphire: Rgb { r: 116, g: 199, b: 236 },
                teal: Rgb { r: 148, g: 226, b: 213 },
                green: Rgb { r: 166, g: 227, b: 161 },
                yellow: Rgb { r: 249, g: 226, b: 175 },
                peach: Rgb { r: 250, g: 179, b: 135 },
                mauve: Rgb { r: 203, g: 166, b: 247 },
                crust: Rgb { r: 17, g: 17, b: 27 },
                red: Rgb { r: 243, g: 139, b: 168 },
                pink: Rgb { r: 245, g: 194, b: 231 },
                flamingo: Rgb { r: 242, g: 205, b: 205 },
                maroon: Rgb { r: 235, g: 160, b: 172 },
                sky: Rgb { r: 137, g: 220, b: 235 },
            }
    }

    /// The Nord palette.
    pub fn nord() -> (c: ThemeColors)
        ensures
            c == spec_nord(),
    {
        ThemeColors {
                base: Rgb { r: 46, g: 52, b: 64 },
                surface0: Rgb { r: 59, g: 66, b: 82 },
                surface1: Rgb { r: 67, g: 76, b: 94 },
                overlay0: Rgb { r: 76, g: 86, b: 106 },
                text: Rgb { r: 216, g: 222, b: 233 },
                subtext: Rgb { r: 189, g: 193, b: 202 },
                lavender: Rgb { r: 136, g: 192, b: 208 },
                blue: Rgb { r: 136, g: 192, b: 208 },
                sapphire: Rgb { r: 129, g: 161, b: 193 },
                teal: Rgb { r: 163, g: 190, b: 140 },
                green: Rgb { r: 163, g: 190, b: 140 },
                yellow: Rgb { r: 235, g: 203, b: 139 },
                peach: Rgb { r: 229, g: 192, b: 112 },
                mauve: Rgb { r: 180, g: 142, b: 173 },
                crust: Rgb { r: 35, g: 39, b: 50 },
                red: Rgb { r: 191, g: 97, b: 106 },
                pink: Rgb { r: 180, g: 142, b: 173 },
                flamingo: Rgb { r: 235, g: 203, b: 139 },
                maroon: Rgb { r: 191, g: 97, b: 106 },
                sky: Rgb { r: 136, g: 192, b: 208 },
            }
    }

    /// The GruvboxDark palette.
    pub fn gruvbox_dark() -> (c: ThemeColors)
        ensures
            c == spec_gruvbox_dark(),
    {
        ThemeColors {
                base: Rgb { r: 40, g: 40, b: 40 },
                surface0: Rgb { r: 60, g: 56, b: 54 },
                surface1: Rgb { r: 80, g: 73, b: 69 },
                overlay0: Rgb { r: 102, g: 92, b: 86 },
                text: Rgb { r: 235, g: 219, b: 178 },
                subtext: Rgb { r: 189, g: 174, b: 147 },
                lavender: Rgb { r: 219, g: 192, b: 131 },
                blue: Rgb { r: 184, g: 187, b: 38 },
                sapphire: Rgb { r: 251, g: 73, b: 52 },
                teal: Rgb { r: 184, g: 187, b: 38 },
                green: Rgb { r: 184, g: 187, b: 38 },
                yellow: Rgb { r: 250, g: 189, b: 47 },
                peach: Rgb { r: 254, g: 151, b: 32 },
                mauve: Rgb { r: 211, g: 134, b: 155 },
                crust: Rgb { r: 29, g: 32, b: 35 },
                red: Rgb { r: 251, g: 73, b: 52 },
                pink: Rgb { r: 249, g: 120, b: 133 },
                flamingo: Rgb { r: 211, g: 134, b: 155 },
                maroon: Rgb { r: 204, g: 105, b: 98 },
                sky: Rgb { r: 143, g: 151, b: 74 },
            }
    }

    /// The TokyoNight palette.
    pub fn tokyo_night() -> (c: ThemeColors)
        ensures
            c == spec_tokyo_night(),
    {
        ThemeColors {
                base: Rgb { r: 20, g: 21, b: 34 },
                surface0: Rgb { r: 32, g: 33, b: 50 },
                surface1: Rgb { r: 43, g: 44, b: 66 },
                overlay0: Rgb { r: 100, g: 102, b: 126 },
                text: Rgb { r: 192, g: 202, b: 245 },
                subtext: Rgb { r: 152, g: 159, b: 192 },
                lavender: Rgb { r: 173, g: 186, b: 249 },
                blue: Rgb { r: 122, g: 162, b: 247 },
                sapphire: Rgb { r: 136, g: 189, b: 244 },
                teal: Rgb { r: 38, g: 203, b: 180 },
                green: Rgb { r: 158, g: 206, b: 106 },
                yellow: Rgb { r: 227, g: 206, b: 130 },
                peach: Rgb { r: 255, g: 180, b: 132 },
                mauve: Rgb { r: 197, g: 156, b: 220 },
                crust: Rgb { r: 14, g: 15, b: 26 },
                red: Rgb { r: 248, g: 113, b: 113 },
                pink: Rgb { r: 243, g: 169, b: 177 },
                flamingo: Rgb { r: 249, g: 180, b: 204 },
                maroon: Rgb { r: 238, g: 137, b: 152 },
                sky: Rgb { r: 125, g: 207, b: 240 },
            }
    }

    /// The OneDark palette.
    pub fn one_dark() -> (c: ThemeColors)
        ensures
            c == spec_one_dark(),
    {
        ThemeColors {
                base: Rgb { r: 40, g: 44, b: 52 },
                surface0: Rgb { r: 52, g: 56, b: 65 },
                surface1: Rgb { r: 60, g: 66, b: 76 },
                overlay0: Rgb { r: 97, g: 103, b: 115 },
                text: Rgb { r: 220, g: 223, b: 228 },
                subtext: Rgb { r: 185, g: 190, b: 200 },
                lavender: Rgb { r: 197, g: 177, b: 243 },
                blue: Rgb { r: 97, g: 175, b: 239 },
                sapphire: Rgb { r: 86, g: 182, b: 194 },
                teal: Rgb { r: 86, g: 182, b: 194 },
                green: Rgb { r: 152, g: 212, b: 106 },
                yellow: Rgb { r: 229, g: 205, b: 124 },
                peach: Rgb { r: 237, g: 169, b: 116 },
                mauve: Rgb { r: 198, g: 120, b: 221 },
                crust: Rgb { r: 28, g: 31, b: 38 },
                red: Rgb { r: 224, g: 108, b: 117 },
                pink: Rgb { r: 220, g: 135, b: 155 },
                flamingo: Rgb { r: 212, g: 162, b: 179 },
                maroon: Rgb { r: 190, g: 111, b: 126 },
                sky: Rgb { r: 97, g: 175, b: 239 },
            }
    }

}

/// The name a theme is shown by.
pub open spec fn spec_display_name(name: ThemeName) -> Seq<char> {
    match name {
        ThemeName::CatppuccinMocha => seq!['C', 'a', 't', 'p', 'p', 'u', 'c', 'c', 'i', 'n', ' ', 'M', 'o', 'c', 'h', 'a'],
        ThemeName::Nord => seq!['N', 'o', 'r', 'd'],
        ThemeName::GruvboxDark => seq!['G', 'r', 'u', 'v', 'b', 'o', 'x', ' ', 'D', 'a', 'r', 'k'],
        ThemeName::TokyoNight => seq!['T', 'o', 'k', 'y', 'o', ' ', 'N', 'i', 'g', 'h', 't'],
        ThemeName::OneDark => seq!['O', 'n', 'e', ' ', 'D', 'a', 'r', 'k'],
    }
}

/// The theme a lowercase word names: each theme goes by its name written together, with
/// a hyphen, or with an underscore (gruvbox also by `gruvbox` alone).
pub open spec fn spec_theme_for_word(w: Seq<char>) -> Option<ThemeName> {
    if w == "catppuccin-mocha"@ || w == "catppuccin_mocha"@ || w == "catppuccinmocha"@ {
        Some(ThemeName::CatppuccinMocha)
    } else if w == "nord"@ {
        Some(ThemeName::Nord)
    } else if w == "gruvbox"@ || w == "gruvbox-dark"@ || w == "gruvbox_dark"@ || w == "gruvboxdark"@ {
        Some(ThemeName::GruvboxDark)
    } else if w == "tokyonight"@ || w == "tokyo-night"@ || w == "tokyo_night"@ {
        Some(ThemeName::TokyoNight)
    } else if w == "one-dark"@ || w == "one_dark"@ || w == "onedark"@ {
        Some(ThemeName::OneDark)
    } else {
        None
    }
}

/// Whether `a` and `b` hold the same characters.
pub fn str_eq(a: &str, b: &str) -> (r: bool)
    ensures
        r == (a@ == b@),
{
    let va = crate::text::chars_of(a);
    let vb = crate::text::chars_of(b);
    if va.len() != vb.len() {
        assert(va@.len() != vb@.len());
        return false;
    }
    let mut k: usize = 0;
    while k < va.len()
        invariant
            k <= va@.len() == vb@.len(),
            va@ == a@,
            vb@ == b@,
            va@.take(k as int) == vb@.take(k as int),
        decreases va@.len() - k,
    {
        if va[k] != vb[k] {
            assert(va@[k as int] != vb@[k as int]);
            assert(a@ != b@);
            return false;
        }
        assert(va@.take(k + 1) =~= va@.take(k as int).push(va@[k as int]));
        assert(vb@.take(k + 1) =~= vb@.take(k as int).push(vb@[k as int]));
        k = k + 1;
    }
    assert(va@.take(va@.len() as int) =~= va@);
    assert(vb@.take(vb@.len() as int) =~= vb@);
    true
}

/// The theme a lowercase word names, if any.
pub fn theme_for_word(w: &str) -> (t: Option<ThemeName>)
    ensures
        t == spec_theme_for_word(w@),
{
    if str_eq(w, "catppuccin-mocha") || str_eq(w, "catppuccin_mocha") || str_eq(w, "catppuccinmocha") {
        Some(ThemeName::CatppuccinMocha)
    } else if str_eq(w, "nord") {
        Some(ThemeName::Nord)
    } else if str_eq(w, "gruvbox") || str_eq(w, "gruvbox-dark") || str_eq(w, "gruvbox_dark") || str_eq(w, "gruvboxdark") {
        Some(ThemeName::GruvboxDark)
    } else if str_eq(w, "tokyonight") || str_eq(w, "tokyo-night") || str_eq(w, "tokyo_night") {
        Some(ThemeName::TokyoNight)
    } else if str_eq(w, "one-dark") || str_eq(w, "one_dark") || str_eq(w, "onedark") {
        Some(ThemeName::OneDark)
    } else {
        None
    }
}

impl ThemeName {
    /// The name the theme is shown by.
    pub fn display_name(self) -> (s: &'static str)
        ensures
            s@ == spec_display_name(self),
    {
        let s = match self {
            ThemeName::CatppuccinMocha => "Catppuccin Mocha",
            ThemeName::Nord => "Nord",
            ThemeName::GruvboxDark => "Gruvbox Dark",
            ThemeName::TokyoNight => "Tokyo Night",
            ThemeName::OneDark => "One Dark",
        };
        proof {
            reveal_strlit("Catppuccin Mocha");
            reveal_strlit("Nord");
            reveal_strlit("Gruvbox Dark");
            reveal_strlit("Tokyo Night");
            reveal_strlit("One Dark");
        }
        assert(s@ =~= spec_display_name(self));
        s
    }

    /// The theme `s` names, in any letter case.
    pub fn from_str(s: &str) -> (t: Option<ThemeName>)
        ensures
            t == spec_theme_for_word(str_lowercase(s@)),
    {
        let lower = to_lowercase(s);
        theme_for_word(lower.as_str())
    }
}

impl Default for ThemeName {
    fn default() -> (t: ThemeName)
        ensures
            t == ThemeName::CatppuccinMocha,
    {
        ThemeName::CatppuccinMocha
    }
}


/// Each theme gets the palette made for it, and no two themes share a palette: the
/// colours of `a` are those of `b` only where `a` and `b` are the same theme.
pub proof fn law_each_theme_has_its_own_palette(a: ThemeName, b: ThemeName)
    ensures
        spec_theme_colors(ThemeName::CatppuccinMocha) == spec_catppuccin_mocha(),
        spec_theme_colors(ThemeName::Nord) == spec_nord(),
        spec_theme_colors(ThemeName::GruvboxDark) == spec_gruvbox_dark(),
        spec_theme_colors(ThemeName::TokyoNight) == spec_tokyo_night(),
        spec_theme_colors(ThemeName::OneDark) == spec_one_dark(),
        (spec_theme_colors(a) == spec_theme_colors(b)) == (a == b),
{
}

} // verus!
