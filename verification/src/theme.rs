//! Color themes: each theme's palette of interface colors.
use vstd::prelude::*;

verus! {

/// A color as the terminal takes it: one of the sixteen named colors, an
/// index into the 256-color table, or an RGB triple.
#[derive(Clone, Copy, Debug, PartialEq, Eq, Structural)]
pub enum Color {
    Black,
    Red,
    Green,
    Yellow,
    Blue,
    Magenta,
    Cyan,
    White,
    DarkGray,
    LightRed,
    LightGreen,
    LightYellow,
    LightBlue,
    LightMagenta,
    LightCyan,
    Gray,
    Indexed(u8),
    Rgb(u8, u8, u8),
}

#[derive(Clone, Copy, Debug, PartialEq, Eq, Structural)]
pub enum Theme {
    Mocha,
    TokyoNightStorm,
    GruvboxDarkHard,
    Nord,
    Dracula,
    Terminal,
}

impl Theme {
    /// The theme's name as the theme picker shows it.
    pub open spec fn label_spec(self) -> Seq<char> {
        match self {
            Theme::Mocha => "Mocha"@,
            Theme::TokyoNightStorm => "Tokyo Night"@,
            Theme::GruvboxDarkHard => "Gruvbox"@,
            Theme::Nord => "Nord"@,
            Theme::Dracula => "Dracula"@,
            Theme::Terminal => "Terminal"@,
        }
    }

    /// The theme's name as the theme picker shows it.
    pub fn label(self) -> (r: &'static str)
        ensures
            r@ == match self {
                Theme::Mocha => "Mocha"@,
                Theme::TokyoNightStorm => "Tokyo Night"@,
                Theme::GruvboxDarkHard => "Gruvbox"@,
                Theme::Nord => "Nord"@,
                Theme::Dracula => "Dracula"@,
                Theme::Terminal => "Terminal"@,
            },
    {
        match self {
            Theme::Mocha => "Mocha",
            Theme::TokyoNightStorm => "Tokyo Night",
            Theme::GruvboxDarkHard => "Gruvbox",
            Theme::Nord => "Nord",
            Theme::Dracula => "Dracula",
            Theme::Terminal => "Terminal",
        }
    }
}

/// The interface colors of a theme.
#[derive(Clone, Copy, Debug, PartialEq, Eq, Structural)]
pub struct Palette {
    pub bg: Color,
    pub fg: Color,
    pub accent_primary: Color,
    pub accent_secondary: Color,
    pub accent_tertiary: Color,
    pub border_inactive: Color,
    pub selection_bg: Color,
    pub dir_color: Color,
    pub exe_color: Color,
    pub size_color: Color,
    pub line_num_color: Color,
    pub btn_bg: Color,
    pub btn_fg: Color,
    pub menu_bg: Color,
    pub diff_add_bg: Color,
    pub diff_del_bg: Color,
    pub diff_hunk_bg: Color,
    pub diff_add_fg: Color,
    pub diff_del_fg: Color,
    pub diff_gutter_fg: Color,
}

/// One channel of `base` moved toward `overlay` by `num / den`, rounded to
/// the nearest integer (halves up).
pub open spec fn mix_spec(base: u8, overlay: u8, num: nat, den: nat) -> u8 {
    ((2 * (base * den + (overlay - base) * num) + den) / ((2 * den) as int)) as u8
}

/// `base` tinted toward `overlay` by `num / den`, channel by channel; a
/// color that is not RGB is left as it is.
pub open spec fn tint_spec(base: Color, overlay: Color, num: nat, den: nat) -> Color {
    match (base, overlay) {
        (Color::Rgb(br, bg, bb), Color::Rgb(or, og, ob)) => Color::Rgb(
            mix_spec(br, or, num, den),
            mix_spec(bg, og, num, den),
            mix_spec(bb, ob, num, den),
        ),
        _ => base,
    }
}

fn mix(base: u8, overlay: u8, num: u32, den: u32) -> (r: u8)
    requires
        0 < den <= 100,
        num <= den,
    ensures
        r == mix_spec(base, overlay, num as nat, den as nat),
{
    let b = base as i64;
    let o = overlay as i64;
    let n = num as i64;
    let d = den as i64;
    assert(0 <= b * d <= 25500 && -25500 <= (o - b) * n <= 25500) by (nonlinear_arith)
        requires
            0 <= b <= 255,
            0 <= o <= 255,
            0 <= n <= d,
            0 < d <= 100,
    ;
    assert(0 <= b * d + (o - b) * n <= 255 * d) by (nonlinear_arith)
        requires
            0 <= b <= 255,
            0 <= o <= 255,
            0 <= n <= d,
            0 < d <= 100,
    ;
    let v = (2 * (b * d + (o - b) * n) + d) / (2 * d);
    assert(0 <= v <= 255) by (nonlinear_arith)
        requires
            0 <= b * d + (o - b) * n <= 255 * d,
            0 < d <= 100,
            v == (2 * (b * d + (o - b) * n) + d) / (2 * d),
    ;
    v as u8
}

/// `base` tinted toward `overlay` by `num / den` (see `tint_spec`).
fn tint(base: Color, overlay: Color, num: u32, den: u32) -> (r: Color)
    requires
        0 < den <= 100,
        num <= den,
    ensures
        r == tint_spec(base, overlay, num as nat, den as nat),
{
    match (base, overlay) {
        (Color::Rgb(br, bg, bb), Color::Rgb(or, og, ob)) => Color::Rgb(
            mix(br, or, num, den),
            mix(bg, og, num, den),
            mix(bb, ob, num, den),
        ),
        _ => base,
    }
}

/// Each theme's palette. The diff backgrounds are the background tinted a
/// fifth of the way toward the theme's addition and deletion colors; the
/// hunk background is tinted 3/25 of the way toward the primary accent.
pub open spec fn palette_spec(theme: Theme) -> Palette {
    match theme {
        Theme::Mocha => Palette {
            bg: Color::Rgb(30, 30, 46),
            fg: Color::Rgb(248, 248, 255),
            accent_primary: Color::Rgb(203, 166, 247),
            accent_secondary: Color::Rgb(250, 179, 135),
            accent_tertiary: Color::Rgb(137, 180, 250),
            border_inactive: Color::Rgb(120, 124, 150),
            selection_bg: Color::Rgb(78, 82, 110),
            dir_color: Color::Rgb(137, 180, 250),
            exe_color: Color::Rgb(166, 227, 161),
            size_color: Color::Rgb(147, 153, 178),
            line_num_color: Color::Rgb(88, 91, 112),
            btn_bg: Color::Rgb(243, 139, 168),
            btn_fg: Color::Rgb(24, 24, 37),
            menu_bg: Color::Rgb(58, 60, 82),
            diff_add_bg: tint_spec(Color::Rgb(30, 30, 46), Color::Rgb(148, 226, 213), 1, 5),
            diff_del_bg: tint_spec(Color::Rgb(30, 30, 46), Color::Rgb(243, 139, 168), 1, 5),
            diff_hunk_bg: tint_spec(Color::Rgb(30, 30, 46), Color::Rgb(203, 166, 247), 3, 25),
            diff_add_fg: Color::Rgb(148, 226, 213),
            diff_del_fg: Color::Rgb(243, 139, 168),
            diff_gutter_fg: Color::Rgb(108, 112, 134),
        },
        Theme::TokyoNightStorm => Palette {
            bg: Color::Rgb(36, 40, 59),
            fg: Color::Rgb(192, 202, 245),
            accent_primary: Color::Rgb(122, 162, 247),
            accent_secondary: Color::Rgb(255, 158, 100),
            accent_tertiary: Color::Rgb(187, 154, 247),
            border_inactive: Color::Rgb(65, 72, 104),
            selection_bg: Color::Rgb(46, 60, 100),
            dir_color: Color::Rgb(122, 162, 247),
            exe_color: Color::Rgb(158, 206, 106),
            size_color: Color::Rgb(86, 95, 137),
            line_num_color: Color::Rgb(88, 91, 112),
            btn_bg: Color::Rgb(247, 118, 142),
            btn_fg: Color::Rgb(24, 24, 37),
            menu_bg: Color::Rgb(45, 49, 71),
            diff_add_bg: tint_spec(Color::Rgb(36, 40, 59), Color::Rgb(115, 218, 202), 1, 5),
            diff_del_bg: tint_spec(Color::Rgb(36, 40, 59), Color::Rgb(247, 118, 142), 1, 5),
            diff_hunk_bg: tint_spec(Color::Rgb(36, 40, 59), Color::Rgb(122, 162, 247), 3, 25),
            diff_add_fg: Color::Rgb(115, 218, 202),
            diff_del_fg: Color::Rgb(247, 118, 142),
            diff_gutter_fg: Color::Rgb(86, 95, 137),
        },
        Theme::GruvboxDarkHard => Palette {
            bg: Color::Rgb(29, 32, 33),
            fg: Color::Rgb(235, 219, 178),
            accent_primary: Color::Rgb(250, 189, 47),
            accent_secondary: Color::Rgb(214, 93, 14),
            accent_tertiary: Color::Rgb(131, 165, 152),
            border_inactive: Color::Rgb(80, 73, 69),
            selection_bg: Color::Rgb(60, 56, 54),
            dir_color: Color::Rgb(131, 165, 152),
            exe_color: Color::Rgb(184, 187, 38),
            size_color: Color::Rgb(146, 131, 116),
            line_num_color: Color::Rgb(88, 91, 112),
            btn_bg: Color::Rgb(251, 73, 52),
            btn_fg: Color::Rgb(29, 32, 33),
            menu_bg: Color::Rgb(50, 48, 47),
            diff_add_bg: tint_spec(Color::Rgb(29, 32, 33), Color::Rgb(142, 192, 124), 1, 5),
            diff_del_bg: tint_spec(Color::Rgb(29, 32, 33), Color::Rgb(251, 73, 52), 1, 5),
            diff_hunk_bg: tint_spec(Color::Rgb(29, 32, 33), Color::Rgb(250, 189, 47), 3, 25),
            diff_add_fg: Color::Rgb(142, 192, 124),
            diff_del_fg: Color::Rgb(251, 73, 52),
            diff_gutter_fg: Color::Rgb(146, 131, 116),
        },
        Theme::Nord => Palette {
            bg: Color::Rgb(46, 52, 64),
            fg: Color::Rgb(216, 222, 233),
            accent_primary: Color::Rgb(136, 192, 208),
            accent_secondary: Color::Rgb(235, 203, 139),
            accent_tertiary: Color::Rgb(180, 142, 173),
            border_inactive: Color::Rgb(76, 86, 106),
            selection_bg: Color::Rgb(67, 76, 94),
            dir_color: Color::Rgb(129, 161, 193),
            exe_color: Color::Rgb(163, 190, 140),
            size_color: Color::Rgb(76, 86, 106),
            line_num_color: Color::Rgb(88, 91, 112),
            btn_bg: Color::Rgb(191, 97, 106),
            btn_fg: Color::Rgb(46, 52, 64),
            menu_bg: Color::Rgb(59, 66, 82),
            diff_add_bg: tint_spec(Color::Rgb(46, 52, 64), Color::Rgb(136, 192, 208), 1, 5),
            diff_del_bg: tint_spec(Color::Rgb(46, 52, 64), Color::Rgb(191, 97, 106), 1, 5),
            diff_hunk_bg: tint_spec(Color::Rgb(46, 52, 64), Color::Rgb(136, 192, 208), 3, 25),
            diff_add_fg: Color::Rgb(136, 192, 208),
            diff_del_fg: Color::Rgb(191, 97, 106),
            diff_gutter_fg: Color::Rgb(76, 86, 106),
        },
        Theme::Dracula => Palette {
            bg: Color::Rgb(40, 42, 54),
            fg: Color::Rgb(248, 248, 242),
            accent_primary: Color::Rgb(189, 147, 249),
            accent_secondary: Color::Rgb(139, 233, 253),
            accent_tertiary: Color::Rgb(255, 121, 198),
            border_inactive: Color::Rgb(98, 114, 164),
            selection_bg: Color::Rgb(68, 71, 90),
            dir_color: Color::Rgb(139, 233, 253),
            exe_color: Color::Rgb(80, 250, 123),
            size_color: Color::Rgb(98, 114, 164),
            line_num_color: Color::Rgb(88, 91, 112),
            btn_bg: Color::Rgb(255, 85, 85),
            btn_fg: Color::Rgb(40, 42, 54),
            menu_bg: Color::Rgb(68, 71, 90),
            diff_add_bg: tint_spec(Color::Rgb(40, 42, 54), Color::Rgb(139, 233, 253), 1, 5),
            diff_del_bg: tint_spec(Color::Rgb(40, 42, 54), Color::Rgb(255, 121, 198), 1, 5),
            diff_hunk_bg: tint_spec(Color::Rgb(40, 42, 54), Color::Rgb(189, 147, 249), 3, 25),
            diff_add_fg: Color::Rgb(139, 233, 253),
            diff_del_fg: Color::Rgb(255, 121, 198),
            diff_gutter_fg: Color::Rgb(98, 114, 164),
        },
        Theme::Terminal => Palette {
            bg: Color::Rgb(22, 22, 22),
            fg: Color::Rgb(212, 212, 212),
            accent_primary: Color::Rgb(97, 175, 239),
            accent_secondary: Color::Rgb(229, 192, 123),
            accent_tertiary: Color::Rgb(198, 120, 221),
            border_inactive: Color::Rgb(68, 68, 68),
            selection_bg: Color::Rgb(55, 55, 55),
            dir_color: Color::Rgb(97, 175, 239),
            exe_color: Color::Rgb(152, 195, 121),
            size_color: Color::Rgb(92, 99, 112),
            line_num_color: Color::Rgb(88, 91, 112),
            btn_bg: Color::Rgb(224, 108, 117),
            btn_fg: Color::Rgb(22, 22, 22),
            menu_bg: Color::Rgb(38, 38, 38),
            diff_add_bg: tint_spec(Color::Rgb(22, 22, 22), Color::Rgb(86, 182, 194), 1, 5),
            diff_del_bg: tint_spec(Color::Rgb(22, 22, 22), Color::Rgb(224, 108, 117), 1, 5),
            diff_hunk_bg: tint_spec(Color::Rgb(22, 22, 22), Color::Rgb(97, 175, 239), 3, 25),
            diff_add_fg: Color::Rgb(86, 182, 194),
            diff_del_fg: Color::Rgb(224, 108, 117),
            diff_gutter_fg: Color::Rgb(92, 99, 112),
        },
    }
}

/// The palette of `theme` (see `palette_spec`).
pub fn palette(theme: Theme) -> (r: Palette)
    ensures
        r == palette_spec(theme),
{
    match theme {
        Theme::Mocha => Palette {
            bg: Color::Rgb(30, 30, 46),
            fg: Color::Rgb(248, 248, 255),
            accent_primary: Color::Rgb(203, 166, 247),
            accent_secondary: Color::Rgb(250, 179, 135),
            accent_tertiary: Color::Rgb(137, 180, 250),
            border_inactive: Color::Rgb(120, 124, 150),
            selection_bg: Color::Rgb(78, 82, 110),
            dir_color: Color::Rgb(137, 180, 250),
            exe_color: Color::Rgb(166, 227, 161),
            size_color: Color::Rgb(147, 153, 178),
            line_num_color: Color::Rgb(88, 91, 112),
            btn_bg: Color::Rgb(243, 139, 168),
            btn_fg: Color::Rgb(24, 24, 37),
            menu_bg: Color::Rgb(58, 60, 82),
            diff_add_bg: tint(Color::Rgb(30, 30, 46), Color::Rgb(148, 226, 213), 1, 5),
            diff_del_bg: tint(Color::Rgb(30, 30, 46), Color::Rgb(243, 139, 168), 1, 5),
            diff_hunk_bg: tint(Color::Rgb(30, 30, 46), Color::Rgb(203, 166, 247), 3, 25),
            diff_add_fg: Color::Rgb(148, 226, 213),
            diff_del_fg: Color::Rgb(243, 139, 168),
            diff_gutter_fg: Color::Rgb(108, 112, 134),
        },
        Theme::TokyoNightStorm => Palette {
            bg: Color::Rgb(36, 40, 59),
            fg: Color::Rgb(192, 202, 245),
            accent_primary: Color::Rgb(122, 162, 247),
            accent_secondary: Color::Rgb(255, 158, 100),
            accent_tertiary: Color::Rgb(187, 154, 247),
            border_inactive: Color::Rgb(65, 72, 104),
            selection_bg: Color::Rgb(46, 60, 100),
            dir_color: Color::Rgb(122, 162, 247),
            exe_color: Color::Rgb(158, 206, 106),
            size_color: Color::Rgb(86, 95, 137),
            line_num_color: Color::Rgb(88, 91, 112),
            btn_bg: Color::Rgb(247, 118, 142),
            btn_fg: Color::Rgb(24, 24, 37),
            menu_bg: Color::Rgb(45, 49, 71),
            diff_add_bg: tint(Color::Rgb(36, 40, 59), Color::Rgb(115, 218, 202), 1, 5),
            diff_del_bg: tint(Color::Rgb(36, 40, 59), Color::Rgb(247, 118, 142), 1, 5),
            diff_hunk_bg: tint(Color::Rgb(36, 40, 59), Color::Rgb(122, 162, 247), 3, 25),
            diff_add_fg: Color::Rgb(115, 218, 202),
            diff_del_fg: Color::Rgb(247, 118, 142),
            diff_gutter_fg: Color::Rgb(86, 95, 137),
        },
        Theme::GruvboxDarkHard => Palette {
            bg: Color::Rgb(29, 32, 33),
            fg: Color::Rgb(235, 219, 178),
            accent_primary: Color::Rgb(250, 189, 47),
            accent_secondary: Color::Rgb(214, 93, 14),
            accent_tertiary: Color::Rgb(131, 165, 152),
            border_inactive: Color::Rgb(80, 73, 69),
            selection_bg: Color::Rgb(60, 56, 54),
            dir_color: Color::Rgb(131, 165, 152),
            exe_color: Color::Rgb(184, 187, 38),
            size_color: Color::Rgb(146, 131, 116),
            line_num_color: Color::Rgb(88, 91, 112),
            btn_bg: Color::Rgb(251, 73, 52),
            btn_fg: Color::Rgb(29, 32, 33),
            menu_bg: Color::Rgb(50, 48, 47),
            diff_add_bg: tint(Color::Rgb(29, 32, 33), Color::Rgb(142, 192, 124), 1, 5),
            diff_del_bg: tint(Color::Rgb(29, 32, 33), Color::Rgb(251, 73, 52), 1, 5),
            diff_hunk_bg: tint(Color::Rgb(29, 32, 33), Color::Rgb(250, 189, 47), 3, 25),
            diff_add_fg: Color::Rgb(142, 192, 124),
            diff_del_fg: Color::Rgb(251, 73, 52),
            diff_gutter_fg: Color::Rgb(146, 131, 116),
        },
        Theme::Nord => Palette {
            bg: Color::Rgb(46, 52, 64),
            fg: Color::Rgb(216, 222, 233),
            accent_primary: Color::Rgb(136, 192, 208),
            accent_secondary: Color::Rgb(235, 203, 139),
            accent_tertiary: Color::Rgb(180, 142, 173),
            border_inactive: Color::Rgb(76, 86, 106),
            selection_bg: Color::Rgb(67, 76, 94),
            dir_color: Color::Rgb(129, 161, 193),
            exe_color: Color::Rgb(163, 190, 140),
            size_color: Color::Rgb(76, 86, 106),
            line_num_color: Color::Rgb(88, 91, 112),
            btn_bg: Color::Rgb(191, 97, 106),
            btn_fg: Color::Rgb(46, 52, 64),
            menu_bg: Color::Rgb(59, 66, 82),
            diff_add_bg: tint(Color::Rgb(46, 52, 64), Color::Rgb(136, 192, 208), 1, 5),
            diff_del_bg: tint(Color::Rgb(46, 52, 64), Color::Rgb(191, 97, 106), 1, 5),
            diff_hunk_bg: tint(Color::Rgb(46, 52, 64), Color::Rgb(136, 192, 208), 3, 25),
            diff_add_fg: Color::Rgb(136, 192, 208),
            diff_del_fg: Color::Rgb(191, 97, 106),
            diff_gutter_fg: Color::Rgb(76, 86, 106),
        },
        Theme::Dracula => Palette {
            bg: Color::Rgb(40, 42, 54),
            fg: Color::Rgb(248, 248, 242),
            accent_primary: Color::Rgb(189, 147, 249),
            accent_secondary: Color::Rgb(139, 233, 253),
            accent_tertiary: Color::Rgb(255, 121, 198),
            border_inactive: Color::Rgb(98, 114, 164),
            selection_bg: Color::Rgb(68, 71, 90),
            dir_color: Color::Rgb(139, 233, 253),
            exe_color: Color::Rgb(80, 250, 123),
            size_color: Color::Rgb(98, 114, 164),
            line_num_color: Color::Rgb(88, 91, 112),
            btn_bg: Color::Rgb(255, 85, 85),
            btn_fg: Color::Rgb(40, 42, 54),
            menu_bg: Color::Rgb(68, 71, 90),
            diff_add_bg: tint(Color::Rgb(40, 42, 54), Color::Rgb(139, 233, 253), 1, 5),
            diff_del_bg: tint(Color::Rgb(40, 42, 54), Color::Rgb(255, 121, 198), 1, 5),
            diff_hunk_bg: tint(Color::Rgb(40, 42, 54), Color::Rgb(189, 147, 249), 3, 25),
            diff_add_fg: Color::Rgb(139, 233, 253),
            diff_del_fg: Color::Rgb(255, 121, 198),
            diff_gutter_fg: Color::Rgb(98, 114, 164),
        },
        Theme::Terminal => Palette {
            bg: Color::Rgb(22, 22, 22),
            fg: Color::Rgb(212, 212, 212),
            accent_primary: Color::Rgb(97, 175, 239),
            accent_secondary: Color::Rgb(229, 192, 123),
            accent_tertiary: Color::Rgb(198, 120, 221),
            border_inactive: Color::Rgb(68, 68, 68),
            selection_bg: Color::Rgb(55, 55, 55),
            dir_color: Color::Rgb(97, 175, 239),
            exe_color: Color::Rgb(152, 195, 121),
            size_color: Color::Rgb(92, 99, 112),
            line_num_color: Color::Rgb(88, 91, 112),
            btn_bg: Color::Rgb(224, 108, 117),
            btn_fg: Color::Rgb(22, 22, 22),
            menu_bg: Color::Rgb(38, 38, 38),
            diff_add_bg: tint(Color::Rgb(22, 22, 22), Color::Rgb(86, 182, 194), 1, 5),
            diff_del_bg: tint(Color::Rgb(22, 22, 22), Color::Rgb(224, 108, 117), 1, 5),
            diff_hunk_bg: tint(Color::Rgb(22, 22, 22), Color::Rgb(97, 175, 239), 3, 25),
            diff_add_fg: Color::Rgb(86, 182, 194),
            diff_del_fg: Color::Rgb(224, 108, 117),
            diff_gutter_fg: Color::Rgb(92, 99, 112),
        },
    }
}

/// A color of the 256-color table: its first sixteen entries are the named
/// colors.
pub open spec fn indexed_color(idx: u8) -> Color {
    match idx {
        0 => Color::Black,
        1 => Color::Red,
        2 => Color::Green,
        3 => Color::Yellow,
        4 => Color::Blue,
        5 => Color::Magenta,
        6 => Color::Cyan,
        7 => Color::White,
        8 => Color::DarkGray,
        9 => Color::LightRed,
        10 => Color::LightGreen,
        11 => Color::LightYellow,
        12 => Color::LightBlue,
        13 => Color::LightMagenta,
        14 => Color::LightCyan,
        15 => Color::Gray,
        n => Color::Indexed(n),
    }
}

/// The color for entry `idx` of the 256-color table (see `indexed_color`).
pub fn idx_to_color(idx: u8) -> (r: Color)
    ensures
        r == indexed_color(idx),
{
    match idx {
        0 => Color::Black,
        1 => Color::Red,
        2 => Color::Green,
        3 => Color::Yellow,
        4 => Color::Blue,
        5 => Color::Magenta,
        6 => Color::Cyan,
        7 => Color::White,
        8 => Color::DarkGray,
        9 => Color::LightRed,
        10 => Color::LightGreen,
        11 => Color::LightYellow,
        12 => Color::LightBlue,
        13 => Color::LightMagenta,
        14 => Color::LightCyan,
        15 => Color::Gray,
        n => Color::Indexed(n),
    }
}

} // verus!
