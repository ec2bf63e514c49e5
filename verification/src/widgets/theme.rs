//! The colour themes that the interactive layer offers.

use vstd::prelude::*;

verus! {

/// A colour theme.
#[derive(Debug, Clone, Copy, PartialEq, Eq, Structural)]
pub enum ThemeType {
    CatppuccinMocha,
    CatppuccinMacchiato,
    CatppuccinFrappe,
    CatppuccinLatte,
    TokyoNight,
    TokyoNightStorm,
    TokyoNightDay,
    Gruvbox,
    GruvboxLight,
    Nord,
    Dracula,
    OneDark,
    SolarizedDark,
    SolarizedLight,
}

/// The number of colour themes.
pub const THEME_COUNT: usize = 14;

impl ThemeType {
    /// The position of the theme in the list of all themes.
    pub open spec fn position(self) -> int {
        match self {
            ThemeType::CatppuccinMocha => 0,
            ThemeType::CatppuccinMacchiato => 1,
            ThemeType::CatppuccinFrappe => 2,
            ThemeType::CatppuccinLatte => 3,
            ThemeType::TokyoNight => 4,
            ThemeType::TokyoNightStorm => 5,
            ThemeType::TokyoNightDay => 6,
            ThemeType::Gruvbox => 7,
            ThemeType::GruvboxLight => 8,
            ThemeType::Nord => 9,
            ThemeType::Dracula => 10,
            ThemeType::OneDark => 11,
            ThemeType::SolarizedDark => 12,
            ThemeType::SolarizedLight => 13,
        }
    }

    /// The list of all themes.
    pub open spec fn all_themes() -> Seq<ThemeType> {
        seq![
            ThemeType::CatppuccinMocha,
            ThemeType::CatppuccinMacchiato,
            ThemeType::CatppuccinFrappe,
            ThemeType::CatppuccinLatte,
            ThemeType::TokyoNight,
            ThemeType::TokyoNightStorm,
            ThemeType::TokyoNightDay,
            ThemeType::Gruvbox,
            ThemeType::GruvboxLight,
            ThemeType::Nord,
            ThemeType::Dracula,
            ThemeType::OneDark,
            ThemeType::SolarizedDark,
            ThemeType::SolarizedLight,
        ]
    }

    /// Every theme, in the order in which they are offered.
    pub fn all() -> (list: Vec<ThemeType>)
        ensures
            list@ == Self::all_themes(),
            list@.len() == THEME_COUNT,
            forall|t: ThemeType| list@[t.position()] == t,
    {
        let mut list: Vec<ThemeType> = Vec::new();
        list.push(ThemeType::CatppuccinMocha);
        list.push(ThemeType::CatppuccinMacchiato);
        list.push(ThemeType::CatppuccinFrappe);
        list.push(ThemeType::CatppuccinLatte);
        list.push(ThemeType::TokyoNight);
        list.push(ThemeType::TokyoNightStorm);
        list.push(ThemeType::TokyoNightDay);
        list.push(ThemeType::Gruvbox);
        list.push(ThemeType::GruvboxLight);
        list.push(ThemeType::Nord);
        list.push(ThemeType::Dracula);
        list.push(ThemeType::OneDark);
        list.push(ThemeType::SolarizedDark);
        list.push(ThemeType::SolarizedLight);
        assert(list@ =~= Self::all_themes());
        list
    }

    /// The name of the theme as it is shown.
    pub open spec fn spec_name(self) -> Seq<char> {
        match self {
            ThemeType::CatppuccinMocha => "Catppuccin Mocha"@,
            ThemeType::CatppuccinMacchiato => "Catppuccin Macchiato"@,
            ThemeType::CatppuccinFrappe => "Catppuccin Frapp\u{e9}"@,
            ThemeType::CatppuccinLatte => "Catppuccin Latte"@,
            ThemeType::TokyoNight => "Tokyo Night"@,
            ThemeType::TokyoNightStorm => "Tokyo Night Storm"@,
            ThemeType::TokyoNightDay => "Tokyo Night Day"@,
            ThemeType::Gruvbox => "Gruvbox Dark"@,
            ThemeType::GruvboxLight => "Gruvbox Light"@,
            ThemeType::Nord => "Nord"@,
            ThemeType::Dracula => "Dracula"@,
            ThemeType::OneDark => "One Dark"@,
            ThemeType::SolarizedDark => "Solarized Dark"@,
            ThemeType::SolarizedLight => "Solarized Light"@,
        }
    }

    /// The name of the theme as it is shown.
    pub fn name(&self) -> (name: &'static str)
        ensures
            name@ == self.spec_name(),
    {
        match self {
            ThemeType::CatppuccinMocha => "Catppuccin Mocha",
            ThemeType::CatppuccinMacchiato => "Catppuccin Macchiato",
            ThemeType::CatppuccinFrappe => "Catppuccin Frapp\u{e9}",
            ThemeType::CatppuccinLatte => "Catppuccin Latte",
            ThemeType::TokyoNight => "Tokyo Night",
            ThemeType::TokyoNightStorm => "Tokyo Night Storm",
            ThemeType::TokyoNightDay => "Tokyo Night Day",
            ThemeType::Gruvbox => "Gruvbox Dark",
            ThemeType::GruvboxLight => "Gruvbox Light",
            ThemeType::Nord => "Nord",
            ThemeType::Dracula => "Dracula",
            ThemeType::OneDark => "One Dark",
            ThemeType::SolarizedDark => "Solarized Dark",
            ThemeType::SolarizedLight => "Solarized Light",
        }
    }

    /// The index of the theme in the list of all themes.
    pub fn index(&self) -> (i: usize)
        ensures
            i == self.position(),
            i < THEME_COUNT,
    {
        match self {
            ThemeType::CatppuccinMocha => 0,
            ThemeType::CatppuccinMacchiato => 1,
            ThemeType::CatppuccinFrappe => 2,
            ThemeType::CatppuccinLatte => 3,
            ThemeType::TokyoNight => 4,
            ThemeType::TokyoNightStorm => 5,
            ThemeType::TokyoNightDay => 6,
            ThemeType::Gruvbox => 7,
            ThemeType::GruvboxLight => 8,
            ThemeType::Nord => 9,
            ThemeType::Dracula => 10,
            ThemeType::OneDark => 11,
            ThemeType::SolarizedDark => 12,
            ThemeType::SolarizedLight => 13,
        }
    }

    /// The theme that follows in the list; the first follows the last.
    pub fn next(&self) -> (r: ThemeType)
        ensures
            r == Self::all_themes()[(self.position() + 1) % (THEME_COUNT as int)],
    {
        let all = Self::all();
        all[(self.index() + 1) % THEME_COUNT]
    }

    /// The theme that precedes in the list; the last precedes the first.
    pub fn prev(&self) -> (r: ThemeType)
        ensures
            r == Self::all_themes()[(self.position() + THEME_COUNT - 1) % (THEME_COUNT as int)],
    {
        let all = Self::all();
        all[(self.index() + THEME_COUNT - 1) % THEME_COUNT]
    }
}

/// Going to the next theme and back, or back and forth, changes nothing.
pub proof fn lemma_next_prev(t: ThemeType)
    ensures
        ThemeType::all_themes()[(ThemeType::all_themes()[(t.position() + 1) % (
        THEME_COUNT as int)].position() + THEME_COUNT - 1) % (THEME_COUNT as int)] == t,
        ThemeType::all_themes()[(ThemeType::all_themes()[(t.position() + THEME_COUNT - 1) % (
        THEME_COUNT as int)].position() + 1) % (THEME_COUNT as int)] == t,
{
}

/// The colour theme that is in use. It starts as Catppuccin Mocha.
#[derive(Debug, Clone, Copy, PartialEq, Eq, Structural)]
pub struct ThemeSelection {
    pub current: ThemeType,
}

impl Default for ThemeSelection {
    fn default() -> (r: ThemeSelection)
        ensures
            r.current == ThemeType::CatppuccinMocha,
    {
        ThemeSelection { current: ThemeType::CatppuccinMocha }
    }
}

/// Puts a colour theme into use.
pub fn set_theme(selection: &mut ThemeSelection, theme_type: ThemeType)
    ensures
        final(selection).current == theme_type,
{
    selection.current = theme_type;
}

/// The colour theme that is in use.
pub fn get_current_theme_type(selection: &ThemeSelection) -> (r: ThemeType)
    ensures
        r == selection.current,
{
    selection.current
}

} // verus!
