use vstd::prelude::*;

verus! {

/// The looks of the user interface.
#[derive(Clone, Copy, Debug, PartialEq, Eq, Structural)]
pub enum UiThemeId {
    ClassicSystem7,
    SystemlessDefault,
}

/// Whether a look keeps the measures that applications expect.
#[derive(Clone, Copy, Debug, PartialEq, Eq, Structural)]
pub enum ThemeMetricsMode {
    ClassicGuestMetrics,
    ThemedMetrics,
}

impl ThemeMetricsMode {
    /// Whether applications see the classic measures.
    pub fn preserves_classic_guest_metrics(self) -> (r: bool)
        ensures
            r == (self is ClassicGuestMetrics),
    {
        match self {
            ThemeMetricsMode::ClassicGuestMetrics => true,
            ThemeMetricsMode::ThemedMetrics => false,
        }
    }
}

/// The measures of menus, in pixels.
#[derive(Clone, Copy, Debug, PartialEq, Eq, Structural)]
pub struct MenuMetrics {
    pub bar_height: u16,
    pub item_height: u16,
    pub title_margin: u16,
}

/// The measures of controls, in pixels.
#[derive(Clone, Copy, Debug, PartialEq, Eq, Structural)]
pub struct ControlMetrics {
    pub button_height: u16,
    pub scroll_bar_width: u16,
    pub check_box_size: u16,
}

/// A colour by its three parts.
#[derive(Clone, Copy, Debug, PartialEq, Eq, Structural)]
pub struct Rgb {
    pub red: u8,
    pub green: u8,
    pub blue: u8,
}

/// The colours of a look.
#[derive(Clone, Copy, Debug, PartialEq, Eq, Structural)]
pub struct ThemePalette {
    pub ground: Rgb,
    pub ink: Rgb,
    pub highlight: Rgb,
}

/// A look of the user interface.
#[derive(Clone, Copy, Debug, PartialEq, Eq, Structural)]
pub struct UiTheme {
    pub id: UiThemeId,
}

/// The measures of menus that applications expect.
pub open spec fn classic_menu_metrics() -> MenuMetrics {
    MenuMetrics { bar_height: 20, item_height: 16, title_margin: 10 }
}

/// The measures of controls that applications expect.
pub open spec fn classic_control_metrics() -> ControlMetrics {
    ControlMetrics { button_height: 20, scroll_bar_width: 16, check_box_size: 12 }
}

/// The colours of a look: the classic one is black on white.
pub open spec fn palette_of(id: UiThemeId) -> ThemePalette {
    let black = Rgb { red: 0, green: 0, blue: 0 };
    match id {
        UiThemeId::ClassicSystem7 => ThemePalette {
            ground: Rgb { red: 0xFF, green: 0xFF, blue: 0xFF },
            ink: black,
            highlight: black,
        },
        UiThemeId::SystemlessDefault => ThemePalette {
            ground: Rgb { red: 0xEE, green: 0xEE, blue: 0xEE },
            ink: black,
            highlight: Rgb { red: 0x33, green: 0x66, blue: 0xCC },
        },
    }
}

impl UiThemeId {
    /// The look with this name.
    pub fn provider(self) -> (r: UiTheme)
        ensures
            r.id == self,
    {
        UiTheme { id: self }
    }
}

impl UiTheme {
    /// The name of the look.
    pub fn id(&self) -> (r: UiThemeId)
        ensures
            r == self.id,
    {
        self.id
    }

    /// The measures of its menus: every look keeps the classic ones.
    pub fn menu_metrics(&self) -> (r: MenuMetrics)
        ensures
            r == classic_menu_metrics(),
    {
        MenuMetrics { bar_height: 20, item_height: 16, title_margin: 10 }
    }

    /// The measures of its controls: every look keeps the classic ones.
    pub fn control_metrics(&self) -> (r: ControlMetrics)
        ensures
            r == classic_control_metrics(),
    {
        ControlMetrics { button_height: 20, scroll_bar_width: 16, check_box_size: 12 }
    }

    /// Its colours.
    pub fn palette(&self) -> (r: ThemePalette)
        ensures
            r == palette_of(self.id),
    {
        let black: Rgb = Rgb { red: 0, green: 0, blue: 0 };
        match self.id {
            UiThemeId::ClassicSystem7 => ThemePalette {
                ground: Rgb { red: 0xFF, green: 0xFF, blue: 0xFF },
                ink: black,
                highlight: black,
            },
            UiThemeId::SystemlessDefault => ThemePalette {
                ground: Rgb { red: 0xEE, green: 0xEE, blue: 0xEE },
                ink: black,
                highlight: Rgb { red: 0x33, green: 0x66, blue: 0xCC },
            },
        }
    }
}

/// Another look shows other colours and keeps the measures.
pub proof fn lemma_looks_differ_in_colour(a: UiTheme, b: UiTheme)
    ensures
        (palette_of(a.id) == palette_of(b.id)) == (a.id == b.id),
{
}

} // verus!
