use vstd::prelude::*;

use crate::menus::{menu_views, GuestMenu, MenuView, NativeMenuEvent};
use crate::theme::UiThemeId;

verus! {

/// The image of the cursor: what of it covers the screen, and the point that counts as
/// the mouse position, down and across.
#[derive(Clone, Copy)]
pub struct CursorImage {
    pub mask: [u8; 32],
    pub hot_v: i16,
    pub hot_h: i16,
}

/// What a part of the picture belongs to that does not stand in the application's own
/// windows.
#[derive(Clone, Copy, Debug, PartialEq, Eq, Structural)]
pub enum ChromeKind {
    MenuBar,
    Window,
    Dialog,
}

/// A run of bytes in screen memory that shows a part of the menu bar, of a window's frame
/// or of a modal dialog, as it was drawn.
#[derive(Clone, Debug, PartialEq, Eq)]
pub struct ChromePart {
    pub kind: ChromeKind,
    pub at: u32,
    pub pixels: Vec<u8>,
}

/// Such a run of bytes as a mathematical value.
pub struct ChromeView {
    pub kind: ChromeKind,
    pub at: u32,
    pub pixels: Seq<u8>,
}

impl ChromePart {
    pub open spec fn view(&self) -> ChromeView {
        ChromeView { kind: self.kind, at: self.at, pixels: self.pixels@ }
    }
}

/// The parts as mathematical values.
pub open spec fn chrome_views(parts: Seq<ChromePart>) -> Seq<ChromeView> {
    parts.map_values(|p: ChromePart| p@)
}

/// How the host wants a trap answered that nothing here serves: D0, the bytes of
/// arguments that leave the stack, and the word that is then on top of it.
#[derive(Clone, Copy, Debug, PartialEq, Eq, Structural)]
pub struct TrapAnswer {
    pub opcode: u16,
    pub d0: Option<u32>,
    pub popped: u32,
    pub result: Option<u16>,
}

/// The last of the first `n` answers that is for trap `opcode`.
pub open spec fn last_answer(answers: Seq<TrapAnswer>, opcode: u16, n: nat) -> Option<TrapAnswer>
    decreases n,
{
    if n == 0 {
        None
    } else if answers[n - 1].opcode == opcode {
        Some(answers[n - 1])
    } else {
        last_answer(answers, opcode, (n - 1) as nat)
    }
}

/// What surrounds the application: its menus, its cursor, its colours, the picture around
/// it, and what the host has to answer.
pub struct Shell {
    pub ui_theme: UiThemeId,
    pub menus: Vec<GuestMenu>,
    pub native_menu_event: Option<NativeMenuEvent>,
    /// A press of the button on a plain user item of the dialog is being dealt with.
    pub user_item_mouse_down: bool,
    /// The application has taken the whole screen.
    pub fullscreen_locked: bool,
    pub cursor_image: Option<CursorImage>,
    /// The menu bar, the window frames and the modal dialog as they were drawn.
    pub chrome: Vec<ChromePart>,
    /// The colours that the application shows, if it has set them.
    pub application_clut: Option<[[u16; 3]; 256]>,
    pub trap_answers: Vec<TrapAnswer>,
}

/// What surrounds the application, as a mathematical value.
pub struct ShellView {
    pub ui_theme: UiThemeId,
    pub menus: Seq<MenuView>,
    pub native_menu_event: Option<NativeMenuEvent>,
    pub user_item_mouse_down: bool,
    pub fullscreen_locked: bool,
    pub cursor_image: Option<CursorImage>,
    pub chrome: Seq<ChromeView>,
    pub application_clut: Option<[[u16; 3]; 256]>,
    pub trap_answers: Seq<TrapAnswer>,
}

impl Shell {
    pub open spec fn view(&self) -> ShellView {
        ShellView {
            ui_theme: self.ui_theme,
            menus: menu_views(self.menus@),
            native_menu_event: self.native_menu_event,
            user_item_mouse_down: self.user_item_mouse_down,
            fullscreen_locked: self.fullscreen_locked,
            cursor_image: self.cursor_image,
            chrome: chrome_views(self.chrome@),
            application_clut: self.application_clut,
            trap_answers: self.trap_answers@,
        }
    }

    /// Nothing set and nothing asked for.
    pub fn new() -> (r: Self)
        ensures
            r@ == fresh_shell(),
    {
        let r: Shell = Shell {
            ui_theme: UiThemeId::ClassicSystem7,
            menus: Vec::new(),
            native_menu_event: None,
            user_item_mouse_down: false,
            fullscreen_locked: false,
            cursor_image: None,
            chrome: Vec::new(),
            application_clut: None,
            trap_answers: Vec::new(),
        };
        assert(r@.menus =~= fresh_shell().menus);
        assert(r@.chrome =~= fresh_shell().chrome);
        r
    }
}

/// Nothing set and nothing asked for.
pub open spec fn fresh_shell() -> ShellView {
    ShellView {
        ui_theme: UiThemeId::ClassicSystem7,
        menus: Seq::empty(),
        native_menu_event: None,
        user_item_mouse_down: false,
        fullscreen_locked: false,
        cursor_image: None,
        chrome: Seq::empty(),
        application_clut: None,
        trap_answers: Seq::empty(),
    }
}

} // verus!
