use vstd::prelude::*;

use crate::events::{QueuedEvent, MOUSE_DOWN};
use crate::shell::ShellView;
use crate::trap::{DispView, TrapDispatcher};

verus! {

/// Where the middle of the menu bar is, from the top of the screen.
pub const MENU_BAR_MIDDLE: i16 = 10;

/// An item of a menu.
pub struct GuestMenuItem {
    pub title: String,
    pub enabled: bool,
}

/// A menu of the application.
pub struct GuestMenu {
    pub id: i16,
    pub title: String,
    pub enabled: bool,
    /// Where its title begins in the menu bar.
    pub left: i16,
    pub items: Vec<GuestMenuItem>,
}

/// An item of a menu as a mathematical value.
pub struct MenuItemView {
    pub title: Seq<char>,
    pub enabled: bool,
}

/// A menu as a mathematical value.
pub struct MenuView {
    pub id: i16,
    pub title: Seq<char>,
    pub enabled: bool,
    pub left: i16,
    pub items: Seq<MenuItemView>,
}

/// The menus of the application at some moment, from left to right.
pub struct GuestMenuSnapshot {
    pub menus: Vec<GuestMenu>,
}

/// A choice that the host's menus made, and the place in the menu bar that stands
/// for it.
#[derive(Clone, Copy, Debug, PartialEq, Eq, Structural)]
pub struct NativeMenuEvent {
    pub menu_id: i16,
    /// Items count from 1.
    pub item: i16,
    pub v: i16,
    pub h: i16,
}

impl GuestMenuItem {
    pub open spec fn view(&self) -> MenuItemView {
        MenuItemView { title: self.title@, enabled: self.enabled }
    }

    fn copy(&self) -> (r: Self)
        ensures
            r@ == self@,
    {
        GuestMenuItem { title: self.title.clone(), enabled: self.enabled }
    }
}

impl GuestMenu {
    pub open spec fn view(&self) -> MenuView {
        MenuView {
            id: self.id,
            title: self.title@,
            enabled: self.enabled,
            left: self.left,
            items: self.items@.map_values(|i: GuestMenuItem| i@),
        }
    }

    fn copy(&self) -> (r: Self)
        ensures
            r@ == self@,
    {
        let mut items: Vec<GuestMenuItem> = Vec::new();
        let mut i: usize = 0;
        while i < self.items.len()
            invariant
                i <= self.items.len(),
                items@.len() == i,
                forall|k: int| 0 <= k < i ==> (#[trigger] items@[k])@ == self.items@[k]@,
            decreases self.items.len() - i,
        {
            items.push(self.items[i].copy());
            i += 1;
        }
        let r: GuestMenu = GuestMenu {
            id: self.id,
            title: self.title.clone(),
            enabled: self.enabled,
            left: self.left,
            items,
        };
        assert(r@.items =~= self@.items);
        r
    }
}

/// Menus as mathematical values.
pub open spec fn menu_views(menus: Seq<GuestMenu>) -> Seq<MenuView> {
    menus.map_values(|m: GuestMenu| m@)
}

/// The place of the menu with number `id`.
pub open spec fn menu_position(menus: Seq<MenuView>, id: i16, from: int) -> Option<int>
    decreases menus.len() - from,
{
    if from < 0 || from >= menus.len() {
        None
    } else if menus[from].id == id {
        Some(from)
    } else {
        menu_position(menus, id, from + 1)
    }
}

impl MenuView {
    /// Item `item`, counted from 1, is there to be chosen.
    pub open spec fn selectable(self, item: i16) -> bool {
        self.enabled && 1 <= item <= self.items.len() && self.items[item - 1].enabled
    }
}

impl DispView {
    /// The choice that item `item` of the menu with number `id` makes, where it is
    /// there to be chosen.
    pub open spec fn menu_choice(self, id: i16, item: i16) -> Option<NativeMenuEvent> {
        match menu_position(self.shell.menus, id, 0) {
            Some(i) if self.shell.menus[i].selectable(item) => Some(
                NativeMenuEvent { menu_id: id, item, v: MENU_BAR_MIDDLE, h: self.shell.menus[i].left },
            ),
            _ => None,
        }
    }

    /// The press of the button in the menu bar that a choice stands for.
    pub open spec fn menu_press(self, e: NativeMenuEvent) -> QueuedEvent {
        QueuedEvent { what: MOUSE_DOWN, message: 0, where_v: e.v, where_h: e.h, modifiers: self.modifiers() }
    }
}

impl TrapDispatcher {
    /// Sets the menus of the application, from left to right.
    pub fn set_menus(&mut self, menus: Vec<GuestMenu>)
        ensures
            final(self)@ == (DispView { shell: ShellView { menus: menu_views(menus@), ..old(self)@.shell }, ..old(self)@ }),
            old(self).wf() ==> final(self).wf(),
    {
        proof {
            reveal(TrapDispatcher::view);
        }
        self.shell.menus = menus;
    }

    /// How many menus the application has.
    pub fn menu_count(&self) -> (r: usize)
        ensures
            r == self@.shell.menus.len(),
    {
        proof {
            reveal(TrapDispatcher::view);
        }
        self.shell.menus.len()
    }

    /// The menus of the application.
    pub fn guest_menu_snapshot(&self) -> (r: GuestMenuSnapshot)
        ensures
            menu_views(r.menus@) == self@.shell.menus,
    {
        proof {
            reveal(TrapDispatcher::view);
        }
        let mut menus: Vec<GuestMenu> = Vec::new();
        let mut i: usize = 0;
        while i < self.shell.menus.len()
            invariant
                i <= self.shell.menus.len(),
                menus@.len() == i,
                forall|k: int| 0 <= k < i ==> (#[trigger] menus@[k])@ == self.shell.menus@[k]@,
            decreases self.shell.menus.len() - i,
        {
            menus.push(self.shell.menus[i].copy());
            i += 1;
        }
        assert(menu_views(menus@) =~= self@.shell.menus);
        GuestMenuSnapshot { menus }
    }

    fn find_menu(&self, id: i16) -> (r: Option<usize>)
        ensures
            r is Some <==> menu_position(self@.shell.menus, id, 0) is Some,
            r matches Some(i) ==> i < self.shell.menus@.len() && menu_position(self@.shell.menus, id, 0) == Some(i as int),
    {
        proof {
            reveal(TrapDispatcher::view);
        }
        let mut i: usize = 0;
        while i < self.shell.menus.len()
            invariant
                i <= self.shell.menus.len(),
                self@.shell.menus == menu_views(self.shell.menus@),
                menu_position(self@.shell.menus, id, 0) == menu_position(self@.shell.menus, id, i as int),
            decreases self.shell.menus.len() - i,
        {
            assert(self@.shell.menus[i as int] == self.shell.menus@[i as int]@);
            if self.shell.menus[i].id == id {
                return Some(i);
            }
            i += 1;
        }
        None
    }

    /// Queues the choice of a menu item, should it be there to be chosen, and says
    /// where in the menu bar it is.
    pub fn queue_native_menu_selection(&mut self, menu_id: i16, item: i16) -> (r: Option<(i16, i16)>)
        ensures
            match old(self)@.menu_choice(menu_id, item) {
                Some(e) => r == Some((e.v, e.h)) && final(self)@ == (DispView { shell: ShellView { native_menu_event: Some(e), ..old(self)@.shell }, ..old(self)@ }),
                None => r is None && final(self)@ == old(self)@,
            },
            old(self).wf() ==> final(self).wf(),
    {
        proof {
            reveal(TrapDispatcher::view);
        }
        let i: usize = match self.find_menu(menu_id) {
            Some(i) => i,
            None => return None,
        };
        assert(self@.shell.menus[i as int] == self.shell.menus@[i as int]@);
        let menu: &GuestMenu = &self.shell.menus[i];
        if !menu.enabled || item < 1 || (item as usize) > menu.items.len() {
            return None;
        }
        let k: usize = item as usize - 1;
        assert(self@.shell.menus[i as int].items[k as int] == menu.items@[k as int]@);
        if !menu.items[k].enabled {
            return None;
        }
        let h: i16 = menu.left;
        self.shell.native_menu_event = Some(NativeMenuEvent { menu_id, item, v: MENU_BAR_MIDDLE, h });
        Some((MENU_BAR_MIDDLE, h))
    }

    /// Whether a choice of the host's menus waits for the application.
    pub fn has_pending_native_menu_event(&self) -> (r: bool)
        ensures
            r == (self@.shell.native_menu_event is Some),
    {
        proof {
            reveal(TrapDispatcher::view);
        }
        self.shell.native_menu_event.is_some()
    }
}

/// A choice can be queued exactly when its menu is there and enabled, and the item is
/// one of it and enabled.
pub proof fn lemma_menu_choice(d: DispView, id: i16, item: i16)
    ensures
        d.menu_choice(id, item) is Some <==> exists|i: int|
            #![trigger d.shell.menus[i]]
            menu_position(d.shell.menus, id, 0) == Some(i) && d.shell.menus[i].selectable(item),
{
    match menu_position(d.shell.menus, id, 0) {
        Some(i) => {
            assert(d.shell.menus[i] == d.shell.menus[i]);
        },
        None => {},
    }
}

} // verus!
