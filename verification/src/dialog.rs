use std::collections::VecDeque;

use vstd::prelude::*;

use crate::events::QueuedEvent;

verus! {

/// Item type of a push button.
pub const BUTTON_ITEM: u8 = 4;
/// Item type of an item that the application draws.
pub const USER_ITEM: u8 = 0;

/// An item of a dialog: its type, its rectangle in dialog coordinates (top,
/// left, bottom, right), and the procedure that draws a user item.
#[derive(Clone, Copy, Debug, PartialEq, Eq)]
pub struct DialogItem {
    pub item_type: u8,
    pub rect: (i16, i16, i16, i16),
    pub proc_ptr: u32,
}

/// The dialog that `ModalDialog` is handling.
pub struct DialogTrackingState {
    pub dialog_ptr: u32,
    /// Top, left, bottom and right on the screen.
    pub bounds: (i16, i16, i16, i16),
    pub items: Vec<DialogItem>,
    pub item_hit_ptr: u32,
    pub flash_remaining: u32,
    /// Draw procedures of user items that still have to run.
    pub draw_proc_queue: VecDeque<(u32, i16)>,
    pub draw_procs_done: bool,
    pub rendered_pixels_final: bool,
    pub filter_proc: u32,
    /// The event that the filter procedure was last called with.
    pub last_filter_event: Option<QueuedEvent>,
}

/// A dialog as a mathematical value.
pub struct DialogView {
    pub dialog_ptr: u32,
    pub bounds: (i16, i16, i16, i16),
    pub items: Seq<DialogItem>,
    pub item_hit_ptr: u32,
    pub flash_remaining: u32,
    pub draw_proc_queue: Seq<(u32, i16)>,
    pub draw_procs_done: bool,
    pub rendered_pixels_final: bool,
    pub filter_proc: u32,
    pub last_filter_event: Option<QueuedEvent>,
}

/// The point (`v`, `h`) of the screen lies in `item` of a dialog whose top left
/// corner is at (`top`, `left`).
pub open spec fn hits(item: DialogItem, top: i16, left: i16, v: i16, h: i16) -> bool {
    &&& item.rect.0 <= v - top < item.rect.2
    &&& item.rect.1 <= h - left < item.rect.3
}

/// A push button, enabled or not.
pub open spec fn is_button(item: DialogItem) -> bool {
    item.item_type & 0x7f == BUTTON_ITEM
}

/// A user item without a draw procedure.
pub open spec fn is_plain_user_item(item: DialogItem) -> bool {
    item.item_type & 0x7f == USER_ITEM && item.proc_ptr == 0
}

impl DialogView {
    /// Some button lies under the point.
    pub open spec fn button_at(self, v: i16, h: i16) -> bool {
        exists|i: int|
            0 <= i < self.items.len() && is_button(#[trigger] self.items[i]) && hits(
                self.items[i],
                self.bounds.0,
                self.bounds.1,
                v,
                h,
            )
    }

    /// Some plain user item lies under the point.
    pub open spec fn plain_user_item_at(self, v: i16, h: i16) -> bool {
        exists|i: int|
            0 <= i < self.items.len() && is_plain_user_item(#[trigger] self.items[i]) && hits(
                self.items[i],
                self.bounds.0,
                self.bounds.1,
                v,
                h,
            )
    }
}

impl DialogTrackingState {
    pub open spec fn view(&self) -> DialogView {
        DialogView {
            dialog_ptr: self.dialog_ptr,
            bounds: self.bounds,
            items: self.items@,
            item_hit_ptr: self.item_hit_ptr,
            flash_remaining: self.flash_remaining,
            draw_proc_queue: self.draw_proc_queue@,
            draw_procs_done: self.draw_procs_done,
            rendered_pixels_final: self.rendered_pixels_final,
            filter_proc: self.filter_proc,
            last_filter_event: self.last_filter_event,
        }
    }

    /// A dialog that is drawn and has no items.
    pub fn new(dialog_ptr: u32, filter_proc: u32, item_hit_ptr: u32) -> (r: Self)
        ensures
            r@ == (DialogView {
                dialog_ptr,
                bounds: (0, 0, 0, 0),
                items: Seq::empty(),
                item_hit_ptr,
                flash_remaining: 0,
                draw_proc_queue: Seq::empty(),
                draw_procs_done: true,
                rendered_pixels_final: true,
                filter_proc,
                last_filter_event: None,
            }),
    {
        DialogTrackingState {
            dialog_ptr,
            bounds: (0, 0, 0, 0),
            items: Vec::new(),
            item_hit_ptr,
            flash_remaining: 0,
            draw_proc_queue: VecDeque::new(),
            draw_procs_done: true,
            rendered_pixels_final: true,
            filter_proc,
            last_filter_event: None,
        }
    }

    fn item_at(item: &DialogItem, top: i16, left: i16, v: i16, h: i16) -> (r: bool)
        ensures
            r == hits(*item, top, left, v, h),
    {
        let dv: i32 = v as i32 - top as i32;
        let dh: i32 = h as i32 - left as i32;
        item.rect.0 as i32 <= dv && dv < item.rect.2 as i32 && item.rect.1 as i32 <= dh && dh < item.rect.3 as i32
    }

    /// Whether some button lies under the point.
    pub fn has_button_at(&self, v: i16, h: i16) -> (r: bool)
        ensures
            r == self@.button_at(v, h),
    {
        let mut i: usize = 0;
        while i < self.items.len()
            invariant
                i <= self.items.len(),
                forall|k: int|
                    0 <= k < i ==> !(is_button(#[trigger] self.items@[k]) && hits(
                        self.items@[k],
                        self.bounds.0,
                        self.bounds.1,
                        v,
                        h,
                    )),
            decreases self.items.len() - i,
        {
            let item: DialogItem = self.items[i];
            assert(item == self@.items[i as int]);
            if item.item_type & 0x7f == BUTTON_ITEM && Self::item_at(&item, self.bounds.0, self.bounds.1, v, h) {
                return true;
            }
            i += 1;
        }
        false
    }

    /// Whether some plain user item lies under the point.
    pub fn has_plain_user_item_at(&self, v: i16, h: i16) -> (r: bool)
        ensures
            r == self@.plain_user_item_at(v, h),
    {
        let mut i: usize = 0;
        while i < self.items.len()
            invariant
                i <= self.items.len(),
                forall|k: int|
                    0 <= k < i ==> !(is_plain_user_item(#[trigger] self.items@[k]) && hits(
                        self.items@[k],
                        self.bounds.0,
                        self.bounds.1,
                        v,
                        h,
                    )),
            decreases self.items.len() - i,
        {
            let item: DialogItem = self.items[i];
            assert(item == self@.items[i as int]);
            if item.item_type & 0x7f == USER_ITEM && item.proc_ptr == 0 && Self::item_at(
                &item,
                self.bounds.0,
                self.bounds.1,
                v,
                h,
            ) {
                return true;
            }
            i += 1;
        }
        false
    }
}

} // verus!
