use vstd::prelude::*;

use crate::host::{front_position, remapped, rescaled};
use crate::memory::{group_memory_bytes, group_memory_lengths};
use crate::runner::RunnerView;
use crate::trap::{with_key, DispView, GuestWindow};

verus! {

broadcast use group_memory_lengths;

/// A key that is pressed sets its bit of the key map and no other, one that is released
/// clears it; either queues an event behind the others, with the key and its character as
/// its message and the mouse where it is.
pub proof fn lemma_key_event(d: DispView, key: u8, char_code: u8, down: bool, k: int)
    requires
        d.key_map.len() == 16,
        key < 128,
        0 <= k < 128,
    ensures
        ({
            let e = with_key(d, key, char_code, down);
            let bit = 1u8 << ((k % 8) as u8);
            let last = e.event_queue.last();
            &&& e.key_map.len() == 16
            &&& k == key ==> (e.key_map[k / 8] & bit != 0 <==> down)
            &&& k != key ==> (e.key_map[k / 8] & bit != 0 <==> d.key_map[k / 8] & bit != 0)
            &&& e.event_queue.drop_last() == d.event_queue
            &&& e.event_queue.len() == d.event_queue.len() + 1
            &&& last.what == (if down { 3u16 } else { 4u16 })
            &&& last.message == key * 0x100 + char_code
            &&& last.where_v == d.mouse_pos.0
            &&& last.where_h == d.mouse_pos.1
            &&& e.mouse_pos == d.mouse_pos
            &&& e.mouse_button == d.mouse_button
        }),
{
    let i = (key / 8) as int;
    let x = d.key_map[i];
    let m = (key % 8) as u8;
    let n = (k % 8) as u8;
    assert(n < 8 && m < 8 && n == m ==> (x | (1u8 << m)) & (1u8 << n) != 0 && (x & !(1u8 << m)) & (1u8 << n) == 0)
        by (bit_vector);
    assert(n < 8 && m < 8 && n != m ==> ((x | (1u8 << m)) & (1u8 << n) != 0 <==> x & (1u8 << n) != 0) && ((x & !(1u8 << m)) & (
    1u8 << n) != 0 <==> x & (1u8 << n) != 0)) by (bit_vector);
    assert(with_key(d, key, char_code, down).event_queue.drop_last() =~= d.event_queue);
}

/// A click that nobody sleeps for queues one event at the point of the click, moves the
/// mouse there and shows the button's state, in the Toolbox and in low memory.
pub proof fn lemma_mouse_click(s: RunnerView, v: i16, h: i16, down: bool)
    requires
        s.disp.pending_wait_next_event_return is None,
        0x1000 <= s.bus.mem.len() <= 0x1_0000_0000,
    ensures
        ({
            let t = s.mouse_clicked(v, h, down);
            let last = t.disp.event_queue.last();
            &&& t.disp.event_queue.len() == s.disp.event_queue.len() + 1
            &&& t.disp.event_queue.drop_last() == s.disp.event_queue
            &&& last.what == (if down { 1u16 } else { 2u16 })
            &&& last.where_v == v
            &&& last.where_h == h
            &&& last.message == 0
            &&& t.disp.mouse_pos == (v, h)
            &&& t.disp.mouse_button == down
            &&& t.bus.get_byte(0x172) == if down { 0u8 } else { 0x80u8 }
        }),
{
    reveal(RunnerView::mouse_clicked);
    reveal(RunnerView::input_offered);
    reveal(crate::host::with_mouse);
    broadcast use group_memory_bytes;

    assert(s.mouse_clicked(v, h, down).disp.event_queue.drop_last() =~= s.disp.event_queue);
}

/// A move of the mouse queues no event; the mouse is where it was moved to.
pub proof fn lemma_mouse_move(s: RunnerView, v: i16, h: i16)
    requires
        s.disp.pending_wait_next_event_return is None,
    ensures
        ({
            let t = s.mouse_moved(v, h);
            &&& t.disp.mouse_pos == (v, h)
            &&& t.disp.event_queue == s.disp.event_queue
            &&& t.disp.mouse_button == s.disp.mouse_button
            &&& t.bus == crate::host::with_mouse(s.bus, v, h)
        }),
{
    reveal(RunnerView::mouse_moved);
    reveal(DispView::polled);
}

/// With the arrow keys as keys of the numeric keypad, left, right, down and up are the
/// digits 4, 6, 5 and 8; other keys are themselves, and all are without that setting.
pub proof fn lemma_arrow_keys(key: u8, char_code: u8)
    ensures
        remapped(false, key, char_code) == (key, char_code),
        key < 0x7B || key > 0x7E ==> remapped(true, key, char_code) == (key, char_code),
        0x7B <= key <= 0x7E ==> {
            let (k, c) = remapped(true, key, char_code);
            let digit = c - 0x30;
            &&& digit == if key == 0x7B {
                4int
            } else if key == 0x7C {
                6int
            } else if key == 0x7D {
                5int
            } else {
                8int
            }
            &&& k == if digit == 8 { 0x5Bint } else { 0x52 + digit }
        },
{
}

/// What is left of a tick at one rate is the same share of it at another, cut toward zero:
/// there and back it is at most what it was.
pub proof fn lemma_rate_change_keeps_share(left: i32, old_rate: u32, new_rate: u32)
    requires
        1 <= old_rate <= 0x7fff_ffff,
        1 <= new_rate <= 0x7fff_ffff,
        0 <= left <= old_rate,
    ensures
        rescaled(left, old_rate, new_rate) * old_rate <= left * new_rate,
        left * new_rate < (rescaled(left, old_rate, new_rate) + 1) * old_rate,
        left > 0 ==> rescaled((-left) as i32, old_rate, new_rate) == -rescaled(left, old_rate, new_rate),
        rescaled(left, old_rate, old_rate) == left,
{
    let n = new_rate as int;
    let o = old_rate as int;
    let x = left as int;
    let q = x * n / o;
    assert(0 <= q <= n && q * o <= x * n && x * n < (q + 1) * o) by (nonlinear_arith)
        requires
            0 <= x <= o,
            1 <= o,
            1 <= n,
            q == x * n / o,
    ;
    assert(x * o / o == x) by (nonlinear_arith)
        requires
            1 <= o,
            0 <= x,
    ;
}

/// The front window is the first visible one.
pub proof fn lemma_front_window(d: DispView, i: int)
    requires
        0 <= i < d.windows.len(),
        d.windows[i].visible,
        forall|j: int| 0 <= j < i ==> !(#[trigger] d.windows[j]).visible,
    ensures
        d.front() == (d.windows[i].ptr, d.windows[i].bounds),
{
    lemma_front_position(d.windows, 0, i);
}

proof fn lemma_front_position(windows: Seq<GuestWindow>, from: int, i: int)
    requires
        0 <= from <= i < windows.len(),
        windows[i].visible,
        forall|j: int| 0 <= j < i ==> !(#[trigger] windows[j]).visible,
    ensures
        front_position(windows, from) == Some(i),
    decreases i - from,
{
    if from < i {
        lemma_front_position(windows, from + 1, i);
    }
}

} // verus!
