use vstd::prelude::*;
use vstd::string::*;

use crate::text::{hex, push_hex};

verus! {

/// Most instructions that run between two looks at the pending work.
pub const BATCH_CHUNK: usize = 8192;
/// Seconds from the start of 1904, which guest clocks count from, to the start
/// of 1970, which host clocks count from.
pub const MAC_EPOCH_OFFSET_FROM_UNIX: u64 = 2_082_844_800;

/// The instruction word of a trap without its bit that pops a return address.
pub open spec fn without_auto_pop(opcode: u16) -> u16 {
    opcode & 0xFBFF
}

/// Whether wait loops are skipped. Switching it off goes before switching it on;
/// without either, wait loops are skipped unless a visible screen could fall
/// behind.
pub open spec fn spin_gate(force_on: bool, force_off: bool, yield_for_ui: bool, has_tick_cap: bool) -> bool {
    !force_off && (force_on || !yield_for_ui || has_tick_cap)
}

/// Whether wait loops are skipped.
pub fn spin_wait_fastfwd_gate(force_on: bool, force_off: bool, yield_for_ui: bool, has_tick_cap: bool) -> (r: bool)
    ensures
        r == spin_gate(force_on, force_off, yield_for_ui, has_tick_cap),
{
    if force_off {
        return false;
    }
    if force_on {
        return true;
    }
    !yield_for_ui || has_tick_cap
}

/// Whether `ModalDialog` would do nothing if it ran again.
pub fn modaldialog_refire_is_noop(
    yield_for_ui: bool,
    has_tracking: bool,
    filter_allows_noop: bool,
    flash_remaining_zero: bool,
    draw_procs_done: bool,
    rendered_pixels_final: bool,
    event_queue_empty: bool,
) -> (r: bool)
    ensures
        r == (!yield_for_ui && has_tracking && filter_allows_noop && flash_remaining_zero && draw_procs_done
            && rendered_pixels_final && event_queue_empty),
{
    !yield_for_ui && has_tracking && filter_allows_noop && flash_remaining_zero && draw_procs_done
        && rendered_pixels_final && event_queue_empty
}

/// Tracking that holds the clock: menus and controls, not dialogs.
pub open spec fn freezes_ticks(opcode: u16) -> bool {
    let trap = without_auto_pop(opcode);
    trap == 0xA93D || trap == 0xA80B || trap == 0xA968
}

/// Whether tracking by this trap holds the clock.
pub fn tracking_refire_should_freeze_ticks(opcode: u16) -> (r: bool)
    ensures
        r == freezes_ticks(opcode),
{
    let trap: u16 = opcode & 0xFBFF;
    trap == 0xA93D || trap == 0xA80B || trap == 0xA968
}

/// A trap word taken apart: whether it is a Toolbox trap, and its number.
pub open spec fn trap_number(opcode: u16) -> (bool, u16) {
    if opcode & 0x0800 != 0 {
        (true, opcode & 0x03FF)
    } else {
        (false, opcode & 0x00FF)
    }
}

/// A trap word taken apart: whether it is a Toolbox trap, and its number.
pub fn canonical_trap_number(opcode: u16) -> (r: (bool, u16))
    ensures
        r == trap_number(opcode),
{
    if opcode & 0x0800 != 0 {
        (true, opcode & 0x03FF)
    } else {
        (false, opcode & 0x00FF)
    }
}

/// Traps whose service costs no extra time: event and time polling, delays, and
/// arithmetic.
pub open spec fn free_trap(tool: bool, number: u16) -> bool {
    ||| number == 0x3B
    ||| !tool && number == 0x31
    ||| tool && (number == 0x170 || number == 0x60 || number == 0x171 || number == 0x175 || number == 0x62 || number
        == 0x6C || number == 0x6E || number == 0x1EB || number == 0x1EC)
}

/// Traps that move much data: copying pixels, drawing pictures, loading
/// resources.
pub open spec fn heavy_trap(number: u16) -> bool {
    number == 0xEC || number == 0xF6 || number == 0x1A0 || number == 0x1A1 || number == 0x1A2 || number == 0x1BC
}

/// The time that serving a trap takes, in instructions beyond the trap itself.
pub open spec fn trap_cost(opcode: u16) -> i32 {
    let (tool, number) = trap_number(opcode);
    if free_trap(tool, number) {
        0
    } else if !tool {
        2
    } else if heavy_trap(number) {
        96
    } else if 0x19D <= number <= 0x1CF {
        24
    } else {
        4
    }
}

/// The time that serving a trap takes, in instructions beyond the trap itself.
pub fn hle_trap_extra_tick_cost(opcode: u16) -> (r: i32)
    ensures
        r == trap_cost(opcode),
{
    let (tool, number): (bool, u16) = canonical_trap_number(opcode);
    if number == 0x3B {
        return 0;
    }
    if !tool {
        return if number == 0x31 { 0 } else { 2 };
    }
    match number {
        0x170 | 0x60 | 0x171 | 0x175 | 0x62 => 0,
        0x6C | 0x6E | 0x1EB | 0x1EC => 0,
        0xEC | 0xF6 => 96,
        0x1A0 | 0x1A1 | 0x1A2 | 0x1BC => 96,
        _ => if 0x19D <= number && number <= 0x1CF { 24 } else { 4 },
    }
}

/// Traps in which an application gives up the processor: `GetNextEvent`,
/// `WaitNextEvent` and `EventAvail`.
pub open spec fn event_yield(opcode: u16) -> bool {
    let (tool, number) = trap_number(opcode);
    tool && (number == 0x170 || number == 0x60 || number == 0x171)
}

/// Whether the application gives up the processor in this trap.
pub fn event_manager_yield_trap(opcode: u16) -> (r: bool)
    ensures
        r == event_yield(opcode),
{
    let (tool, number): (bool, u16) = canonical_trap_number(opcode);
    tool && (number == 0x170 || number == 0x60 || number == 0x171)
}

/// Guest time for a host clock that shows `unix_now` seconds; it stops at the
/// largest value.
pub fn mac_epoch_seconds(unix_now: u64) -> (r: u32)
    ensures
        r == (if unix_now + MAC_EPOCH_OFFSET_FROM_UNIX > u32::MAX {
            u32::MAX as int
        } else {
            unix_now + MAC_EPOCH_OFFSET_FROM_UNIX
        }),
{
    if unix_now > 0xFFFF_FFFF - MAC_EPOCH_OFFSET_FROM_UNIX {
        u32::MAX
    } else {
        (unix_now + MAC_EPOCH_OFFSET_FROM_UNIX) as u32
    }
}

/// Addresses that `GetTrapAddress` stands in for traps of the operating system.
pub open spec fn os_placeholder(pc: u32) -> bool {
    0x00F0_0000 <= pc <= 0x00F0_FFFF
}

/// Addresses that `GetToolTrapAddress` stands in for Toolbox traps.
pub open spec fn tool_placeholder(pc: u32) -> bool {
    0xCAFE_0000 <= pc <= 0xCAFE_03FF
}

/// What is said about an address that stands for a trap.
pub open spec fn placeholder_hint(pc: u32) -> Option<Seq<char>> {
    if os_placeholder(pc) {
        Some(
            "PC matches GetTrapAddress fake-ptr ($A046/$A346/$A746) for trap $"@ + hex((pc - 0x00F0_0000) as nat, 4)
                + " — game likely JMP/JSR'd through the unique-address placeholder. Implementing a re-trap trampoline at the fake-ptr address would unblock this path."@,
        )
    } else if tool_placeholder(pc) {
        Some(
            "PC matches GetToolTrapAddress fake-ptr for trap $"@ + hex((0xA800 + (pc - 0xCAFE_0000)) as nat, 4)
                + " (tool num=$"@ + hex((pc - 0xCAFE_0000) as nat, 3)
                + ") — same trampoline gap as the OS-style fake-ptr range."@,
        )
    } else {
        None
    }
}

/// If `pc` is an address that stands for a trap, says which trap it is.
pub fn decode_fakeptr_pc(pc: u32) -> (r: Option<String>)
    ensures
        r is Some <==> placeholder_hint(pc) is Some,
        r matches Some(s) ==> s@ == placeholder_hint(pc)->0,
{
    let mut s: String = String::new();
    if 0x00F0_0000 <= pc && pc <= 0x00F0_FFFF {
        s.append("PC matches GetTrapAddress fake-ptr ($A046/$A346/$A746) for trap $");
        push_hex(&mut s, pc - 0x00F0_0000, 4);
        s.append(
            " — game likely JMP/JSR'd through the unique-address placeholder. Implementing a re-trap trampoline at the fake-ptr address would unblock this path.",
        );
        assert(s@ =~= placeholder_hint(pc)->0);
        Some(s)
    } else if 0xCAFE_0000 <= pc && pc <= 0xCAFE_03FF {
        s.append("PC matches GetToolTrapAddress fake-ptr for trap $");
        push_hex(&mut s, 0xA800 + (pc - 0xCAFE_0000), 4);
        s.append(" (tool num=$");
        push_hex(&mut s, pc - 0xCAFE_0000, 3);
        s.append(") — same trampoline gap as the OS-style fake-ptr range.");
        assert(s@ =~= placeholder_hint(pc)->0);
        Some(s)
    } else {
        None
    }
}

} // verus!
