use vstd::prelude::*;

use crate::memory::{group_memory_lengths, BusView, MacMemoryBus};
use crate::sound::SndCommand;

verus! {

broadcast use group_memory_lengths;

/// Code that saves D0-D3/A0-A3, calls a routine without arguments, restores the
/// registers and returns. The routine's address goes to offset 6.
pub open spec fn plain_stub(b: BusView, t: u32) -> BusView {
    b.word(t, 0x48E7).word(t.wrapping_add(2), 0xF0F0).word(t.wrapping_add(4), 0x4EB9).word(
        t.wrapping_add(10),
        0x4CDF,
    ).word(t.wrapping_add(12), 0x0F0F).word(t.wrapping_add(14), 0x4E75)
}

/// Code that saves D0-D3/A0-A3, loads an address register by the instruction
/// `load` (its operand goes to offset 6), calls a routine (its address goes to
/// offset 12), restores the registers and returns.
pub open spec fn loading_stub(b: BusView, t: u32, load: u16) -> BusView {
    b.word(t, 0x48E7).word(t.wrapping_add(2), 0xF0F0).word(t.wrapping_add(4), load).word(
        t.wrapping_add(10),
        0x4EB9,
    ).word(t.wrapping_add(16), 0x4CDF).word(t.wrapping_add(18), 0x0F0F).word(t.wrapping_add(20), 0x4E75)
}

/// Code that calls a routine (its address goes to offset 2) and returns.
pub open spec fn call_stub(b: BusView, t: u32) -> BusView {
    b.word(t, 0x4EB9).word(t.wrapping_add(6), 0x4E75)
}

/// Code that saves D0-D3/A0-A3, pushes two longs (offsets 6 and 12), calls a
/// routine (offset 18), sets the stack pointer back (offset 24) whatever the
/// routine left on the stack, restores the registers and returns.
pub open spec fn two_argument_stub(b: BusView, t: u32) -> BusView {
    b.word(t, 0x48E7).word(t.wrapping_add(2), 0xF0F0).word(t.wrapping_add(4), 0x2F3C).word(
        t.wrapping_add(10),
        0x2F3C,
    ).word(t.wrapping_add(16), 0x4EB9).word(t.wrapping_add(22), 0x2E7C).word(t.wrapping_add(28), 0x4CDF).word(
        t.wrapping_add(30),
        0x0F0F,
    ).word(t.wrapping_add(32), 0x4E75)
}

/// The same with one long (offset 6), the routine at offset 12 and the stack
/// pointer at offset 18.
pub open spec fn one_argument_stub(b: BusView, t: u32) -> BusView {
    b.word(t, 0x48E7).word(t.wrapping_add(2), 0xF0F0).word(t.wrapping_add(4), 0x2F3C).word(
        t.wrapping_add(10),
        0x4EB9,
    ).word(t.wrapping_add(16), 0x2E7C).word(t.wrapping_add(22), 0x4CDF).word(t.wrapping_add(24), 0x0F0F).word(
        t.wrapping_add(26),
        0x4E75,
    )
}

/// The stub at `t`, or a new one from `fresh`.
pub open spec fn stub_or(b: BusView, t: u32, fresh: (BusView, u32)) -> (BusView, u32) {
    if t == 0 {
        fresh
    } else {
        (b, t)
    }
}

/// Memory with the cursor-task stub ready to call `addr`, and the stub's address.
#[verifier::opaque]
pub open spec fn cursor_stub(b: BusView, t: u32, addr: u32) -> (BusView, u32) {
    let (n, heap) = b.allocated(16);
    let (b, t) = stub_or(b, t, (plain_stub(heap, n), n));
    (b.long(t.wrapping_add(6), addr), t)
}

/// Memory with the retrace stub ready to call `addr` for a task record.
#[verifier::opaque]
pub open spec fn vbl_stub(b: BusView, t: u32, task: u32, addr: u32) -> (BusView, u32) {
    let (n, arena) = b.stub_allocated(22);
    let (b, t) = stub_or(b, t, (loading_stub(arena, n, 0x207C), n));
    (b.long(t.wrapping_add(6), task).long(t.wrapping_add(12), addr), t)
}

/// Memory with the timer stub ready to call `addr` for a task record.
#[verifier::opaque]
pub open spec fn timer_stub(b: BusView, t: u32, task: u32, addr: u32) -> (BusView, u32) {
    let (n, heap) = b.allocated(24);
    let (b, t) = stub_or(b, t, (loading_stub(heap, n, 0x227C), n));
    (b.long(t.wrapping_add(6), task).long(t.wrapping_add(12), addr), t)
}

/// Memory with the file-completion stub ready to call `addr`.
#[verifier::opaque]
pub open spec fn file_stub(b: BusView, t: u32, addr: u32) -> (BusView, u32) {
    let (n, arena) = b.stub_allocated(8);
    let (b, t) = stub_or(b, t, (call_stub(arena, n), n));
    (b.long(t.wrapping_add(2), addr), t)
}

/// Memory with the sound stub ready to call `addr` for a channel and a command,
/// which is stored behind the code.
#[verifier::opaque]
pub open spec fn sound_stub(b: BusView, t: u32, sp: u32, chan: u32, addr: u32, cmd: SndCommand) -> (BusView, u32) {
    let (n, arena) = b.stub_allocated(42);
    let (b, t) = stub_or(b, t, (two_argument_stub(arena, n), n));
    let c = t.wrapping_add(34);
    (
        b.long(t.wrapping_add(6), chan).long(t.wrapping_add(12), c).long(t.wrapping_add(18), addr).long(
            t.wrapping_add(24),
            sp,
        ).word(c, cmd.cmd).word(c.wrapping_add(2), cmd.param1 as u16).long(c.wrapping_add(4), cmd.param2),
        t,
    )
}

/// Memory with the sound-file stub ready to call `addr` for a channel.
#[verifier::opaque]
pub open spec fn sound_file_stub(b: BusView, t: u32, sp: u32, chan: u32, addr: u32) -> (BusView, u32) {
    let (n, arena) = b.stub_allocated(28);
    let (b, t) = stub_or(b, t, (one_argument_stub(arena, n), n));
    (b.long(t.wrapping_add(6), chan).long(t.wrapping_add(12), addr).long(t.wrapping_add(18), sp), t)
}

/// Memory with the refill stub ready to call `addr` for a channel and a buffer.
#[verifier::opaque]
pub open spec fn doubleback_stub(b: BusView, t: u32, sp: u32, chan: u32, buffer: u32, addr: u32) -> (BusView, u32) {
    let (n, arena) = b.stub_allocated(34);
    let (b, t) = stub_or(b, t, (two_argument_stub(arena, n), n));
    (
        b.long(t.wrapping_add(6), chan).long(t.wrapping_add(12), buffer).long(t.wrapping_add(18), addr).long(
            t.wrapping_add(24),
            sp,
        ),
        t,
    )
}

fn write_plain_stub(bus: &mut MacMemoryBus, t: u32)
    ensures
        final(bus)@ == plain_stub(old(bus)@, t),
        old(bus).probe_wf() ==> final(bus).probe_wf(),
{
    bus.write_word(t, 0x48E7);
    bus.write_word(t.wrapping_add(2), 0xF0F0);
    bus.write_word(t.wrapping_add(4), 0x4EB9);
    bus.write_word(t.wrapping_add(10), 0x4CDF);
    bus.write_word(t.wrapping_add(12), 0x0F0F);
    bus.write_word(t.wrapping_add(14), 0x4E75);
}

fn write_loading_stub(bus: &mut MacMemoryBus, t: u32, load: u16)
    ensures
        final(bus)@ == loading_stub(old(bus)@, t, load),
        old(bus).probe_wf() ==> final(bus).probe_wf(),
{
    bus.write_word(t, 0x48E7);
    bus.write_word(t.wrapping_add(2), 0xF0F0);
    bus.write_word(t.wrapping_add(4), load);
    bus.write_word(t.wrapping_add(10), 0x4EB9);
    bus.write_word(t.wrapping_add(16), 0x4CDF);
    bus.write_word(t.wrapping_add(18), 0x0F0F);
    bus.write_word(t.wrapping_add(20), 0x4E75);
}

fn write_two_argument_stub(bus: &mut MacMemoryBus, t: u32)
    ensures
        final(bus)@ == two_argument_stub(old(bus)@, t),
        old(bus).probe_wf() ==> final(bus).probe_wf(),
{
    bus.write_word(t, 0x48E7);
    bus.write_word(t.wrapping_add(2), 0xF0F0);
    bus.write_word(t.wrapping_add(4), 0x2F3C);
    bus.write_word(t.wrapping_add(10), 0x2F3C);
    bus.write_word(t.wrapping_add(16), 0x4EB9);
    bus.write_word(t.wrapping_add(22), 0x2E7C);
    bus.write_word(t.wrapping_add(28), 0x4CDF);
    bus.write_word(t.wrapping_add(30), 0x0F0F);
    bus.write_word(t.wrapping_add(32), 0x4E75);
}

fn write_one_argument_stub(bus: &mut MacMemoryBus, t: u32)
    ensures
        final(bus)@ == one_argument_stub(old(bus)@, t),
        old(bus).probe_wf() ==> final(bus).probe_wf(),
{
    bus.write_word(t, 0x48E7);
    bus.write_word(t.wrapping_add(2), 0xF0F0);
    bus.write_word(t.wrapping_add(4), 0x2F3C);
    bus.write_word(t.wrapping_add(10), 0x4EB9);
    bus.write_word(t.wrapping_add(16), 0x2E7C);
    bus.write_word(t.wrapping_add(22), 0x4CDF);
    bus.write_word(t.wrapping_add(24), 0x0F0F);
    bus.write_word(t.wrapping_add(26), 0x4E75);
}

/// Makes the stub ready, and gives its address.
pub(crate) fn ready_cursor_stub(bus: &mut MacMemoryBus, t: u32, addr: u32) -> (r: u32)
    ensures
        (final(bus)@, r) == cursor_stub(old(bus)@, t, addr),
        old(bus).probe_wf() ==> final(bus).probe_wf(),
        final(bus)@.mem.len() == old(bus)@.mem.len(),
{
    proof {
        reveal(cursor_stub);
    }
    let mut stub: u32 = t;
    if stub == 0 {
        stub = bus.allocate(16);
        write_plain_stub(bus, stub);
    }
    bus.write_long(stub.wrapping_add(6), addr);
    stub
}

/// Makes the stub ready, and gives its address.
pub(crate) fn ready_vbl_stub(bus: &mut MacMemoryBus, t: u32, task: u32, addr: u32) -> (r: u32)
    ensures
        (final(bus)@, r) == vbl_stub(old(bus)@, t, task, addr),
        old(bus).probe_wf() ==> final(bus).probe_wf(),
        final(bus)@.mem.len() == old(bus)@.mem.len(),
{
    proof {
        reveal(vbl_stub);
    }
    let mut stub: u32 = t;
    if stub == 0 {
        stub = bus.alloc_synthetic(22);
        write_loading_stub(bus, stub, 0x207C);
    }
    bus.write_long(stub.wrapping_add(6), task);
    bus.write_long(stub.wrapping_add(12), addr);
    stub
}

/// Makes the stub ready, and gives its address.
pub(crate) fn ready_timer_stub(bus: &mut MacMemoryBus, t: u32, task: u32, addr: u32) -> (r: u32)
    ensures
        (final(bus)@, r) == timer_stub(old(bus)@, t, task, addr),
        old(bus).probe_wf() ==> final(bus).probe_wf(),
        final(bus)@.mem.len() == old(bus)@.mem.len(),
{
    proof {
        reveal(timer_stub);
    }
    let mut stub: u32 = t;
    if stub == 0 {
        stub = bus.allocate(24);
        write_loading_stub(bus, stub, 0x227C);
    }
    bus.write_long(stub.wrapping_add(6), task);
    bus.write_long(stub.wrapping_add(12), addr);
    stub
}

/// Makes the stub ready, and gives its address.
pub(crate) fn ready_file_stub(bus: &mut MacMemoryBus, t: u32, addr: u32) -> (r: u32)
    ensures
        (final(bus)@, r) == file_stub(old(bus)@, t, addr),
        old(bus).probe_wf() ==> final(bus).probe_wf(),
        final(bus)@.mem.len() == old(bus)@.mem.len(),
{
    proof {
        reveal(file_stub);
    }
    let mut stub: u32 = t;
    if stub == 0 {
        stub = bus.alloc_synthetic(8);
        bus.write_word(stub, 0x4EB9);
        bus.write_word(stub.wrapping_add(6), 0x4E75);
    }
    bus.write_long(stub.wrapping_add(2), addr);
    stub
}

/// Makes the stub ready, and gives its address.
pub(crate) fn ready_sound_stub(bus: &mut MacMemoryBus, t: u32, sp: u32, chan: u32, addr: u32, cmd: SndCommand) -> (r: u32)
    ensures
        (final(bus)@, r) == sound_stub(old(bus)@, t, sp, chan, addr, cmd),
        old(bus).probe_wf() ==> final(bus).probe_wf(),
        final(bus)@.mem.len() == old(bus)@.mem.len(),
{
    proof {
        reveal(sound_stub);
    }
    let mut stub: u32 = t;
    if stub == 0 {
        stub = bus.alloc_synthetic(42);
        write_two_argument_stub(bus, stub);
    }
    let c: u32 = stub.wrapping_add(34);
    bus.write_long(stub.wrapping_add(6), chan);
    bus.write_long(stub.wrapping_add(12), c);
    bus.write_long(stub.wrapping_add(18), addr);
    bus.write_long(stub.wrapping_add(24), sp);
    bus.write_word(c, cmd.cmd);
    bus.write_word(c.wrapping_add(2), cmd.param1 as u16);
    bus.write_long(c.wrapping_add(4), cmd.param2);
    stub
}

/// Makes the stub ready, and gives its address.
pub(crate) fn ready_sound_file_stub(bus: &mut MacMemoryBus, t: u32, sp: u32, chan: u32, addr: u32) -> (r: u32)
    ensures
        (final(bus)@, r) == sound_file_stub(old(bus)@, t, sp, chan, addr),
        old(bus).probe_wf() ==> final(bus).probe_wf(),
        final(bus)@.mem.len() == old(bus)@.mem.len(),
{
    proof {
        reveal(sound_file_stub);
    }
    let mut stub: u32 = t;
    if stub == 0 {
        stub = bus.alloc_synthetic(28);
        write_one_argument_stub(bus, stub);
    }
    bus.write_long(stub.wrapping_add(6), chan);
    bus.write_long(stub.wrapping_add(12), addr);
    bus.write_long(stub.wrapping_add(18), sp);
    stub
}

/// Makes the stub ready, and gives its address.
pub(crate) fn ready_doubleback_stub(bus: &mut MacMemoryBus, t: u32, sp: u32, chan: u32, buffer: u32, addr: u32) -> (r: u32)
    ensures
        (final(bus)@, r) == doubleback_stub(old(bus)@, t, sp, chan, buffer, addr),
        old(bus).probe_wf() ==> final(bus).probe_wf(),
        final(bus)@.mem.len() == old(bus)@.mem.len(),
{
    proof {
        reveal(doubleback_stub);
    }
    let mut stub: u32 = t;
    if stub == 0 {
        stub = bus.alloc_synthetic(34);
        write_two_argument_stub(bus, stub);
    }
    bus.write_long(stub.wrapping_add(6), chan);
    bus.write_long(stub.wrapping_add(12), buffer);
    bus.write_long(stub.wrapping_add(18), addr);
    bus.write_long(stub.wrapping_add(24), sp);
    stub
}

} // verus!
