use vstd::prelude::*;

use crate::globals::{DEVICE_LIST, MAIN_DEVICE, SOUND_BASE, THE_GDEVICE};
use crate::memory::{group_memory_lengths, BusView, MacMemoryBus};

verus! {

broadcast use group_memory_lengths;

/// Bytes at the top of RAM that the screen takes.
pub const SCREEN_RESERVE: u32 = 0x0008_0000;
pub const SCREEN_WIDTH: u16 = 800;
pub const SCREEN_HEIGHT: u16 = 600;
pub const SCREEN_DEPTH: u16 = 8;
/// Bytes of all rows of the screen.
pub const SCREEN_BYTES: u32 = 480_000;
/// Bytes of the sound buffer behind them.
pub const SOUND_BUFFER_BYTES: u32 = 740;
/// Bytes of a graphics device record.
pub const GDEVICE_SIZE: u32 = 62;
/// Bytes of a pixel map record.
pub const PIXMAP_SIZE: u32 = 50;

/// The screen: where its pixels are, its measures, and whether the menu bar is
/// kept off it.
#[derive(Clone, Copy, Debug, PartialEq, Eq)]
pub struct Screen {
    pub base: u32,
    pub row_bytes: u32,
    pub width: u16,
    pub height: u16,
    pub pixel_size: u16,
    pub menu_bar_hidden: bool,
    /// Handle to the main graphics device; 0 before there is one.
    pub gdevice: u32,
}

/// The screen before an application was started.
pub open spec fn fresh_screen() -> Screen {
    Screen { base: 0, row_bytes: 0, width: 0, height: 0, pixel_size: 0, menu_bar_hidden: true, gdevice: 0 }
}

/// Where the pixels are.
pub open spec fn screen_base(ram: u32) -> u32 {
    if ram < SCREEN_RESERVE {
        0
    } else {
        (ram - SCREEN_RESERVE) as u32
    }
}

/// A device record at `gd` with a pixel map record at `pm`, and handles to both.
pub open spec fn device_written(b: BusView, gd: u32, gdh: u32, pm: u32, pmh: u32, base: u32) -> BusView {
    b.long(gdh, gd).word(gd.wrapping_add(20), 0x8801).long(gd.wrapping_add(22), pmh).word(gd.wrapping_add(34), 0).word(
        gd.wrapping_add(36),
        0,
    ).word(gd.wrapping_add(38), SCREEN_HEIGHT).word(gd.wrapping_add(40), SCREEN_WIDTH).long(pmh, pm).long(pm, base).word(
        pm.wrapping_add(4),
        0x8320,
    ).word(pm.wrapping_add(6), 0).word(pm.wrapping_add(8), 0).word(pm.wrapping_add(10), SCREEN_HEIGHT).word(
        pm.wrapping_add(12),
        SCREEN_WIDTH,
    ).word(pm.wrapping_add(32), SCREEN_DEPTH)
}

/// Memory with the main graphics device, and the device's handle. The sound
/// buffer behind the screen is silent.
#[verifier::opaque]
pub open spec fn device_made(b: BusView, gdevice: u32) -> (u32, BusView) {
    if gdevice != 0 {
        (gdevice, b)
    } else {
        let base = screen_base(b.ram_size());
        let (gd, b1) = b.allocated(GDEVICE_SIZE);
        let (gdh, b2) = b1.allocated(4);
        let (pm, b3) = b2.allocated(PIXMAP_SIZE);
        let (pmh, b4) = b3.allocated(4);
        (
            gdh,
            device_written(b4, gd, gdh, pm, pmh, base).long(SOUND_BASE, base.wrapping_add(SCREEN_BYTES)).filled(
                base.wrapping_add(SCREEN_BYTES),
                SOUND_BUFFER_BYTES,
                0x80,
            ),
        )
    }
}

/// A measure between two edges, at least 1.
pub open spec fn extent(low: i16, high: i16) -> u16 {
    if high - low < 1 {
        1
    } else {
        (high - low) as u16
    }
}

impl Screen {
    /// The screen that the device behind `gdh` describes.
    pub open spec fn described(self, b: BusView, gdh: u32) -> Screen {
        let pm = b.get_long(b.get_long(b.get_long(gdh).wrapping_add(22)));
        Screen {
            base: b.get_long(pm),
            row_bytes: (b.get_word(pm.wrapping_add(4)) & 0x3FFF) as u32,
            width: extent(b.get_word(pm.wrapping_add(8)) as i16, b.get_word(pm.wrapping_add(12)) as i16),
            height: extent(b.get_word(pm.wrapping_add(6)) as i16, b.get_word(pm.wrapping_add(10)) as i16),
            pixel_size: b.get_word(pm.wrapping_add(32)),
            gdevice: gdh,
            ..self
        }
    }

    /// The screen with the main graphics device made, and memory with it.
    #[verifier::opaque]
    pub open spec fn made(self, b: BusView) -> (Screen, BusView) {
        let (gdh, b2) = device_made(b, self.gdevice);
        let b3 = b2.long(MAIN_DEVICE, gdh).long(THE_GDEVICE, gdh).long(DEVICE_LIST, gdh);
        (self.described(b3, gdh), b3)
    }

    /// Makes the main graphics device and takes the measures from it.
    pub fn set_up(&mut self, bus: &mut MacMemoryBus)
        ensures
            (*final(self), final(bus)@) == old(self).made(old(bus)@),
            old(bus).probe_wf() ==> final(bus).probe_wf(),
            final(bus)@.mem.len() == old(bus)@.mem.len(),
    {
        proof {
            reveal(Screen::made);
        }
        let gdh: u32 = make_device(bus, self.gdevice);
        bus.write_long(MAIN_DEVICE, gdh);
        bus.write_long(THE_GDEVICE, gdh);
        bus.write_long(DEVICE_LIST, gdh);
        let gd: u32 = bus.read_long(gdh);
        let pm: u32 = bus.read_long(bus.read_long(gd.wrapping_add(22)));
        self.base = bus.read_long(pm);
        self.row_bytes = (bus.read_word(pm.wrapping_add(4)) & 0x3FFF) as u32;
        self.width = measure(bus.read_word(pm.wrapping_add(8)) as i16, bus.read_word(pm.wrapping_add(12)) as i16);
        self.height = measure(bus.read_word(pm.wrapping_add(6)) as i16, bus.read_word(pm.wrapping_add(10)) as i16);
        self.pixel_size = bus.read_word(pm.wrapping_add(32));
        self.gdevice = gdh;
    }
}

fn measure(low: i16, high: i16) -> (r: u16)
    ensures
        r == extent(low, high),
{
    let d: i32 = high as i32 - low as i32;
    if d < 1 {
        1
    } else {
        d as u16
    }
}

fn write_device(bus: &mut MacMemoryBus, gd: u32, gdh: u32, pm: u32, pmh: u32, base: u32)
    ensures
        final(bus)@ == device_written(old(bus)@, gd, gdh, pm, pmh, base),
        old(bus).probe_wf() ==> final(bus).probe_wf(),
        final(bus)@.mem.len() == old(bus)@.mem.len(),
{
    bus.write_long(gdh, gd);
    bus.write_word(gd.wrapping_add(20), 0x8801);
    bus.write_long(gd.wrapping_add(22), pmh);
    bus.write_word(gd.wrapping_add(34), 0);
    bus.write_word(gd.wrapping_add(36), 0);
    bus.write_word(gd.wrapping_add(38), SCREEN_HEIGHT);
    bus.write_word(gd.wrapping_add(40), SCREEN_WIDTH);
    bus.write_long(pmh, pm);
    bus.write_long(pm, base);
    bus.write_word(pm.wrapping_add(4), 0x8320);
    bus.write_word(pm.wrapping_add(6), 0);
    bus.write_word(pm.wrapping_add(8), 0);
    bus.write_word(pm.wrapping_add(10), SCREEN_HEIGHT);
    bus.write_word(pm.wrapping_add(12), SCREEN_WIDTH);
    bus.write_word(pm.wrapping_add(32), SCREEN_DEPTH);
}

fn make_device(bus: &mut MacMemoryBus, gdevice: u32) -> (r: u32)
    ensures
        (r, final(bus)@) == device_made(old(bus)@, gdevice),
        old(bus).probe_wf() ==> final(bus).probe_wf(),
        final(bus)@.mem.len() == old(bus)@.mem.len(),
{
    proof {
        reveal(device_made);
    }
    if gdevice != 0 {
        return gdevice;
    }
    let ram: u32 = bus.ram_size();
    let base: u32 = ram.saturating_sub(SCREEN_RESERVE);
    let gd: u32 = bus.allocate(GDEVICE_SIZE);
    let gdh: u32 = bus.allocate(4);
    let pm: u32 = bus.allocate(PIXMAP_SIZE);
    let pmh: u32 = bus.allocate(4);
    write_device(bus, gd, gdh, pm, pmh, base);
    bus.write_long(SOUND_BASE, base.wrapping_add(SCREEN_BYTES));
    bus.fill_bytes(base.wrapping_add(SCREEN_BYTES), SOUND_BUFFER_BYTES, 0x80);
    gdh
}

/// A row of the gray desktop: every other pixel is black, shifted from row to
/// row.
pub open spec fn gray_row(y: int, width: u16) -> Seq<u8> {
    Seq::new(width as nat, |x: int| if (x + y) % 2 == 0 { 0xFFu8 } else { 0u8 })
}

/// Memory with the first `n` rows of the screen gray.
pub open spec fn gray_rows(b: BusView, s: Screen, n: nat) -> BusView
    decreases n,
{
    if n == 0 {
        b
    } else {
        gray_rows(b, s, (n - 1) as nat).bytes(
            s.base.wrapping_add(s.row_bytes.wrapping_mul((n - 1) as u32)),
            gray_row(n - 1, s.width),
        )
    }
}

/// Memory with the screen as an application finds it: gray with a menu bar,
/// black without.
pub open spec fn screen_cleared(b: BusView, s: Screen) -> BusView {
    if s.menu_bar_hidden {
        b.filled(s.base, s.row_bytes.wrapping_mul(s.height as u32), 0xFF)
    } else {
        gray_rows(b, s, s.height as nat)
    }
}

fn make_gray_row(y: u32, width: u16) -> (r: Vec<u8>)
    ensures
        r@ == gray_row(y as int, width),
{
    let mut out: Vec<u8> = Vec::new();
    let mut x: u16 = 0;
    while x < width
        invariant
            x <= width,
            out@.len() == x,
            forall|k: int| 0 <= k < x ==> out@[k] == gray_row(y as int, width)[k],
        decreases width - x,
    {
        out.push(if (x as u64 + y as u64) % 2 == 0 { 0xFF } else { 0 });
        x += 1;
    }
    assert(out@ =~= gray_row(y as int, width));
    out
}

/// Clears the screen for an application.
pub fn clear_screen(bus: &mut MacMemoryBus, s: &Screen)
    ensures
        final(bus)@ == screen_cleared(old(bus)@, *s),
        old(bus).probe_wf() ==> final(bus).probe_wf(),
        final(bus)@.mem.len() == old(bus)@.mem.len(),
{
    if s.menu_bar_hidden {
        bus.fill_bytes(s.base, s.row_bytes.wrapping_mul(s.height as u32), 0xFF);
        return;
    }
    let mut y: u32 = 0;
    while y < s.height as u32
        invariant
            y <= s.height,
            bus@ == gray_rows(old(bus)@, *s, y as nat),
            old(bus).probe_wf() ==> bus.probe_wf(),
            bus@.mem.len() == old(bus)@.mem.len(),
        decreases s.height - y,
    {
        let row: Vec<u8> = make_gray_row(y, s.width);
        bus.write_bytes(s.base.wrapping_add(s.row_bytes.wrapping_mul(y)), row.as_slice());
        y += 1;
    }
}

} // verus!
