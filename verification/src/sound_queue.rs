use vstd::prelude::*;

use crate::memory::{bytes_at, group_memory_lengths, BusView, MacMemoryBus};
use crate::sound::{
    ChannelView, PendingSoundCallback, SndChannel, SndCommand, SoundManager, SoundView, CALLBACK_CMD, OUTPUT_RATE,
};

verus! {

broadcast use group_memory_lengths;

/// Where a channel record holds the procedure that its callbacks go to.
pub const CHANNEL_CALLBACK: u32 = 8;
/// Where it holds the command that is in progress.
pub const CHANNEL_COMMAND: u32 = 20;
/// Where it says for how many commands its queue has room.
pub const QUEUE_LENGTH: u32 = 30;
/// Where it says which command comes next.
pub const QUEUE_HEAD: u32 = 32;
/// Where it says behind which command the queue ends.
pub const QUEUE_TAIL: u32 = 34;
/// Where its queue stands.
pub const QUEUE: u32 = 36;
/// The largest queue.
pub const LONGEST_QUEUE: u16 = 128;
/// The Sound Manager command that empties the queue.
pub const FLUSH_CMD: u16 = 4;
/// The Sound Manager command that plays the samples behind a sound header.
pub const BUFFER_CMD: u16 = 81;
/// Where a sound header says how many samples it has.
pub const HEADER_LENGTH: u32 = 4;
/// Where it holds the sample rate.
pub const HEADER_RATE: u32 = 8;
/// Where it says how its samples are coded.
pub const HEADER_CODING: u32 = 20;
/// Where its own samples begin.
pub const HEADER_SAMPLES: u32 = 22;

/// The queue of the channel record at `ptr` holds a command.
pub open spec fn holds_command(b: BusView, ptr: u32) -> bool {
    let length = b.get_word(ptr.wrapping_add(QUEUE_LENGTH));
    let head = b.get_word(ptr.wrapping_add(QUEUE_HEAD));
    let tail = b.get_word(ptr.wrapping_add(QUEUE_TAIL));
    length <= LONGEST_QUEUE && head < length && tail < length && head != tail
}

/// The next command of that queue.
pub open spec fn next_command(b: BusView, ptr: u32) -> SndCommand {
    let at = ptr.wrapping_add(QUEUE).wrapping_add((b.get_word(ptr.wrapping_add(QUEUE_HEAD)) as u32).wrapping_mul(8));
    SndCommand {
        cmd: b.get_word(at),
        param1: b.get_word(at.wrapping_add(2)) as i16,
        param2: b.get_long(at.wrapping_add(4)),
    }
}

/// Memory after that command was taken out of the queue.
pub open spec fn command_taken(b: BusView, ptr: u32) -> BusView {
    let length = b.get_word(ptr.wrapping_add(QUEUE_LENGTH));
    let head = b.get_word(ptr.wrapping_add(QUEUE_HEAD));
    b.word(ptr.wrapping_add(QUEUE_HEAD), if head + 1 >= length { 0 } else { (head + 1) as u16 })
}

/// How many of `n` bytes from `at` on lie in RAM.
pub open spec fn in_ram(b: BusView, at: u32, n: u32) -> nat {
    if at >= b.mem.len() {
        0
    } else if n <= b.mem.len() - at {
        n as nat
    } else {
        (b.mem.len() - at) as nat
    }
}

/// The samples of the sound header at `h`, as far as they lie in RAM: its own, or those
/// that it points to. Only samples of one byte are played.
pub open spec fn header_samples(b: BusView, h: u32) -> Seq<u8> {
    let base = b.get_long(h);
    let at = if base == 0 { h.wrapping_add(HEADER_SAMPLES) } else { base };
    if b.get_byte(h.wrapping_add(HEADER_CODING)) == 0 {
        bytes_at(b.mem, at, in_ram(b, at, b.get_long(h.wrapping_add(HEADER_LENGTH))))
    } else {
        Seq::empty()
    }
}

/// A channel, the callbacks that are owed, and memory.
pub struct QueueView {
    pub channel: ChannelView,
    pub owed: Seq<PendingSoundCallback>,
    pub bus: BusView,
}

impl QueueView {
    /// There is a command that can be carried out now: the channel belongs to the guest
    /// and has nothing else to do.
    pub open spec fn ready(self) -> bool {
        let c = self.channel;
        !c.internal && c.guest_ptr != 0 && !c.live() && holds_command(self.bus, c.guest_ptr)
    }

    /// What follows when `cmd` is carried out.
    pub open spec fn obeyed(self, cmd: SndCommand) -> QueueView {
        let ptr = self.channel.guest_ptr;
        let callback_addr = self.bus.get_long(ptr.wrapping_add(CHANNEL_CALLBACK));
        if cmd.cmd == CALLBACK_CMD && callback_addr != 0 {
            QueueView {
                owed: self.owed.push(PendingSoundCallback::Command { callback_addr, chan_ptr: ptr, cmd }),
                ..self
            }
        } else if cmd.cmd == FLUSH_CMD {
            QueueView {
                bus: self.bus.word(ptr.wrapping_add(QUEUE_HEAD), self.bus.get_word(ptr.wrapping_add(QUEUE_TAIL))),
                ..self
            }
        } else if cmd.cmd == BUFFER_CMD {
            let samples = header_samples(self.bus, cmd.param2);
            QueueView {
                channel: ChannelView {
                    samples,
                    position: 0,
                    step: self.bus.get_long(cmd.param2.wrapping_add(HEADER_RATE)) / OUTPUT_RATE,
                    playing: samples.len() > 0,
                    ..self.channel
                },
                ..self
            }
        } else {
            self
        }
    }

    /// What follows when the next command is carried out.
    pub open spec fn advanced(self) -> QueueView {
        QueueView { bus: command_taken(self.bus, self.channel.guest_ptr), ..self }.obeyed(
            next_command(self.bus, self.channel.guest_ptr),
        )
    }

    /// What follows when the commands are carried out, at most `n`, until the channel has
    /// something to do.
    pub open spec fn served(self, n: nat) -> QueueView
        decreases n,
    {
        if n == 0 || !self.ready() {
            self
        } else {
            self.advanced().served((n - 1) as nat)
        }
    }
}

impl SoundView {
    /// Channel `i` with what it shares with the others.
    pub open spec fn queue(self, b: BusView, i: int) -> QueueView {
        QueueView { channel: self.channels[i], owed: self.pending_sound_callbacks, bus: b }
    }

    /// Channel `i` as `q` has it.
    pub open spec fn with_queue(self, i: int, q: QueueView) -> SoundView {
        SoundView { channels: self.channels.update(i, q.channel), pending_sound_callbacks: q.owed, ..self }
    }

    /// The channels and memory after the queues of the first `n` channels were served.
    pub open spec fn queues_served(self, b: BusView, n: nat) -> (SoundView, BusView)
        decreases n,
    {
        if n == 0 {
            (self, b)
        } else {
            let (s, c) = self.queues_served(b, (n - 1) as nat);
            let q = s.queue(c, n - 1).served(LONGEST_QUEUE as nat);
            (s.with_queue(n - 1, q), q.bus)
        }
    }

    /// Memory after the first `n` channels have shown which command they carry out.
    pub open spec fn states_shown(self, b: BusView, n: nat) -> BusView
        decreases n,
    {
        if n == 0 {
            b
        } else {
            let d = self.states_shown(b, (n - 1) as nat);
            let c = self.channels[n - 1];
            if c.internal || c.guest_ptr == 0 {
                d
            } else {
                d.word(c.guest_ptr.wrapping_add(CHANNEL_COMMAND), if c.live() { BUFFER_CMD } else { 0 })
            }
        }
    }
}

/// Only memory was written to.
pub open spec fn only_written(a: BusView, b: BusView) -> bool {
    b == (BusView { mem: b.mem, ..a }) && b.mem.len() == a.mem.len()
}

proof fn lemma_served(q: QueueView, n: nat)
    ensures
        only_written(q.bus, q.served(n).bus),
    decreases n,
{
    if n > 0 && q.ready() {
        lemma_served(q.advanced(), (n - 1) as nat);
    }
}

/// Serving the queues keeps the number of channels, and changes memory alone outside the
/// channels.
pub proof fn lemma_queues_served(s: SoundView, b: BusView, n: nat)
    requires
        n <= s.channels.len(),
    ensures
        ({
            let (t, c) = s.queues_served(b, n);
            &&& only_written(b, c)
            &&& t.channels.len() == s.channels.len()
            &&& t == (SoundView {
                channels: t.channels,
                pending_sound_callbacks: t.pending_sound_callbacks,
                ..s
            })
            &&& forall|i: int| n <= i < s.channels.len() ==> t.channels[i] == s.channels[i]
        }),
    decreases n,
{
    if n > 0 {
        lemma_queues_served(s, b, (n - 1) as nat);
        let (t, c) = s.queues_served(b, (n - 1) as nat);
        lemma_served(t.queue(c, n - 1), LONGEST_QUEUE as nat);
    }
}

/// Showing the state of the channels changes memory alone.
pub proof fn lemma_states_shown(s: SoundView, b: BusView, n: nat)
    ensures
        only_written(b, s.states_shown(b, n)),
    decreases n,
{
    if n > 0 {
        lemma_states_shown(s, b, (n - 1) as nat);
    }
}

fn read_command(bus: &MacMemoryBus, ptr: u32) -> (r: SndCommand)
    ensures
        r == next_command(bus@, ptr),
{
    let head: u16 = bus.read_word(ptr.wrapping_add(QUEUE_HEAD));
    let at: u32 = ptr.wrapping_add(QUEUE).wrapping_add((head as u32).wrapping_mul(8));
    SndCommand {
        cmd: bus.read_word(at),
        param1: bus.read_word(at.wrapping_add(2)) as i16,
        param2: bus.read_long(at.wrapping_add(4)),
    }
}

fn has_command(bus: &MacMemoryBus, ptr: u32) -> (r: bool)
    ensures
        r == holds_command(bus@, ptr),
{
    let length: u16 = bus.read_word(ptr.wrapping_add(QUEUE_LENGTH));
    let head: u16 = bus.read_word(ptr.wrapping_add(QUEUE_HEAD));
    let tail: u16 = bus.read_word(ptr.wrapping_add(QUEUE_TAIL));
    length <= LONGEST_QUEUE && head < length && tail < length && head != tail
}

fn take_command(bus: &mut MacMemoryBus, ptr: u32)
    requires
        holds_command(old(bus)@, ptr),
    ensures
        final(bus)@ == command_taken(old(bus)@, ptr),
        old(bus).probe_wf() ==> final(bus).probe_wf(),
{
    let length: u16 = bus.read_word(ptr.wrapping_add(QUEUE_LENGTH));
    let head: u16 = bus.read_word(ptr.wrapping_add(QUEUE_HEAD));
    let next: u16 = if head + 1 >= length { 0 } else { head + 1 };
    bus.write_word(ptr.wrapping_add(QUEUE_HEAD), next);
}

fn read_samples(bus: &MacMemoryBus, h: u32) -> (r: Vec<u8>)
    requires
        bus.wf(),
    ensures
        r@ == header_samples(bus@, h),
{
    if bus.read_byte(h.wrapping_add(HEADER_CODING)) != 0 {
        let none: Vec<u8> = Vec::new();
        assert(none@ =~= header_samples(bus@, h));
        return none;
    }
    let base: u32 = bus.read_long(h);
    let at: u32 = if base == 0 { h.wrapping_add(HEADER_SAMPLES) } else { base };
    let n: u32 = bus.read_long(h.wrapping_add(HEADER_LENGTH));
    let size: u64 = bus.ram_bytes();
    let room: u64 = if at as u64 >= size { 0 } else { size - at as u64 };
    let k: u64 = if n as u64 <= room { n as u64 } else { room };
    bus.read_bytes(at, k as usize)
}

impl SndChannel {
    /// Whether there is a command in the channel's own queue that can be carried out.
    fn is_ready(&self, bus: &MacMemoryBus) -> (r: bool)
        ensures
            r == (QueueView { channel: self@, owed: Seq::empty(), bus: bus@ }).ready(),
    {
        let live: bool = self.playing || match self.double_buffer {
            Some(db) => !db.last_buffer_seen,
            None => false,
        };
        !self.internal && self.guest_ptr != 0 && !live && has_command(bus, self.guest_ptr)
    }
}

impl SoundManager {
    fn obey(&mut self, bus: &mut MacMemoryBus, i: usize, cmd: SndCommand)
        requires
            i < old(self).channels.len(),
            old(bus).wf(),
        ensures
            ({
                let q = old(self)@.queue(old(bus)@, i as int).obeyed(cmd);
                &&& final(self)@ == old(self)@.with_queue(i as int, q)
                &&& final(bus)@ == q.bus
            }),
            final(self).channels.len() == old(self).channels.len(),
            final(bus).wf(),
    {
        let ptr: u32 = self.channels[i].guest_ptr;
        let callback_addr: u32 = bus.read_long(ptr.wrapping_add(CHANNEL_CALLBACK));
        if cmd.cmd == CALLBACK_CMD && callback_addr != 0 {
            self.pending_sound_callbacks.push(PendingSoundCallback::Command { callback_addr, chan_ptr: ptr, cmd });
        } else if cmd.cmd == FLUSH_CMD {
            let tail: u16 = bus.read_word(ptr.wrapping_add(QUEUE_TAIL));
            bus.write_word(ptr.wrapping_add(QUEUE_HEAD), tail);
        } else if cmd.cmd == BUFFER_CMD {
            let samples: Vec<u8> = read_samples(bus, cmd.param2);
            let rate: u32 = bus.read_long(cmd.param2.wrapping_add(HEADER_RATE));
            self.channels[i].play_buffer(samples, rate);
        }
        proof {
            let q = old(self)@.queue(old(bus)@, i as int).obeyed(cmd);
            assert(self@.channels =~= old(self)@.with_queue(i as int, q).channels);
        }
    }

    fn serve_queue(&mut self, bus: &mut MacMemoryBus, i: usize)
        requires
            i < old(self).channels.len(),
            old(bus).wf(),
        ensures
            ({
                let q = old(self)@.queue(old(bus)@, i as int).served(LONGEST_QUEUE as nat);
                &&& final(self)@ == old(self)@.with_queue(i as int, q)
                &&& final(bus)@ == q.bus
            }),
            final(self).channels.len() == old(self).channels.len(),
            final(bus).wf(),
    {
        let mut left: u16 = LONGEST_QUEUE;
        let ghost first = self@.queue(bus@, i as int);
        proof {
            assert(self@.channels =~= self@.with_queue(i as int, first).channels);
        }
        while left > 0 && self.channels[i].is_ready(bus)
            invariant
                i < self.channels.len(),
                self.channels.len() == old(self).channels.len(),
                bus.wf(),
                self@ == old(self)@.with_queue(i as int, self@.queue(bus@, i as int)),
                first == old(self)@.queue(old(bus)@, i as int),
                first.served(LONGEST_QUEUE as nat) == self@.queue(bus@, i as int).served(left as nat),
            decreases left,
        {
            let ghost q = self@.queue(bus@, i as int);
            let ghost before = self@;
            let ptr: u32 = self.channels[i].guest_ptr;
            let cmd: SndCommand = read_command(bus, ptr);
            take_command(bus, ptr);
            self.obey(bus, i, cmd);
            left = left - 1;
            proof {
                let r = q.advanced();
                assert(self@ == before.with_queue(i as int, r));
                assert(self@.queue(bus@, i as int) == r);
                assert(self@.channels =~= old(self)@.with_queue(i as int, r).channels);
            }
        }
        proof {
            let q = self@.queue(bus@, i as int);
            assert(q.served(left as nat) == q);
        }
    }

    /// Carries out the commands that the guest has put into its channels' own queues.
    pub fn service_guest_queues(&mut self, bus: &mut MacMemoryBus)
        requires
            old(bus).wf(),
        ensures
            (final(self)@, final(bus)@) == old(self)@.queues_served(old(bus)@, old(self)@.channels.len()),
            final(bus).wf(),
    {
        let n: usize = self.channels.len();
        let mut i: usize = 0;
        while i < n
            invariant
                i <= n,
                n == self.channels.len() == old(self).channels.len(),
                bus.wf(),
                (self@, bus@) == old(self)@.queues_served(old(bus)@, i as nat),
            decreases n - i,
        {
            self.serve_queue(bus, i);
            i += 1;
        }
    }

    /// Shows the guest, in its channel records, which command each channel carries out.
    pub fn show_channel_states(&self, bus: &mut MacMemoryBus)
        requires
            old(bus).wf(),
        ensures
            final(bus)@ == self@.states_shown(old(bus)@, self@.channels.len()),
            final(bus).wf(),
    {
        let mut i: usize = 0;
        while i < self.channels.len()
            invariant
                i <= self.channels.len(),
                bus.wf(),
                bus@ == self@.states_shown(old(bus)@, i as nat),
            decreases self.channels.len() - i,
        {
            let c: &SndChannel = &self.channels[i];
            let live: bool = c.playing || match c.double_buffer {
                Some(db) => !db.last_buffer_seen,
                None => false,
            };
            if !c.internal && c.guest_ptr != 0 {
                bus.write_word(c.guest_ptr.wrapping_add(CHANNEL_COMMAND), if live { BUFFER_CMD } else { 0 });
            }
            i += 1;
        }
    }
}

} // verus!
