use vstd::prelude::*;

use crate::completions::buffer_slot;
use crate::memory::{BusView, MacMemoryBus};
use crate::runner::{FixtureRunner, RunnerView};
use crate::sound::{
    next_exhaustion, other_buffer, ChannelView, DoubleBufferState, PendingDoubleBackCallback, SndChannel, SoundManager,
    SoundView, DB_BUFFER_READY, DB_LAST_BUFFER, OUTPUT_RATE, SILENCE,
};
use crate::sound_queue::{lemma_states_shown, only_written};
use crate::trap::{DispView, TrapDispatcher};

verus! {

broadcast use crate::trap::group_dispatcher_fields;

/// How many bytes one sample takes.
pub open spec fn sample_bytes(sample_size: u16) -> u32 {
    if sample_size == 16 {
        2
    } else {
        1
    }
}

/// The sample at `at` as an unsigned byte; the high byte of a 16-bit sample is
/// signed.
pub open spec fn sample_at(b: BusView, at: u32, sample_size: u16) -> u8 {
    if sample_size == 16 {
        b.get_byte(at).wrapping_add(0x80)
    } else {
        b.get_byte(at)
    }
}

/// Frame `i` of the samples at `data`; two channels are averaged.
pub open spec fn frame_at(b: BusView, data: u32, i: int, num_channels: u16, sample_size: u16) -> u8 {
    let size = sample_bytes(sample_size);
    if num_channels == 2 {
        let at = data.wrapping_add((2 * size * i) as u32);
        ((sample_at(b, at, sample_size) + sample_at(b, at.wrapping_add(size), sample_size)) / 2) as u8
    } else {
        sample_at(b, data.wrapping_add((size * i) as u32), sample_size)
    }
}

/// How many frames the buffer at `buf` says it holds, no more than RAM has bytes.
pub open spec fn frame_count(b: BusView, buf: u32) -> nat {
    let n = b.get_long(buf);
    if n <= b.mem.len() {
        n as nat
    } else {
        b.mem.len()
    }
}

/// The frames in the buffer at `buf`, behind its 16 bytes of header.
pub open spec fn buffer_frames(b: BusView, buf: u32, num_channels: u16, sample_size: u16) -> Seq<u8> {
    Seq::new(
        frame_count(b, buf),
        |i: int| frame_at(b, buf.wrapping_add(16), i, num_channels, sample_size),
    )
}

/// The buffer at `buf` says that it is ready.
pub open spec fn marked_ready(b: BusView, buf: u32) -> bool {
    buf != 0 && b.get_long(buf.wrapping_add(4)) & DB_BUFFER_READY != 0
}

/// A refill of buffer `index` of the channel is asked for.
pub open spec fn refill_queued(queue: Seq<PendingDoubleBackCallback>, chan: u32, index: u8) -> bool {
    exists|i: int|
        0 <= i < queue.len() && (#[trigger] queue[i]).chan_ptr == chan && queue[i].exhausted_buffer_index == index
}

impl ChannelView {
    /// The channel playing the buffer at `buf`; after the buffer that says it is
    /// the last, no other follows.
    pub open spec fn playing_buffer(self, b: BusView, buf: u32, rate: u32, num_channels: u16, sample_size: u16) -> ChannelView {
        let frames = buffer_frames(b, buf, num_channels, sample_size);
        ChannelView {
            samples: frames,
            position: 0,
            step: rate / OUTPUT_RATE,
            playing: frames.len() > 0,
            double_buffer: match self.double_buffer {
                Some(db) => Some(
                    DoubleBufferState {
                        last_buffer_seen: db.last_buffer_seen || b.get_long(buf.wrapping_add(4)) & DB_LAST_BUFFER != 0,
                        ..db
                    },
                ),
                None => None,
            },
            ..self
        }
    }

    /// Buffer `index` can be played: it is ready and nobody is asked to refill
    /// it.
    pub open spec fn can_load(self, b: BusView, queue: Seq<PendingDoubleBackCallback>, header: u32, index: u8) -> bool {
        &&& marked_ready(b, b.get_long(buffer_slot(header, index)))
        &&& !refill_queued(queue, self.guest_ptr, index)
    }

    /// The buffer that a silent channel can go on with: its current one, or else
    /// the other.
    pub open spec fn loadable(self, b: BusView, queue: Seq<PendingDoubleBackCallback>) -> Option<u8> {
        match self.double_buffer {
            Some(db) if !self.playing && !db.last_buffer_seen => {
                let i = db.current_buffer;
                if self.can_load(b, queue, db.header_ptr, i) {
                    Some(i)
                } else if self.can_load(b, queue, db.header_ptr, other_buffer(i)) {
                    Some(other_buffer(i))
                } else {
                    None
                }
            },
            _ => None,
        }
    }

    /// The channel going on with that buffer.
    pub open spec fn loaded(self, b: BusView, queue: Seq<PendingDoubleBackCallback>) -> ChannelView {
        match self.loadable(b, queue) {
            None => self,
            Some(i) => {
                let db = self.double_buffer->0;
                let c = self.playing_buffer(
                    b,
                    b.get_long(buffer_slot(db.header_ptr, i)),
                    db.sample_rate,
                    db.num_channels,
                    db.sample_size,
                );
                let next = DoubleBufferState { current_buffer: i, ..c.double_buffer->0 }.completed(i);
                ChannelView { double_buffer: Some(next), ..c }
            },
        }
    }
}

impl SoundView {
    /// Every silent channel goes on with a buffer that is ready.
    pub open spec fn loaded(self, b: BusView) -> SoundView {
        SoundView { channels: self.channels.map_values(|c: ChannelView| c.loaded(b, self.pending_callbacks)), ..self }
    }

    /// The library's own channels that have ended are gone.
    pub open spec fn released(self) -> SoundView {
        SoundView { channels: self.channels.filter(|c: ChannelView| !c.internal || c.live()), ..self }
    }

    /// How many of the next `n` frames can be mixed before a channel runs out.
    pub open spec fn next_chunk(self, n: nat) -> nat {
        match next_exhaustion(self.channels, self.channels.len()) {
            Some(k) => if k == 0 && n >= 1 {
                1
            } else if k < n {
                k as nat
            } else {
                n
            },
            None => n,
        }
    }
}

/// One frame of a stereo stream as a mono sample: the mean of both.
pub open spec fn mono(left: u8, right: u8) -> u8 {
    let sum = (left - 0x80) + (right - 0x80);
    (if sum >= 0 {
        0x80 + sum / 2
    } else {
        0x80 - (-sum) / 2
    }) as u8
}

/// A stereo stream as a mono stream.
pub open spec fn mono_stream(stereo: Seq<u8>) -> Seq<u8> {
    Seq::new(stereo.len() / 2, |i: int| mono(stereo[2 * i], stereo[2 * i + 1]))
}

impl RunnerView {
    pub open spec fn with_sound(self, sound: SoundView) -> RunnerView {
        RunnerView { disp: DispView { sound, ..self.disp }, ..self }
    }

    /// The state after silent channels had their chance to go on; while a
    /// callback runs they wait.
    pub open spec fn buffers_loaded(self) -> RunnerView {
        if self.active is Some {
            self
        } else {
            self.with_sound(self.disp.sound.loaded(self.bus))
        }
    }

    /// The state after mixed sound was handed out: to the host where it listens,
    /// and to the mono buffer.
    pub open spec fn sounded(self, stereo: Seq<u8>) -> RunnerView {
        RunnerView {
            host_audio: if self.audio_attached { self.host_audio + stereo } else { self.host_audio },
            audio_buffer: self.audio_buffer + mono_stream(stereo),
            ..self
        }
    }

    /// The state after `n` frames of silence were handed to the host.
    pub open spec fn silenced(self, n: nat) -> RunnerView {
        RunnerView {
            host_audio: if self.audio_attached {
                self.host_audio + Seq::new(2 * n, |i: int| SILENCE)
            } else {
                self.host_audio
            },
            ..self
        }
    }

    /// The state after the frames up to where the first channel runs out were mixed, at
    /// most `n`, and how many of the `n` are left. When nothing sounds any more the rest
    /// is silence.
    pub open spec fn chunk_mixed(self, n: nat) -> (RunnerView, nat) {
        let k = self.disp.sound.next_chunk(n);
        let out = self.disp.sound.mixing(k);
        let t = self.with_sound(self.disp.sound.after_mixing(k));
        let u = t.with_sound(t.disp.sound.released());
        if out.len() == 0 || k == 0 || k > n {
            (u.silenced(n), 0)
        } else {
            (u.sounded(out), (n - k) as nat)
        }
    }

    /// The state after the commands were carried out that the guest has put into its
    /// channels' own queues.
    #[verifier::opaque]
    pub open spec fn queues_served(self) -> RunnerView {
        let (sound, bus) = self.disp.sound.queues_served(self.bus, self.disp.sound.channels.len());
        RunnerView { bus, ..self.with_sound(sound) }
    }

    /// The state after the guest was shown, in its channel records, what each channel
    /// does.
    #[verifier::opaque]
    pub open spec fn channels_shown(self) -> RunnerView {
        RunnerView { bus: self.disp.sound.states_shown(self.bus, self.disp.sound.channels.len()), ..self }
    }

    /// The state after `n` frames were mixed. Channels go on with the next
    /// buffer, or with the commands in their own queues, exactly where the last one
    /// ends; when nothing sounds any more the rest is silence.
    pub open spec fn mixed(self, n: nat) -> RunnerView
        decreases n,
    {
        if n == 0 {
            self
        } else {
            let s = self.buffers_loaded().queues_served();
            let k = s.disp.sound.next_chunk(n);
            let out = s.disp.sound.mixing(k);
            let t = s.with_sound(s.disp.sound.after_mixing(k));
            let u = t.with_sound(t.disp.sound.released());
            if out.len() == 0 || k == 0 || k > n {
                u.silenced(n)
            } else {
                u.sounded(out).mixed((n - k) as nat)
            }
        }
    }

    /// The state after the sound work of a host frame: buffers and queues are looked at,
    /// `n` frames are mixed, the guest is shown what its channels do, and unless one was
    /// called already, a sound callback or a refill is called.
    pub open spec fn audio_finished(self, n: nat, called: bool) -> RunnerView {
        self.buffers_loaded().queues_served().mixed(n).channels_shown().audio_ended(called)
    }

    /// The state after a sound callback or a refill was called, unless one was called
    /// already.
    pub open spec fn audio_ended(self, called: bool) -> RunnerView {
        if called {
            self
        } else {
            let (t, fired) = self.sound_fired();
            if fired {
                t
            } else {
                t.doubleback_fired().0
            }
        }
    }
}

/// Serving the queues changes the channels, what they owe, and memory alone.
pub proof fn lemma_queues_served(s: RunnerView)
    ensures
        ({
            let t = s.queues_served();
            &&& only_written(s.bus, t.bus)
            &&& t == (RunnerView { bus: t.bus, disp: DispView { sound: t.disp.sound, ..s.disp }, ..s })
        }),
{
    reveal(RunnerView::queues_served);
    crate::sound_queue::lemma_queues_served(s.disp.sound, s.bus, s.disp.sound.channels.len());
}

/// Showing what the channels do changes memory alone.
pub proof fn lemma_channels_shown(s: RunnerView)
    ensures
        only_written(s.bus, s.channels_shown().bus),
        s.channels_shown() == (RunnerView { bus: s.channels_shown().bus, ..s }),
{
    reveal(RunnerView::channels_shown);
    lemma_states_shown(s.disp.sound, s.bus, s.disp.sound.channels.len());
}

/// Mixing frames is mixing them chunk by chunk, buffers that are ready being loaded and
/// queues being served before each chunk.
pub proof fn lemma_mixed_by_chunks(s: RunnerView, n: nat)
    requires
        n > 0,
    ensures
        ({
            let (t, left) = s.buffers_loaded().queues_served().chunk_mixed(n);
            left < n && s.mixed(n) == t.mixed(left)
        }),
{
}

/// Without frames to mix, the samples that wait for the host and for the mono stream
/// stay as they are.
pub proof fn lemma_no_samples_no_sound(s: RunnerView, called: bool)
    ensures
        s.audio_finished(0, called).audio_buffer == s.audio_buffer,
        s.audio_finished(0, called).host_audio == s.host_audio,
{
    let a = s.buffers_loaded();
    lemma_queues_served(a);
    lemma_channels_shown(a.queues_served());
    reveal(RunnerView::sound_fired);
    reveal(RunnerView::doubleback_fired);
    reveal(RunnerView::interrupted);
}

fn read_sample(bus: &MacMemoryBus, at: u32, sample_size: u16) -> (r: u8)
    ensures
        r == sample_at(bus@, at, sample_size),
{
    if sample_size == 16 {
        bus.read_byte(at).wrapping_add(0x80)
    } else {
        bus.read_byte(at)
    }
}

fn read_frames(bus: &MacMemoryBus, buf: u32, num_channels: u16, sample_size: u16) -> (r: Vec<u8>)
    requires
        bus@.mem.len() <= 0x1_0000_0000,
    ensures
        r@ == buffer_frames(bus@, buf, num_channels, sample_size),
{
    let asked: u32 = bus.read_long(buf);
    let room: u64 = bus.ram_bytes();
    let n: u64 = if asked as u64 <= room { asked as u64 } else { room };
    let data: u32 = buf.wrapping_add(16);
    let size: u32 = if sample_size == 16 { 2 } else { 1 };
    let step: u32 = if num_channels == 2 { 2 * size } else { size };
    let mut out: Vec<u8> = Vec::new();
    let mut i: u64 = 0;
    while i < n
        invariant
            i <= n <= 0x1_0000_0000,
            n == frame_count(bus@, buf),
            data == buf.wrapping_add(16),
            size == sample_bytes(sample_size),
            size <= 2,
            step == if num_channels == 2 { 2 * size } else { size as int },
            out@.len() == i,
            forall|k: int| 0 <= k < i ==> out@[k] == frame_at(bus@, data, k, num_channels, sample_size),
        decreases n - i,
    {
        assert(step * i <= 4 * 0x1_0000_0000) by (nonlinear_arith)
            requires
                step <= 4,
                i <= 0x1_0000_0000,
        ;
        let at: u32 = data.wrapping_add((step as u64 * i) as u32);
        let frame: u8 = if num_channels == 2 {
            let left: u8 = read_sample(bus, at, sample_size);
            let right: u8 = read_sample(bus, at.wrapping_add(size), sample_size);
            ((left as u16 + right as u16) / 2) as u8
        } else {
            read_sample(bus, at, sample_size)
        };
        out.push(frame);
        i += 1;
    }
    assert(out@ =~= buffer_frames(bus@, buf, num_channels, sample_size));
    out
}

fn is_refill_queued(queue: &Vec<PendingDoubleBackCallback>, chan: u32, index: u8) -> (r: bool)
    ensures
        r == refill_queued(queue@, chan, index),
{
    let mut i: usize = 0;
    while i < queue.len()
        invariant
            i <= queue.len(),
            forall|k: int|
                0 <= k < i ==> !((#[trigger] queue@[k]).chan_ptr == chan && queue@[k].exhausted_buffer_index == index),
        decreases queue.len() - i,
    {
        if queue[i].chan_ptr == chan && queue[i].exhausted_buffer_index == index {
            assert(queue@[i as int].chan_ptr == chan);
            return true;
        }
        i += 1;
    }
    false
}

impl SndChannel {
    fn can_load(&self, bus: &MacMemoryBus, queue: &Vec<PendingDoubleBackCallback>, header: u32, index: u8) -> (r: bool)
        ensures
            r == self@.can_load(bus@, queue@, header, index),
    {
        let buf: u32 = bus.read_long(header.wrapping_add(12).wrapping_add(index as u32 * 4));
        buf != 0 && bus.read_long(buf.wrapping_add(4)) & DB_BUFFER_READY != 0 && !is_refill_queued(
            queue,
            self.guest_ptr,
            index,
        )
    }

    /// Goes on with a buffer that is ready, should the channel be silent.
    fn load_ready_buffer(&mut self, bus: &MacMemoryBus, queue: &Vec<PendingDoubleBackCallback>)
        requires
            bus@.mem.len() <= 0x1_0000_0000,
        ensures
            final(self)@ == old(self)@.loaded(bus@, queue@),
    {
        if self.playing {
            return;
        }
        let db: DoubleBufferState = match self.double_buffer {
            Some(db) => db,
            None => return,
        };
        if db.last_buffer_seen {
            return;
        }
        let other: u8 = if db.current_buffer == 0 { 1 } else { 0 };
        let index: u8 = if self.can_load(bus, queue, db.header_ptr, db.current_buffer) {
            db.current_buffer
        } else if self.can_load(bus, queue, db.header_ptr, other) {
            other
        } else {
            return;
        };
        let buf: u32 = bus.read_long(db.header_ptr.wrapping_add(12).wrapping_add(index as u32 * 4));
        TrapDispatcher::load_double_buffer_samples(bus, self, buf, db.sample_rate, db.num_channels, db.sample_size);
        if let Some(now) = self.double_buffer {
            let mut next: DoubleBufferState = now;
            next.current_buffer = index;
            next.complete_callback_for(index);
            self.double_buffer = Some(next);
        }
    }
}

impl SoundManager {
    fn load_ready_buffers(&mut self, bus: &MacMemoryBus)
        requires
            bus@.mem.len() <= 0x1_0000_0000,
        ensures
            final(self)@ == old(self)@.loaded(bus@),
    {
        let mut i: usize = 0;
        let ghost before = self@;
        while i < self.channels.len()
            invariant
                i <= self.channels.len(),
                bus@.mem.len() <= 0x1_0000_0000,
                self.channels@.len() == before.channels.len(),
                self@.pending_callbacks == before.pending_callbacks,
                self@.pending_sound_callbacks == before.pending_sound_callbacks,
                self@.mixed == before.mixed,
                forall|k: int|
                    0 <= k < i ==> (#[trigger] self.channels@[k])@ == before.channels[k].loaded(
                        bus@,
                        before.pending_callbacks,
                    ),
                forall|k: int| i <= k < before.channels.len() ==> (#[trigger] self.channels@[k])@ == before.channels[k],
            decreases self.channels.len() - i,
        {
            self.channels[i].load_ready_buffer(bus, &self.pending_callbacks);
            i += 1;
        }
        assert(self@.channels =~= before.loaded(bus@).channels);
    }
}

impl TrapDispatcher {
    /// Plays the buffer at `buf_ptr` on a channel.
    pub fn load_double_buffer_samples(
        bus: &MacMemoryBus,
        chan: &mut SndChannel,
        buf_ptr: u32,
        sample_rate: u32,
        num_channels: u16,
        sample_size: u16,
    )
        requires
            bus@.mem.len() <= 0x1_0000_0000,
        ensures
            final(chan)@ == old(chan)@.playing_buffer(bus@, buf_ptr, sample_rate, num_channels, sample_size),
    {
        proof {
            reveal(TrapDispatcher::view);
        }
        let frames: Vec<u8> = read_frames(bus, buf_ptr, num_channels, sample_size);
        let last: bool = bus.read_long(buf_ptr.wrapping_add(4)) & DB_LAST_BUFFER != 0;
        chan.play_buffer(frames, sample_rate);
        if let Some(db) = chan.double_buffer {
            let mut next: DoubleBufferState = db;
            next.last_buffer_seen = db.last_buffer_seen || last;
            chan.double_buffer = Some(next);
        }
    }

    /// Carries out the commands that the guest has put into its channels' own queues.
    pub fn service_guest_sound_queues(&mut self, bus: &mut MacMemoryBus)
        requires
            old(bus).wf(),
        ensures
            ({
                let (sound, b) = old(self)@.sound.queues_served(old(bus)@, old(self)@.sound.channels.len());
                &&& final(self)@ == (DispView { sound, ..old(self)@ })
                &&& final(bus)@ == b
            }),
            final(bus).wf(),
            old(self).wf() ==> final(self).wf(),
    {
        proof {
            reveal(TrapDispatcher::view);
        }
        self.sound_manager.service_guest_queues(bus);
    }

    /// Shows the guest, in its channel records, what each channel does.
    pub fn sync_guest_sound_channel_state(&self, bus: &mut MacMemoryBus)
        requires
            old(bus).wf(),
        ensures
            final(bus)@ == self@.sound.states_shown(old(bus)@, self@.sound.channels.len()),
            final(bus).wf(),
    {
        proof {
            reveal(TrapDispatcher::view);
        }
        self.sound_manager.show_channel_states(bus);
    }

    fn load_ready_buffers(&mut self, bus: &MacMemoryBus)
        requires
            bus@.mem.len() <= 0x1_0000_0000,
        ensures
            final(self)@ == (DispView { sound: old(self)@.sound.loaded(bus@), ..old(self)@ }),
            old(self).wf() ==> final(self).wf(),
    {
        proof {
            reveal(TrapDispatcher::view);
        }
        self.sound_manager.load_ready_buffers(bus);
    }

    fn mix_chunk(&mut self, n: u64) -> (r: Vec<u8>)
        ensures
            r@ == old(self)@.sound.mixing(n as nat),
            final(self)@ == (DispView { sound: old(self)@.sound.after_mixing(n as nat), ..old(self)@ }),
            old(self).wf() ==> final(self).wf(),
    {
        proof {
            reveal(TrapDispatcher::view);
        }
        self.sound_manager.mix_frame_stereo(n)
    }

    fn next_chunk(&self, n: u64) -> (r: u64)
        ensures
            r == self@.sound.next_chunk(n as nat),
    {
        proof {
            reveal(TrapDispatcher::view);
        }
        match self.sound_manager.samples_until_next_exhaustion() {
            Some(k) => if k == 0 && n >= 1 {
                1
            } else if k < n {
                k
            } else {
                n
            },
            None => n,
        }
    }

    fn release_finished_internal_sound_channels(&mut self)
        ensures
            final(self)@ == (DispView { sound: old(self)@.sound.released(), ..old(self)@ }),
            old(self).wf() ==> final(self).wf(),
    {
        proof {
            reveal(TrapDispatcher::view);
        }
        self.sound_manager.release_finished_internal_channels();
    }
}

fn append_mono(out: &mut Vec<u8>, stereo: &Vec<u8>)
    ensures
        final(out)@ == old(out)@ + mono_stream(stereo@),
{
    let n: usize = stereo.len() / 2;
    let mut i: usize = 0;
    while i < n
        invariant
            i <= n,
            n == stereo@.len() / 2,
            2 * n <= usize::MAX,
            out@ == old(out)@ + mono_stream(stereo@).take(i as int),
        decreases n - i,
    {
        let left: i32 = stereo[2 * i] as i32 - 0x80;
        let right: i32 = stereo[2 * i + 1] as i32 - 0x80;
        let sum: i32 = left + right;
        let m: i32 = if sum >= 0 { 0x80 + sum / 2 } else { 0x80 - (0 - sum) / 2 };
        assert(0 <= m <= 255);
        out.push(m as u8);
        assert(mono_stream(stereo@).take(i as int + 1) =~= mono_stream(stereo@).take(i as int).push(
            mono(stereo@[2 * i], stereo@[2 * i + 1]),
        ));
        i += 1;
    }
    assert(mono_stream(stereo@).take(n as int) =~= mono_stream(stereo@));
}

fn append_bytes(out: &mut Vec<u8>, bytes: &Vec<u8>)
    ensures
        final(out)@ == old(out)@ + bytes@,
{
    let mut i: usize = 0;
    while i < bytes.len()
        invariant
            i <= bytes.len(),
            out@ == old(out)@ + bytes@.take(i as int),
        decreases bytes.len() - i,
    {
        out.push(bytes[i]);
        assert(bytes@.take(i as int + 1) =~= bytes@.take(i as int).push(bytes@[i as int]));
        i += 1;
    }
    assert(bytes@.take(bytes@.len() as int) =~= bytes@);
}

fn append_silence(out: &mut Vec<u8>, n: usize)
    ensures
        final(out)@ == old(out)@ + Seq::new(2 * n as nat, |i: int| SILENCE),
{
    let mut i: usize = 0;
    while i < n
        invariant
            i <= n,
            out@ == old(out)@ + Seq::new(2 * i as nat, |k: int| SILENCE),
        decreases n - i,
    {
        out.push(SILENCE);
        out.push(SILENCE);
        assert(out@ =~= old(out)@ + Seq::new((2 * (i + 1)) as nat, |k: int| SILENCE));
        i += 1;
    }
    assert(out@ =~= old(out)@ + Seq::new(2 * n as nat, |k: int| SILENCE));
}

impl FixtureRunner {
    /// Lets silent channels go on with buffers that are ready.
    pub fn try_load_pending_double_buffers(&mut self)
        requires
            old(self).wf(),
        ensures
            final(self)@ == old(self)@.buffers_loaded(),
            final(self).wf(),
    {
        if self.active_interrupt_callback.is_some() {
            return;
        }
        self.dispatcher.load_ready_buffers(&self.bus);
    }

    fn queue_mixed_audio(&mut self, stereo: &Vec<u8>)
        requires
            old(self).wf(),
        ensures
            final(self)@ == old(self)@.sounded(stereo@),
            final(self).wf(),
    {
        if self.audio_attached {
            append_bytes(&mut self.host_audio, stereo);
        }
        append_mono(&mut self.audio_buffer, stereo);
    }

    fn queue_host_silence_audio(&mut self, n: usize)
        requires
            old(self).wf(),
        ensures
            final(self)@ == old(self)@.silenced(n as nat),
            final(self).wf(),
    {
        if self.audio_attached {
            append_silence(&mut self.host_audio, n);
        }
    }

    fn mix_host_audio(&mut self, num_samples: usize)
        requires
            old(self).wf(),
        ensures
            final(self)@ == old(self)@.mixed(num_samples as nat),
            final(self).wf(),
    {
        let mut remaining: usize = num_samples;
        while remaining > 0
            invariant
                self.wf(),
                old(self)@.mixed(num_samples as nat) == self@.mixed(remaining as nat),
            decreases remaining,
        {
            proof {
                lemma_mixed_by_chunks(self@, remaining as nat);
            }
            self.try_load_pending_double_buffers();
            self.service_guest_sound_queues();
            remaining = self.mix_audio_chunk(remaining);
        }
    }

    /// Carries out the commands that the guest has put into its channels' own queues.
    pub fn service_guest_sound_queues(&mut self)
        requires
            old(self).wf(),
        ensures
            final(self)@ == old(self)@.queues_served(),
            final(self).wf(),
    {
        proof {
            lemma_queues_served(self@);
            reveal(RunnerView::queues_served);
        }
        self.dispatcher.service_guest_sound_queues(&mut self.bus);
    }

    /// Shows the guest, in its channel records, what each channel does.
    pub fn sync_guest_sound_channel_state(&mut self)
        requires
            old(self).wf(),
        ensures
            final(self)@ == old(self)@.channels_shown(),
            final(self).wf(),
    {
        proof {
            lemma_channels_shown(self@);
            reveal(RunnerView::channels_shown);
        }
        self.dispatcher.sync_guest_sound_channel_state(&mut self.bus);
    }

    /// Mixes frames up to where the first channel runs out, at most `remaining`, and
    /// says how many are left.
    pub fn mix_audio_chunk(&mut self, remaining: usize) -> (r: usize)
        requires
            old(self).wf(),
            remaining > 0,
        ensures
            (final(self)@, r as nat) == old(self)@.chunk_mixed(remaining as nat),
            r < remaining,
            final(self).wf(),
    {
        let ghost s = self@;
        let chunk: u64 = self.dispatcher.next_chunk(remaining as u64);
        let samples: Vec<u8> = self.dispatcher.mix_chunk(chunk);
        self.dispatcher.release_finished_internal_sound_channels();
        let ghost t = s.with_sound(s.disp.sound.after_mixing(chunk as nat));
        assert(self@ == t.with_sound(t.disp.sound.released()));
        if samples.len() == 0 || chunk == 0 || chunk > remaining as u64 {
            self.queue_host_silence_audio(remaining);
            return 0;
        }
        self.queue_mixed_audio(&samples);
        remaining - chunk as usize
    }

    /// Calls a sound callback, or else a refill, which ends the sound work of a host
    /// frame.
    pub fn end_audio_frame(&mut self, sound_interrupt_dispatched: bool)
        requires
            old(self).wf(),
        ensures
            final(self)@ == old(self)@.audio_ended(sound_interrupt_dispatched),
            final(self).wf(),
    {
        if !sound_interrupt_dispatched {
            if !self.fire_sound_callbacks() {
                self.fire_sound_doubleback_callbacks();
            }
        }
    }

    /// Mixes `num_samples` frames.
    pub fn mix_audio(&mut self, num_samples: usize)
        requires
            old(self).wf(),
        ensures
            final(self)@ == old(self)@.mixed(num_samples as nat),
            final(self).wf(),
    {
        self.mix_host_audio(num_samples);
    }

    /// Does the sound work of a host frame.
    pub fn finish_audio_frame(&mut self, audio_samples: usize, sound_interrupt_dispatched: bool)
        requires
            old(self).wf(),
        ensures
            final(self)@ == old(self)@.audio_finished(audio_samples as nat, sound_interrupt_dispatched),
            final(self).wf(),
    {
        self.try_load_pending_double_buffers();
        self.service_guest_sound_queues();
        self.mix_host_audio(audio_samples);
        self.sync_guest_sound_channel_state();
        self.end_audio_frame(sound_interrupt_dispatched);
    }

    /// Mixes a slice of sound between two frames of the screen.
    pub fn mix_gui_audio_slice(&mut self, audio_samples: usize)
        requires
            old(self).wf(),
        ensures
            final(self)@ == old(self)@.audio_finished(audio_samples as nat, false),
            final(self).wf(),
    {
        self.finish_audio_frame(audio_samples, false);
    }
}

} // verus!
