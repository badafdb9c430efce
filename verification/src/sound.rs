use vstd::prelude::*;

verus! {

/// Samples per second of the mixed output.
pub const OUTPUT_RATE: u32 = 22050;
/// The sample value of silence.
pub const SILENCE: u8 = 0x80;
/// The Sound Manager command that asks for a callback.
pub const CALLBACK_CMD: u16 = 13;
/// Header flag of a double buffer that holds fresh samples.
pub const DB_BUFFER_READY: u32 = 0x01;
/// Header flag of the last double buffer.
pub const DB_LAST_BUFFER: u32 = 0x04;

/// A Sound Manager command.
#[derive(Clone, Copy, Debug, PartialEq, Eq, Structural)]
pub struct SndCommand {
    pub cmd: u16,
    pub param1: i16,
    pub param2: u32,
}

/// A callback that a sound channel owes the application.
#[derive(Clone, Copy, Debug, PartialEq, Eq, Structural)]
pub enum PendingSoundCallback {
    Command { callback_addr: u32, chan_ptr: u32, cmd: SndCommand },
    FileCompletion { callback_addr: u32, chan_ptr: u32 },
}

/// A request to refill an exhausted double buffer.
#[derive(Clone, Copy, Debug, PartialEq, Eq, Structural)]
pub struct PendingDoubleBackCallback {
    pub callback_addr: u32,
    pub chan_ptr: u32,
    pub header_ptr: u32,
    pub exhausted_buffer_index: u8,
}

/// How a channel plays from two buffers in turn. A buffer index is 0 or 1.
#[derive(Clone, Copy, Debug, PartialEq, Eq)]
pub struct DoubleBufferState {
    pub header_ptr: u32,
    pub current_buffer: u8,
    pub callback_addr: u32,
    pub chan_ptr: u32,
    pub sample_rate: u32,
    pub num_channels: u16,
    pub sample_size: u16,
    pub last_buffer_seen: bool,
    pub waiting_for_callback: bool,
    pub pending_callback_buffers: (bool, bool),
}

/// The other of two buffers.
pub open spec fn other_buffer(index: u8) -> u8 {
    if index == 0 { 1 } else { 0 }
}

impl DoubleBufferState {
    /// Whether the refill of buffer `index` is outstanding.
    pub open spec fn owed(self, index: u8) -> bool {
        if index == 0 { self.pending_callback_buffers.0 } else { self.pending_callback_buffers.1 }
    }

    /// The flags with the refill of buffer `index` set to `on`.
    pub open spec fn with_owed(self, index: u8, on: bool) -> (bool, bool) {
        if index == 0 { (on, self.pending_callback_buffers.1) } else { (self.pending_callback_buffers.0, on) }
    }

    /// The state once buffer `index` has run out.
    pub open spec fn exhausted(self, index: u8) -> DoubleBufferState {
        DoubleBufferState { waiting_for_callback: true, pending_callback_buffers: self.with_owed(index, true), ..self }
    }

    /// The state once buffer `index` has been refilled and is playing.
    pub open spec fn completed(self, index: u8) -> DoubleBufferState {
        let flags = self.with_owed(index, false);
        DoubleBufferState { waiting_for_callback: flags.0 || flags.1, pending_callback_buffers: flags, ..self }
    }

    /// The refill request for buffer `index`.
    pub open spec fn request(self, index: u8) -> PendingDoubleBackCallback {
        PendingDoubleBackCallback {
            callback_addr: self.callback_addr,
            chan_ptr: self.chan_ptr,
            header_ptr: self.header_ptr,
            exhausted_buffer_index: index,
        }
    }

    /// Whether the refill of buffer `index` is outstanding.
    pub fn is_owed(&self, index: u8) -> (r: bool)
        ensures
            r == self.owed(index),
    {
        if index == 0 { self.pending_callback_buffers.0 } else { self.pending_callback_buffers.1 }
    }

    /// Notes that buffer `index` has run out.
    pub fn exhaust(&mut self, index: u8)
        ensures
            *final(self) == old(self).exhausted(index),
    {
        self.waiting_for_callback = true;
        self.pending_callback_buffers = if index == 0 {
            (true, self.pending_callback_buffers.1)
        } else {
            (self.pending_callback_buffers.0, true)
        };
    }

    /// Notes that buffer `index` has been refilled and is playing.
    pub fn complete_callback_for(&mut self, index: u8)
        ensures
            *final(self) == old(self).completed(index),
    {
        self.pending_callback_buffers = if index == 0 {
            (false, self.pending_callback_buffers.1)
        } else {
            (self.pending_callback_buffers.0, false)
        };
        self.waiting_for_callback = self.pending_callback_buffers.0 || self.pending_callback_buffers.1;
    }

    fn make_request(&self, index: u8) -> (r: PendingDoubleBackCallback)
        ensures
            r == self.request(index),
    {
        PendingDoubleBackCallback {
            callback_addr: self.callback_addr,
            chan_ptr: self.chan_ptr,
            header_ptr: self.header_ptr,
            exhausted_buffer_index: index,
        }
    }
}

/// A sound channel.
pub struct SndChannel {
    pub guest_ptr: u32,
    pub internal: bool,
    pub samples: Vec<u8>,
    /// Playback position, in steps of 1/65536 of a sample.
    pub position: u64,
    /// How far one output frame moves the position.
    pub step: u32,
    pub playing: bool,
    pub double_buffer: Option<DoubleBufferState>,
}

/// A sound channel as a mathematical value.
pub struct ChannelView {
    pub guest_ptr: u32,
    pub internal: bool,
    pub samples: Seq<u8>,
    pub position: u64,
    pub step: u32,
    pub playing: bool,
    pub double_buffer: Option<DoubleBufferState>,
}

impl ChannelView {
    /// The sample that sounds now: the one that the position lies in.
    pub open spec fn level(self) -> int {
        if self.playing && self.position / 65536 < self.samples.len() {
            self.samples[(self.position / 65536) as int] - 0x80
        } else {
            0
        }
    }

    /// The position after one more frame.
    pub open spec fn next_position(self) -> u64 {
        if self.position + self.step > u64::MAX { u64::MAX } else { (self.position + self.step) as u64 }
    }

    /// Whether one more frame plays the last of the samples.
    pub open spec fn runs_out(self) -> bool {
        self.playing && self.next_position() / 65536 >= self.samples.len()
    }

    /// The channel after one frame. When its samples run out, a double-buffered
    /// channel turns to its other buffer and owes a refill of the one that ran
    /// out; after the last buffer it is done.
    pub open spec fn ticked(self) -> ChannelView {
        if !self.playing {
            self
        } else if !self.runs_out() {
            ChannelView { position: self.next_position(), ..self }
        } else {
            let stopped = ChannelView { position: self.next_position(), playing: false, ..self };
            match self.double_buffer {
                None => stopped,
                Some(db) => if db.last_buffer_seen {
                    ChannelView { double_buffer: None, ..stopped }
                } else {
                    let next = DoubleBufferState { current_buffer: other_buffer(db.current_buffer), ..db.exhausted(
                        db.current_buffer,
                    ) };
                    ChannelView { double_buffer: Some(next), ..stopped }
                },
            }
        }
    }

    /// The refill that one frame makes the channel ask for.
    pub open spec fn tick_request(self) -> Option<PendingDoubleBackCallback> {
        match self.double_buffer {
            Some(db) => if self.runs_out() && !db.last_buffer_seen {
                Some(db.request(db.current_buffer))
            } else {
                None
            },
            None => None,
        }
    }

    /// A silent double-buffered channel whose current buffer nobody has been
    /// asked to refill.
    pub open spec fn starved(self) -> bool {
        !self.playing && (self.double_buffer matches Some(db) && !db.last_buffer_seen && !db.owed(db.current_buffer))
    }

    /// The channel once that refill has been asked for.
    pub open spec fn fed(self) -> ChannelView {
        if self.starved() {
            let db = self.double_buffer->0;
            ChannelView { double_buffer: Some(db.exhausted(db.current_buffer)), ..self }
        } else {
            self
        }
    }

    /// Whether the channel keeps the output stream alive.
    pub open spec fn live(self) -> bool {
        self.playing || (self.double_buffer matches Some(db) && !db.last_buffer_seen)
    }
}

impl SndChannel {
    pub open spec fn view(&self) -> ChannelView {
        ChannelView {
            guest_ptr: self.guest_ptr,
            internal: self.internal,
            samples: self.samples@,
            position: self.position,
            step: self.step,
            playing: self.playing,
            double_buffer: self.double_buffer,
        }
    }

    /// A silent channel.
    pub fn new(guest_ptr: u32, internal: bool) -> (r: Self)
        ensures
            r@ == (ChannelView {
                guest_ptr,
                internal,
                samples: Seq::empty(),
                position: 0,
                step: 0,
                playing: false,
                double_buffer: None,
            }),
    {
        SndChannel { guest_ptr, internal, samples: Vec::new(), position: 0, step: 0, playing: false, double_buffer: None }
    }

    /// Starts `samples` from the beginning at `rate` samples per second, given
    /// in units of 1/65536. An output frame holds one source sample as long as
    /// the position stays in it.
    pub fn play_buffer(&mut self, samples: Vec<u8>, rate: u32)
        ensures
            final(self)@ == (ChannelView {
                samples: samples@,
                position: 0,
                step: rate / OUTPUT_RATE,
                playing: samples@.len() > 0,
                ..old(self)@
            }),
    {
        self.playing = samples.len() > 0;
        self.samples = samples;
        self.position = 0;
        self.step = rate / OUTPUT_RATE;
    }

    pub fn is_playing(&self) -> (r: bool)
        ensures
            r == self.playing,
    {
        self.playing
    }

    fn level(&self) -> (r: i32)
        ensures
            r == self@.level(),
            -128 <= r <= 127,
    {
        if self.playing && self.position / 65536 < self.samples.len() as u64 {
            self.samples[(self.position / 65536) as usize] as i32 - 0x80
        } else {
            0
        }
    }

    /// Moves on by one frame and gives back the refill that it asks for.
    fn tick(&mut self) -> (r: Option<PendingDoubleBackCallback>)
        ensures
            final(self)@ == old(self)@.ticked(),
            r == old(self)@.tick_request(),
    {
        if !self.playing {
            return None;
        }
        let next: u64 = self.position.saturating_add(self.step as u64);
        self.position = next;
        if next / 65536 < self.samples.len() as u64 {
            return None;
        }
        self.playing = false;
        match self.double_buffer {
            None => None,
            Some(db) => {
                if db.last_buffer_seen {
                    self.double_buffer = None;
                    return None;
                }
                let mut next_db: DoubleBufferState = db;
                next_db.exhaust(db.current_buffer);
                next_db.current_buffer = if db.current_buffer == 0 { 1 } else { 0 };
                self.double_buffer = Some(next_db);
                Some(db.make_request(db.current_buffer))
            },
        }
    }

    /// Asks for the refill that a starved channel lacks.
    fn feed(&mut self) -> (r: Option<PendingDoubleBackCallback>)
        ensures
            final(self)@ == old(self)@.fed(),
            r == if old(self)@.starved() {
                Some(old(self).double_buffer->0.request(old(self).double_buffer->0.current_buffer))
            } else {
                None
            },
    {
        if self.playing {
            return None;
        }
        match self.double_buffer {
            None => None,
            Some(db) => {
                if db.last_buffer_seen || db.is_owed(db.current_buffer) {
                    return None;
                }
                let mut next_db: DoubleBufferState = db;
                next_db.exhaust(db.current_buffer);
                self.double_buffer = Some(next_db);
                Some(db.make_request(db.current_buffer))
            },
        }
    }

    fn is_live(&self) -> (r: bool)
        ensures
            r == self@.live(),
    {
        if self.playing {
            return true;
        }
        match self.double_buffer {
            None => false,
            Some(db) => !db.last_buffer_seen,
        }
    }

    /// Frames until the samples run out; `None` when nothing plays or the
    /// position does not move.
    fn frames_left(&self) -> (r: Option<u64>)
        ensures
            r == frames_left(self@),
    {
        let n: u64 = self.samples.len() as u64;
        let end: u64 = if n > 0xffff_ffff_ffff { u64::MAX } else { n * 65536 };
        if !self.playing || self.step == 0 || self.position >= end {
            return None;
        }
        Some((end - self.position - 1) / self.step as u64 + 1)
    }
}

/// The fixed-point position just past the last sample.
pub open spec fn end_position(c: ChannelView) -> int {
    if c.samples.len() * 65536 > u64::MAX { u64::MAX as int } else { c.samples.len() as int * 65536 }
}

/// Frames until the samples of `c` run out.
pub open spec fn frames_left(c: ChannelView) -> Option<u64> {
    if !c.playing || c.step == 0 || c.position >= end_position(c) {
        None
    } else {
        Some(((end_position(c) - c.position - 1) / (c.step as int) + 1) as u64)
    }
}

/// The channels and what they owe the application.
pub struct SoundManager {
    pub channels: Vec<SndChannel>,
    pub pending_sound_callbacks: Vec<PendingSoundCallback>,
    pub pending_callbacks: Vec<PendingDoubleBackCallback>,
    /// Frames that were mixed from channels so far.
    pub debug_samples_mixed: u64,
}

/// The Sound Manager as a mathematical value.
pub struct SoundView {
    pub channels: Seq<ChannelView>,
    pub pending_sound_callbacks: Seq<PendingSoundCallback>,
    pub pending_callbacks: Seq<PendingDoubleBackCallback>,
    pub mixed: u64,
}

/// The sum of what the first `n` channels sound.
pub open spec fn total_level(channels: Seq<ChannelView>, n: nat) -> int
    decreases n,
{
    if n == 0 { 0 } else { total_level(channels, (n - 1) as nat) + channels[n - 1].level() }
}

/// `v` as an unsigned sample, at the nearest end where it does not fit.
pub open spec fn clipped(v: int) -> u8 {
    if v < -0x80 { 0 } else if v > 0x7f { 255 } else { (v + 0x80) as u8 }
}

/// The requests that the first `n` channels make in one frame, in their order.
pub open spec fn tick_requests(channels: Seq<ChannelView>, n: nat) -> Seq<PendingDoubleBackCallback>
    decreases n,
{
    if n == 0 {
        Seq::empty()
    } else {
        let before = tick_requests(channels, (n - 1) as nat);
        match channels[n - 1].tick_request() {
            Some(cb) => before.push(cb),
            None => before,
        }
    }
}

/// The requests that starved channels among the first `n` make.
pub open spec fn feed_requests(channels: Seq<ChannelView>, n: nat) -> Seq<PendingDoubleBackCallback>
    decreases n,
{
    if n == 0 {
        Seq::empty()
    } else {
        let before = feed_requests(channels, (n - 1) as nat);
        let c = channels[n - 1];
        if c.starved() { before.push(c.double_buffer->0.request(c.double_buffer->0.current_buffer)) } else { before }
    }
}

impl SoundView {
    /// Some channel keeps the output stream alive.
    pub open spec fn any_live(self) -> bool {
        exists|i: int| 0 <= i < self.channels.len() && (#[trigger] self.channels[i]).live()
    }

    /// The state after every starved channel asked for its refill.
    pub open spec fn fed(self) -> SoundView {
        SoundView {
            channels: self.channels.map_values(|c: ChannelView| c.fed()),
            pending_callbacks: self.pending_callbacks + feed_requests(self.channels, self.channels.len()),
            ..self
        }
    }

    /// The output sample of the present frame.
    pub open spec fn frame(self) -> u8 {
        clipped(total_level(self.channels, self.channels.len()))
    }

    /// The state after one frame.
    pub open spec fn ticked(self) -> SoundView {
        SoundView {
            channels: self.channels.map_values(|c: ChannelView| c.ticked()),
            pending_callbacks: self.pending_callbacks + tick_requests(self.channels, self.channels.len()),
            ..self
        }
    }

    /// The state after `n` frames.
    pub open spec fn after(self, n: nat) -> SoundView
        decreases n,
    {
        if n == 0 { self } else { self.after((n - 1) as nat).ticked() }
    }

    /// The output of `n` frames, each as a left and a right sample.
    pub open spec fn output(self, n: nat) -> Seq<u8> {
        Seq::new(2 * n, |i: int| self.after((i / 2) as nat).frame())
    }

    /// The state after mixing `n` frames.
    pub open spec fn after_mixing(self, n: nat) -> SoundView {
        if self.any_live() {
            let end = self.fed().after(n);
            SoundView { mixed: (if self.mixed + n > u64::MAX { u64::MAX as int } else { self.mixed + n }) as u64, ..end }
        } else {
            self
        }
    }

    /// What mixing `n` frames gives: nothing when no channel is alive.
    pub open spec fn mixing(self, n: nat) -> Seq<u8> {
        if self.any_live() { self.fed().output(n) } else { Seq::empty() }
    }
}

/// The least number of frames until one of the first `n` channels runs out.
pub open spec fn next_exhaustion(channels: Seq<ChannelView>, n: nat) -> Option<u64>
    decreases n,
{
    if n == 0 {
        None
    } else {
        match (next_exhaustion(channels, (n - 1) as nat), frames_left(channels[n - 1])) {
            (Some(a), Some(b)) => Some(if b < a { b } else { a }),
            (Some(a), None) => Some(a),
            (None, b) => b,
        }
    }
}

impl SoundManager {
    pub open spec fn view(&self) -> SoundView {
        SoundView {
            channels: self.channels@.map_values(|c: SndChannel| c@),
            pending_sound_callbacks: self.pending_sound_callbacks@,
            pending_callbacks: self.pending_callbacks@,
            mixed: self.debug_samples_mixed,
        }
    }

    pub fn new() -> (r: Self)
        ensures
            r@ == (SoundView {
                channels: Seq::empty(),
                pending_sound_callbacks: Seq::empty(),
                pending_callbacks: Seq::empty(),
                mixed: 0,
            }),
    {
        let r = SoundManager {
            channels: Vec::new(),
            pending_sound_callbacks: Vec::new(),
            pending_callbacks: Vec::new(),
            debug_samples_mixed: 0,
        };
        assert(r@.channels =~= Seq::empty());
        r
    }

    /// Frames until the first channel runs out of samples.
    pub fn samples_until_next_exhaustion(&self) -> (r: Option<u64>)
        ensures
            r == next_exhaustion(self@.channels, self@.channels.len()),
    {
        let mut best: Option<u64> = None;
        let mut i: usize = 0;
        while i < self.channels.len()
            invariant
                i <= self.channels.len(),
                best == next_exhaustion(self@.channels, i as nat),
            decreases self.channels.len() - i,
        {
            let left: Option<u64> = self.channels[i].frames_left();
            best = match (best, left) {
                (Some(a), Some(b)) => Some(if b < a { b } else { a }),
                (Some(a), None) => Some(a),
                (None, b) => b,
            };
            i += 1;
        }
        best
    }

    fn any_live(&self) -> (r: bool)
        ensures
            r == self@.any_live(),
    {
        let mut i: usize = 0;
        while i < self.channels.len()
            invariant
                i <= self.channels.len(),
                forall|k: int| 0 <= k < i ==> !(#[trigger] self@.channels[k]).live(),
            decreases self.channels.len() - i,
        {
            if self.channels[i].is_live() {
                assert(self@.channels[i as int].live());
                return true;
            }
            i += 1;
        }
        false
    }

    fn feed(&mut self)
        ensures
            final(self)@ == old(self)@.fed(),
    {
        let mut i: usize = 0;
        let n: usize = self.channels.len();
        while i < n
            invariant
                i <= n,
                n == self.channels.len() == old(self).channels.len(),
                self.pending_sound_callbacks@ == old(self).pending_sound_callbacks@,
                self.debug_samples_mixed == old(self).debug_samples_mixed,
                forall|k: int| i <= k < n ==> (#[trigger] self.channels@[k])@ == old(self)@.channels[k],
                forall|k: int| 0 <= k < i ==> (#[trigger] self.channels@[k])@ == old(self)@.channels[k].fed(),
                self.pending_callbacks@ == old(self).pending_callbacks@ + feed_requests(old(self)@.channels, i as nat),
            decreases n - i,
        {
            let cb: Option<PendingDoubleBackCallback> = self.channels[i].feed();
            if let Some(cb) = cb {
                self.pending_callbacks.push(cb);
            }
            i += 1;
        }
        assert(self@.channels =~= old(self)@.fed().channels);
    }

    /// The output sample of the present frame.
    fn frame(&self) -> (r: u8)
        ensures
            r == self@.frame(),
    {
        let mut sum: i128 = 0;
        let mut i: usize = 0;
        while i < self.channels.len()
            invariant
                i <= self.channels.len(),
                -128 * i <= sum <= 128 * i,
                sum == total_level(self@.channels, i as nat),
            decreases self.channels.len() - i,
        {
            let level: i32 = self.channels[i].level();
            sum = sum + level as i128;
            i += 1;
        }
        if sum < -0x80 {
            0
        } else if sum > 0x7f {
            255
        } else {
            (sum + 0x80) as u8
        }
    }

    /// Moves every channel on by one frame.
    fn tick(&mut self)
        ensures
            final(self)@ == old(self)@.ticked(),
    {
        let mut i: usize = 0;
        let n: usize = self.channels.len();
        while i < n
            invariant
                i <= n,
                n == self.channels.len() == old(self).channels.len(),
                self.pending_sound_callbacks@ == old(self).pending_sound_callbacks@,
                self.debug_samples_mixed == old(self).debug_samples_mixed,
                forall|k: int| i <= k < n ==> (#[trigger] self.channels@[k])@ == old(self)@.channels[k],
                forall|k: int| 0 <= k < i ==> (#[trigger] self.channels@[k])@ == old(self)@.channels[k].ticked(),
                self.pending_callbacks@ == old(self).pending_callbacks@ + tick_requests(old(self)@.channels, i as nat),
            decreases n - i,
        {
            let cb: Option<PendingDoubleBackCallback> = self.channels[i].tick();
            if let Some(cb) = cb {
                self.pending_callbacks.push(cb);
            }
            i += 1;
        }
        assert(self@.channels =~= old(self)@.ticked().channels);
    }

    /// Mixes `n` frames into left and right samples. Without a channel that is
    /// alive there is nothing to mix, and the result is empty.
    pub fn mix_frame_stereo(&mut self, n: u64) -> (r: Vec<u8>)
        ensures
            r@ == old(self)@.mixing(n as nat),
            final(self)@ == old(self)@.after_mixing(n as nat),
    {
        let mut out: Vec<u8> = Vec::new();
        if !self.any_live() {
            return out;
        }
        self.feed();
        let ghost start = self@;
        let mut i: u64 = 0;
        while i < n
            invariant
                i <= n,
                self@ == start.after(i as nat),
                out@ == start.output(i as nat),
            decreases n - i,
        {
            let v: u8 = self.frame();
            out.push(v);
            out.push(v);
            proof {
                let longer = start.output((i + 1) as nat);
                assert(longer.len() == 2 * i + 2);
                assert(longer[2 * i] == start.after(((2 * i) / 2) as nat).frame());
                assert(longer[2 * i + 1] == start.after(((2 * i + 1) / 2) as nat).frame());
                assert((2 * i) / 2 == i && (2 * i + 1) / 2 == i);
                assert(out@ =~= longer);
            }
            self.tick();
            i += 1;
        }
        proof {
            old(self)@.lemma_mixed_is_kept(n as nat);
        }
        self.debug_samples_mixed = self.debug_samples_mixed.saturating_add(n);
        out
    }

    /// Takes the oldest pending callback.
    pub fn take_sound_callback(&mut self) -> (r: Option<PendingSoundCallback>)
        ensures
            r is None <==> old(self)@.pending_sound_callbacks.len() == 0,
            r is None ==> final(self)@ == old(self)@,
            r matches Some(c) ==> c == old(self)@.pending_sound_callbacks[0] && final(self)@ == (SoundView {
                pending_sound_callbacks: old(self)@.pending_sound_callbacks.remove(0),
                ..old(self)@
            }),
    {
        if self.pending_sound_callbacks.len() == 0 {
            None
        } else {
            Some(self.pending_sound_callbacks.remove(0))
        }
    }

    /// Takes the oldest pending buffer refill.
    pub fn take_doubleback(&mut self) -> (r: Option<PendingDoubleBackCallback>)
        ensures
            r is None <==> old(self)@.pending_callbacks.len() == 0,
            r is None ==> final(self)@ == old(self)@,
            r matches Some(c) ==> c == old(self)@.pending_callbacks[0] && final(self)@ == (SoundView {
                pending_callbacks: old(self)@.pending_callbacks.remove(0),
                ..old(self)@
            }),
    {
        if self.pending_callbacks.len() == 0 {
            None
        } else {
            Some(self.pending_callbacks.remove(0))
        }
    }

    /// Drops the internal channels that have finished.
    pub fn release_finished_internal_channels(&mut self)
        ensures
            final(self)@ == (SoundView {
                channels: old(self)@.channels.filter(|c: ChannelView| !c.internal || c.live()),
                ..old(self)@
            }),
    {
        let mut kept: Vec<SndChannel> = Vec::new();
        let ghost before = self@.channels;
        let mut rest: Vec<SndChannel> = Vec::new();
        std::mem::swap(&mut rest, &mut self.channels);
        rest = reversed(rest);
        let ghost keep = |c: ChannelView| !c.internal || c.live();
        let ghost mut done: int = 0;
        assert(before.take(0).filter(keep) =~= Seq::empty()) by {
            reveal(Seq::filter);
        }
        while rest.len() > 0
            invariant
                0 <= done <= before.len(),
                rest@.len() == before.len() - done,
                keep == (|c: ChannelView| !c.internal || c.live()),
                forall|k: int| 0 <= k < rest@.len() ==> (#[trigger] rest@[k])@ == before[before.len() - 1 - k],
                kept@.map_values(|c: SndChannel| c@) == before.take(done).filter(keep),
                self.pending_sound_callbacks@ == old(self).pending_sound_callbacks@,
                self.pending_callbacks@ == old(self).pending_callbacks@,
                self.debug_samples_mixed == old(self).debug_samples_mixed,
            decreases rest.len(),
        {
            let ghost was = rest@;
            let chan: SndChannel = rest.pop().unwrap();
            proof {
                assert(chan@ == before[done]);
                assert(before.take(done + 1).drop_last() =~= before.take(done));
                assert(before.take(done + 1).last() == before[done]);
                reveal(Seq::filter);
            }
            let ghost kept_before = kept@.map_values(|c: SndChannel| c@);
            if !chan.internal || chan.is_live() {
                let ghost cv = chan@;
                kept.push(chan);
                assert(kept@.map_values(|c: SndChannel| c@) =~= kept_before.push(cv));
            }
            proof {
                done = done + 1;
            }
        }
        assert(before.take(done) =~= before);
        self.channels = kept;
    }
}

impl SoundView {
    /// Mixing leaves the frame counter to the caller.
    pub proof fn lemma_mixed_is_kept(self, n: nat)
        ensures
            self.fed().after(n).mixed == self.mixed,
        decreases n,
    {
        if n > 0 {
            self.lemma_mixed_is_kept((n - 1) as nat);
        }
    }
}

/// The channels in reverse order.
fn reversed(v: Vec<SndChannel>) -> (r: Vec<SndChannel>)
    ensures
        r@ == v@.reverse(),
{
    let mut v: Vec<SndChannel> = v;
    let ghost all = v@;
    let mut out: Vec<SndChannel> = Vec::new();
    while v.len() > 0
        invariant
            v@.len() + out@.len() == all.len(),
            v@ == all.take(v@.len() as int),
            forall|k: int| 0 <= k < out@.len() ==> #[trigger] out@[k] == all[all.len() - 1 - k],
        decreases v.len(),
    {
        let c: SndChannel = v.pop().unwrap();
        out.push(c);
    }
    assert(out@ =~= all.reverse());
    out
}

} // verus!
