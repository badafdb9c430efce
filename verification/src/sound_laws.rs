use vstd::prelude::*;

use crate::audio::{buffer_frames, frame_at, mono, mono_stream, sample_at};
use crate::memory::{group_memory_lengths, group_memory_reads, BusView};
use crate::runner::RunnerView;
use crate::sound::{
    clipped, frames_left, next_exhaustion, other_buffer, total_level, ChannelView, DoubleBufferState, PendingDoubleBackCallback,
    SoundView,
};
use crate::sound_queue::{command_taken, holds_command, next_command, QueueView};

verus! {

broadcast use group_memory_lengths;

/// What fits a sample is that sample, its middle being 128; what does not is the nearest
/// sample.
pub proof fn lemma_samples_are_clipped(v: int)
    ensures
        -128 <= v <= 127 ==> clipped(v) == v + 128,
        v > 127 ==> clipped(v) == 255,
        v < -128 ==> clipped(v) == 0,
{
}

/// Where nothing plays there is silence: the middle of the range.
pub proof fn lemma_nothing_sounds(s: SoundView)
    requires
        forall|i: int| 0 <= i < s.channels.len() ==> !(#[trigger] s.channels[i]).playing,
    ensures
        s.frame() == 128,
{
    lemma_silent_level(s.channels, s.channels.len());
}

proof fn lemma_silent_level(channels: Seq<ChannelView>, n: nat)
    requires
        n <= channels.len(),
        forall|i: int| 0 <= i < channels.len() ==> !(#[trigger] channels[i]).playing,
    ensures
        total_level(channels, n) == 0,
    decreases n,
{
    if n > 0 {
        lemma_silent_level(channels, (n - 1) as nat);
    }
}

/// A channel that plays alone is heard as it is: the sample that its position lies in, the
/// position counting sixteen binary places.
pub proof fn lemma_lone_channel_is_heard(s: SoundView)
    requires
        s.channels.len() == 1,
        s.channels[0].playing,
        s.channels[0].position / 0x1_0000 < s.channels[0].samples.len(),
    ensures
        s.frame() == s.channels[0].samples[(s.channels[0].position / 0x1_0000) as int],
{
    reveal_with_fuel(total_level, 2);
}

/// Two channels are heard together: their distances from silence add up, as far as the
/// range goes, and it makes no difference which is first.
pub proof fn lemma_channels_add_up(s: SoundView, t: SoundView, x: u8, y: u8)
    requires
        s.channels.len() == 2,
        s.channels[0].playing && s.channels[1].playing,
        s.channels[0].position / 0x1_0000 < s.channels[0].samples.len(),
        s.channels[1].position / 0x1_0000 < s.channels[1].samples.len(),
        x == s.channels[0].samples[(s.channels[0].position / 0x1_0000) as int],
        y == s.channels[1].samples[(s.channels[1].position / 0x1_0000) as int],
        t.channels == seq![s.channels[1], s.channels[0]],
    ensures
        0 <= x + y - 128 <= 255 ==> s.frame() == x + y - 128,
        x + y - 128 > 255 ==> s.frame() == 255,
        x + y - 128 < 0 ==> s.frame() == 0,
        t.frame() == s.frame(),
{
    reveal_with_fuel(total_level, 3);
}

/// A channel goes through its samples at its own pace: after `n` frames its position has
/// moved by `n` steps, and it plays on as long as that is not behind the samples.
pub proof fn lemma_channel_keeps_pace(s: SoundView, i: int, n: nat)
    requires
        0 <= i < s.channels.len(),
        s.channels[i].playing,
        s.channels[i].position + n * s.channels[i].step < s.channels[i].samples.len() * 0x1_0000,
        s.channels[i].samples.len() * 0x1_0000 <= u64::MAX,
    ensures
        ({
            let c = s.after(n).channels[i];
            &&& s.after(n).channels.len() == s.channels.len()
            &&& c == (ChannelView { position: c.position, ..s.channels[i] })
            &&& c.position == s.channels[i].position + n * s.channels[i].step
        }),
    decreases n,
{
    let step = s.channels[i].step as int;
    if n > 0 {
        assert(n * step == (n - 1) * step + step) by (nonlinear_arith);
        lemma_channel_keeps_pace(s, i, (n - 1) as nat);
    } else {
        assert(0 * step == 0);
    }
}

/// The stereo stream of a channel that plays alone: each frame has its sample twice, left
/// and right.
pub proof fn lemma_lone_channel_stream(s: SoundView, n: nat, k: int)
    requires
        s.channels.len() == 1,
        s.channels[0].playing,
        s.channels[0].samples.len() * 0x1_0000 <= u64::MAX,
        0 <= k < n,
        s.channels[0].position + k * s.channels[0].step < s.channels[0].samples.len() * 0x1_0000,
    ensures
        ({
            let c = s.channels[0];
            let out = s.output(n);
            let sample = c.samples[(c.position + k * c.step) / 0x1_0000];
            &&& out.len() == 2 * n
            &&& out[2 * k] == sample
            &&& out[2 * k + 1] == sample
        }),
{
    lemma_channel_keeps_pace(s, 0, k as nat);
    assert(s.channels[0].step * k >= 0) by (nonlinear_arith)
        requires
            k >= 0,
    ;
    lemma_lone_channel_is_heard(s.after(k as nat));
}

/// A channel ends with the frame that takes its position behind its last sample. From two
/// buffers it turns to the other one and asks for the one that ran out to be filled again,
/// unless the last buffer was seen: then it is done.
pub proof fn lemma_channel_runs_out(c: ChannelView)
    requires
        c.playing,
        c.position + c.step <= u64::MAX,
    ensures
        ({
            let d = c.ticked();
            let over = (c.position + c.step) / 0x1_0000 >= c.samples.len();
            &&& d.position == c.position + c.step
            &&& d.playing <==> !over
            &&& !over ==> c.tick_request() is None && d.double_buffer == c.double_buffer
            &&& over && c.double_buffer is None ==> c.tick_request() is None && d.double_buffer is None
            &&& over ==> (c.double_buffer matches Some(db) ==> {
                &&& db.last_buffer_seen ==> d.double_buffer is None && c.tick_request() is None
                &&& !db.last_buffer_seen ==> (d.double_buffer matches Some(e) && (c.tick_request() matches Some(r) && {
                    &&& e.current_buffer == (if db.current_buffer == 0 { 1u8 } else { 0u8 })
                    &&& e.waiting_for_callback
                    &&& e.owed(db.current_buffer)
                    &&& r.exhausted_buffer_index == db.current_buffer
                    &&& r.chan_ptr == db.chan_ptr
                    &&& r.header_ptr == db.header_ptr
                    &&& r.callback_addr == db.callback_addr
                }))
            })
        }),
{
}

/// A buffer that was filled again is owed no longer; the other stays as it is.
pub proof fn lemma_refill_settles_debt(db: DoubleBufferState, index: u8)
    requires
        index <= 1,
    ensures
        !db.completed(index).owed(index),
        db.completed(index).owed((1 - index) as u8) == db.owed((1 - index) as u8),
        db.completed(index).waiting_for_callback <==> db.owed((1 - index) as u8),
        db.exhausted(index).owed(index),
        db.exhausted(index).owed((1 - index) as u8) == db.owed((1 - index) as u8),
{
}

/// The frames that are left are the fewest that take the position to the end.
pub proof fn lemma_frames_left(c: ChannelView)
    requires
        c.playing,
        c.step > 0,
        c.samples.len() * 0x1_0000 <= u64::MAX,
        c.position < c.samples.len() * 0x1_0000,
    ensures
        frames_left(c) matches Some(n) && {
            &&& n > 0
            &&& c.position + n * c.step >= c.samples.len() * 0x1_0000
            &&& c.position + (n - 1) * c.step < c.samples.len() * 0x1_0000
        },
{
    let left = c.samples.len() * 0x1_0000 - c.position;
    let step = c.step as int;
    let q = (left - 1) / step;
    assert(0 <= q <= left - 1 && q * step <= left - 1 && left - 1 < (q + 1) * step) by (nonlinear_arith)
        requires
            left >= 1,
            step >= 1,
            q == (left - 1) / step,
    ;
}

/// No channel runs out before the frames that are said to be left until one does.
pub proof fn lemma_next_exhaustion_is_least(channels: Seq<ChannelView>, n: nat, i: int)
    requires
        0 <= i < n <= channels.len(),
        frames_left(channels[i]) is Some,
    ensures
        next_exhaustion(channels, n) matches Some(k) && k <= frames_left(channels[i])->0,
    decreases n,
{
    if i < n - 1 {
        lemma_next_exhaustion_is_least(channels, (n - 1) as nat, i);
    }
}

/// Mixing counts its frames and gives two samples for each, as long as a channel is alive;
/// else it gives none and changes nothing.
pub proof fn lemma_mixing(s: SoundView, n: nat)
    requires
        s.mixed + n <= u64::MAX,
    ensures
        s.any_live() ==> s.mixing(n).len() == 2 * n && s.after_mixing(n).mixed == s.mixed + n,
        !s.any_live() ==> s.mixing(n).len() == 0 && s.after_mixing(n) == s,
{
}

/// A mono sample lies midway between the two of a stereo frame, rounded toward silence:
/// two equal samples are that sample, and it makes no difference which is left.
pub proof fn lemma_mono_is_the_mean(left: u8, right: u8)
    ensures
        mono(left, left) == left,
        mono(left, right) == mono(right, left),
        -1 <= 2 * mono(left, right) - left - right <= 1,
        left + right >= 256 ==> 128 <= mono(left, right) && 2 * mono(left, right) <= left + right,
        left + right <= 256 ==> mono(left, right) <= 128 && 2 * mono(left, right) >= left + right,
{
}

/// A mono stream has one sample for each frame of the stereo stream.
pub proof fn lemma_mono_stream(stereo: Seq<u8>, i: int)
    requires
        0 <= i,
        2 * i + 1 < stereo.len(),
        stereo[2 * i] == stereo[2 * i + 1],
    ensures
        mono_stream(stereo).len() == stereo.len() / 2,
        mono_stream(stereo)[i] == stereo[2 * i],
{
    lemma_mono_is_the_mean(stereo[2 * i], stereo[2 * i + 1]);
}

/// The frames of a buffer are its bytes behind the header where it holds one channel of
/// bytes; two channels are averaged; of samples of two bytes the first counts, signed.
pub proof fn lemma_buffer_frames(b: BusView, buf: u32, i: int)
    requires
        0 <= i < b.get_long(buf),
        b.get_long(buf) <= b.mem.len() <= 0x1_0000_0000,
        buf + 16 + 4 * b.get_long(buf) <= b.mem.len(),
    ensures
        ({
            let one = buffer_frames(b, buf, 1, 8);
            let two = buffer_frames(b, buf, 2, 8);
            let wide = buffer_frames(b, buf, 1, 16);
            &&& one.len() == b.get_long(buf)
            &&& two.len() == b.get_long(buf)
            &&& wide.len() == b.get_long(buf)
            &&& one[i] == b.mem[buf + 16 + i]
            &&& two[i] == (b.mem[buf + 16 + 2 * i] + b.mem[buf + 16 + 2 * i + 1]) / 2
            &&& b.mem[buf + 16 + 2 * i] < 128 ==> wide[i] == b.mem[buf + 16 + 2 * i] + 128
            &&& b.mem[buf + 16 + 2 * i] >= 128 ==> wide[i] == b.mem[buf + 16 + 2 * i] - 128
        }),
{
    let data = buf.wrapping_add(16);
    assert(data == buf + 16);
    assert(frame_at(b, data, i, 1, 8) == sample_at(b, (data + i) as u32, 8));
}

/// A channel that turns to a buffer plays it from its start, at the pace that gives the
/// buffer's rate at 22050 frames a second.
pub proof fn lemma_buffer_is_played(c: ChannelView, b: BusView, buf: u32, rate: u32, channels: u16, size: u16)
    ensures
        ({
            let d = c.playing_buffer(b, buf, rate, channels, size);
            &&& d.position == 0
            &&& d.samples == buffer_frames(b, buf, channels, size)
            &&& d.playing <==> d.samples.len() > 0
            &&& d.step * 22050 <= rate < (d.step + 1) * 22050
            &&& rate == 22050 * 0x1_0000 ==> d.step == 0x1_0000
        }),
{
}

/// The samples that wait for the host grow by two for each frame of a mix, be it sound or
/// silence, and those that waited stay in front.
pub proof fn lemma_host_gets_every_frame(s: RunnerView, n: nat)
    requires
        s.audio_attached,
    ensures
        s.mixed(n).host_audio.len() == s.host_audio.len() + 2 * n,
        s.host_audio.is_prefix_of(s.mixed(n).host_audio),
        s.audio_buffer.is_prefix_of(s.mixed(n).audio_buffer),
        s.mixed(n).audio_buffer.len() <= s.audio_buffer.len() + n,
        s.mixed(n).audio_attached,
    decreases n,
{
    if n > 0 {
        crate::audio::lemma_queues_served(s.buffers_loaded());
        let a = s.buffers_loaded().queues_served();
        let k = a.disp.sound.next_chunk(n);
        let out = a.disp.sound.mixing(k);
        let t = a.with_sound(a.disp.sound.after_mixing(k));
        let u = t.with_sound(t.disp.sound.released());
        if !(out.len() == 0 || k == 0 || k > n) {
            assert(out.len() == 2 * k);
            let v = u.sounded(out);
            lemma_host_gets_every_frame(v, (n - k) as nat);
            assert(s.host_audio.is_prefix_of(v.host_audio));
            assert(s.audio_buffer.is_prefix_of(v.audio_buffer));
        }
    }
}

/// Silence for the host is the middle of the range.
pub proof fn lemma_host_silence(s: RunnerView, n: nat, i: int)
    requires
        s.audio_attached,
        0 <= i < 2 * n,
    ensures
        s.silenced(n).host_audio.len() == s.host_audio.len() + 2 * n,
        s.silenced(n).host_audio[s.host_audio.len() + i] == 128,
{
}

/// The command queue of a guest channel is a ring: it holds a command where its head is
/// not its tail; the command at the head is the next, and once it is taken the head is one
/// further, or at the start again.
pub proof fn lemma_guest_queue_is_a_ring(b: BusView, ptr: u32)
    requires
        ptr + 36 + 8 * 128 <= b.mem.len() <= 0x1_0000_0000,
        b.get_word((ptr + 30) as u32) <= 128,
        b.get_word((ptr + 32) as u32) < b.get_word((ptr + 30) as u32),
        b.get_word((ptr + 34) as u32) < b.get_word((ptr + 30) as u32),
    ensures
        ({
            let length = b.get_word((ptr + 30) as u32);
            let head = b.get_word((ptr + 32) as u32);
            let tail = b.get_word((ptr + 34) as u32);
            let at = ptr + 36 + 8 * head;
            let c = command_taken(b, ptr);
            &&& holds_command(b, ptr) <==> head != tail
            &&& next_command(b, ptr).cmd == b.get_word(at as u32)
            &&& next_command(b, ptr).param2 == b.get_long((at + 4) as u32)
            &&& head + 1 < length ==> c.get_word((ptr + 32) as u32) == head + 1
            &&& head + 1 == length ==> c.get_word((ptr + 32) as u32) == 0
            &&& c.get_word((ptr + 34) as u32) == tail
            &&& c.get_word((ptr + 30) as u32) == length
        }),
{
    broadcast use group_memory_reads;

}

/// A flush command leaves the queue empty; a callback command owes the callback that the
/// channel names, with the command; a buffer command plays the samples of its sound header.
pub proof fn lemma_guest_commands(q: QueueView, cmd: crate::sound::SndCommand)
    requires
        q.channel.guest_ptr + 36 <= q.bus.mem.len() <= 0x1_0000_0000,
    ensures
        ({
            let ptr = q.channel.guest_ptr;
            let r = q.obeyed(cmd);
            let addr = q.bus.get_long((ptr + 8) as u32);
            &&& cmd.cmd == 4 ==> !holds_command(r.bus, ptr) && r.owed == q.owed && r.channel == q.channel
            &&& cmd.cmd == 13 && addr != 0 ==> r.bus == q.bus && r.channel == q.channel && r.owed == q.owed.push(
                crate::sound::PendingSoundCallback::Command { callback_addr: addr, chan_ptr: ptr, cmd },
            )
            &&& cmd.cmd == 81 ==> r.bus == q.bus && r.owed == q.owed && r.channel.position == 0 && (r.channel.playing
                <==> r.channel.samples.len() > 0) && r.channel.guest_ptr == ptr
            &&& cmd.cmd != 4 && cmd.cmd != 13 && cmd.cmd != 81 ==> r == q
        }),
{
    broadcast use group_memory_reads;

}

/// A silent channel goes on with the buffer that is its turn if that is marked ready and no
/// refill of it is asked for, else with the other on the same terms; a channel that sounds,
/// or that has had its last buffer, with none.
pub proof fn lemma_next_buffer(c: ChannelView, b: BusView, queue: Seq<PendingDoubleBackCallback>)
    ensures
        c.playing || c.double_buffer is None ==> c.loadable(b, queue) is None,
        c.double_buffer matches Some(db) ==> {
            let here = b.get_long(db.header_ptr.wrapping_add(12).wrapping_add((4 * db.current_buffer) as u32));
            let ready = here != 0 && b.get_long(here.wrapping_add(4)) % 2 == 1;
            let asked = exists|i: int|
                0 <= i < queue.len() && (#[trigger] queue[i]).chan_ptr == c.guest_ptr && queue[i].exhausted_buffer_index
                    == db.current_buffer;
            &&& db.last_buffer_seen ==> c.loadable(b, queue) is None
            &&& !c.playing && !db.last_buffer_seen && ready && !asked ==> c.loadable(b, queue) == Some(db.current_buffer)
            &&& !ready || asked ==> c.loadable(b, queue) != Some(db.current_buffer)
        },
{
    if let Some(db) = c.double_buffer {
        let here = b.get_long(db.header_ptr.wrapping_add(12).wrapping_add((4 * db.current_buffer) as u32));
        let flags = b.get_long(here.wrapping_add(4));
        assert(flags & 1 != 0 <==> flags % 2 == 1) by (bit_vector);
        assert(other_buffer(db.current_buffer) != db.current_buffer);
    }
}

} // verus!
