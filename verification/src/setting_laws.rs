use vstd::prelude::*;

use crate::policy::{os_placeholder, placeholder_hint, spin_gate, tool_placeholder};
use crate::search::{folded, same_name};
use crate::text::{normal_path, normal_prefix, separates};
use crate::trace_range::{
    address, address_range, all_digits, colon, digit_value, is_space, number, past_prefix, spelled, text_end, text_start,
    trimmed, unsigned, TraceRange,
};
use crate::vfs::VfsView;

verus! {

/// A text without white space at its ends.
pub open spec fn bare(s: Seq<char>) -> bool {
    s.len() > 0 && !is_space(s[0]) && !is_space(s.last())
}

/// A text of white space alone.
pub open spec fn blank_text(s: Seq<char>) -> bool {
    forall|i: int| 0 <= i < s.len() ==> is_space(#[trigger] s[i])
}

/// Blanks, tabs and line ends are white space; digits, letters, signs and colons are not.
pub proof fn lemma_white_space(c: char)
    ensures
        c == ' ' || c == '\t' || c == '\n' || c == '\r' ==> is_space(c),
        '!' <= c <= '~' ==> !is_space(c),
{
}

/// White space around a text is not read.
pub proof fn lemma_white_space_is_cut(before: Seq<char>, s: Seq<char>, after: Seq<char>)
    requires
        blank_text(before),
        bare(s),
        blank_text(after),
    ensures
        trimmed(before + s + after) == s,
{
    let t = before + s + after;
    lemma_text_start(t, 0, before.len() as int);
    lemma_text_end(t, before.len() as int, t.len() as int, (before.len() + s.len()) as int);
    assert(t.subrange(before.len() as int, (before.len() + s.len()) as int) =~= s);
}

proof fn lemma_text_start(t: Seq<char>, from: int, start: int)
    requires
        0 <= from <= start < t.len(),
        forall|i: int| from <= i < start ==> is_space(#[trigger] t[i]),
        !is_space(t[start]),
    ensures
        text_start(t, from) == start,
    decreases start - from,
{
    if from < start {
        assert(is_space(t[from]));
        lemma_text_start(t, from + 1, start);
    }
}

proof fn lemma_text_end(t: Seq<char>, from: int, to: int, end: int)
    requires
        0 <= from < end <= to <= t.len(),
        forall|i: int| end <= i < to ==> is_space(#[trigger] t[i]),
        !is_space(t[end - 1]),
    ensures
        text_end(t, from, to) == end,
    decreases to - end,
{
    if end < to {
        assert(is_space(t[to - 1]));
        lemma_text_end(t, from, to - 1, end);
    }
}

/// A range of addresses is what stands before a colon and what stands behind it.
pub proof fn lemma_range_is_read(a: Seq<char>, b: Seq<char>)
    requires
        forall|i: int| 0 <= i < a.len() ==> #[trigger] a[i] != ':',
        forall|i: int| 0 <= i < b.len() ==> #[trigger] b[i] != ':',
    ensures
        address_range(a) is None,
        ({
            let r = address_range(a + seq![':'] + b);
            &&& r is Some <==> address(a) is Some && address(b) is Some
            &&& r matches Some((start, end)) ==> address(a) == Some(start) && address(b) == Some(end)
        }),
{
    let s = a + seq![':'] + b;
    let n = a.len() as int;
    lemma_no_colon(a, 0);
    assert(s[n] == ':');
    lemma_first_colon(s, 0, n);
    assert forall|i: int| n + 1 <= i < s.len() implies #[trigger] s[i] != ':' by {
        assert(s[i] == b[i - n - 1]);
    }
    lemma_no_colon(s, n + 1);
    assert(s.subrange(0, n) =~= a);
    assert(s.subrange(n + 1, s.len() as int) =~= b);
}

proof fn lemma_first_colon(s: Seq<char>, from: int, at: int)
    requires
        0 <= from <= at < s.len(),
        s[at] == ':',
        forall|i: int| from <= i < at ==> #[trigger] s[i] != ':',
    ensures
        colon(s, from) == at,
    decreases at - from,
{
    if from < at {
        assert(s[from] != ':');
        lemma_first_colon(s, from + 1, at);
    }
}

proof fn lemma_no_colon(s: Seq<char>, from: int)
    requires
        0 <= from <= s.len(),
        forall|i: int| from <= i < s.len() ==> #[trigger] s[i] != ':',
    ensures
        colon(s, from) == s.len(),
    decreases s.len() - from,
{
    if from < s.len() {
        assert(s[from] != ':');
        lemma_no_colon(s, from + 1);
    }
}

/// An address may have white space around it and `0x` before it: what is written as eight
/// hexadecimal digits is read as the number.
pub proof fn lemma_setting_names_address(before: Seq<char>, n: u32, after: Seq<char>)
    requires
        blank_text(before),
        blank_text(after),
    ensures
        address(before + crate::text::hex(n as nat, 8) + after) == Some(n),
        address(before + (seq!['0', 'x'] + crate::text::hex(n as nat, 8)) + after) == Some(n),
{
    let digits = crate::text::hex(n as nat, 8);
    crate::file_laws::lemma_address_reads_back(n);
    assert(crate::file_laws::sixteen_to(8) == 0x1_0000_0000) by {
        reveal_with_fuel(crate::file_laws::sixteen_to, 9);
    }
    crate::file_laws::lemma_hexadecimal_reads_back(n as nat, 8);
    assert(digit_value(digits[0]) < 16 && digit_value(digits[1]) < 16 && digit_value(digits[7]) < 16);
    assert(bare(digits));
    lemma_white_space_is_cut(before, digits, after);
    assert(past_prefix(digits) == digits);
    let marked = seq!['0', 'x'] + digits;
    assert(marked.last() == digits[7]);
    assert(bare(marked));
    lemma_white_space_is_cut(before, marked, after);
    assert(marked.skip(2) =~= digits);
    assert(past_prefix(marked) == past_prefix(digits));
}

/// One more digit makes a number ten or sixteen times as large and adds the digit; what is
/// no digit, or needs more than 32 bits, makes no number. Nothing spells no number.
pub proof fn lemma_number_grows_by_digit(s: Seq<char>, c: char, radix: nat)
    requires
        radix == 10 || radix == 16,
        s.len() > 0 && s[0] != '+',
        number(s, radix) is Some,
    ensures
        number(Seq::empty(), radix) is None,
        digit_value(c) >= radix ==> number(s.push(c), radix) is None,
        digit_value(c) < radix && number(s, radix)->0 * radix + digit_value(c) <= u32::MAX ==> number(s.push(c), radix) == Some(
            (number(s, radix)->0 * radix + digit_value(c)) as u32,
        ),
        digit_value(c) < radix && number(s, radix)->0 * radix + digit_value(c) > u32::MAX ==> number(s.push(c), radix) is None,
        number(seq!['+'] + s, radix) == number(s, radix),
{
    let t = s.push(c);
    assert(t.drop_last() =~= s);
    assert(t[0] == s[0]);
    assert(unsigned(t) == t && unsigned(s) == s);
    assert(spelled(t, radix) == spelled(s, radix) * radix + digit_value(c));
    if digit_value(c) < radix {
        assert forall|i: int| 0 <= i < t.len() implies digit_value(#[trigger] t[i]) < radix by {
            if i < s.len() {
                assert(t[i] == s[i]);
            }
        }
    } else {
        assert(t[s.len() as int] == c);
        assert(!all_digits(t, radix));
    }
    assert((seq!['+'] + s).skip(1) =~= s);
}

/// A trace range shows the instructions from its first address to its last, both of them
/// too, and of these only those of the ticks between its limits, as far as it has any.
pub proof fn lemma_trace_range(r: TraceRange, pc: u32, tick: u32)
    ensures
        r.shows(pc, tick) ==> r.start <= pc && pc <= r.end,
        r.first_tick is None && r.last_tick is None ==> (r.shows(pc, tick) <==> r.start <= pc <= r.end),
        r.start <= r.end && r.first_tick is None && r.last_tick is None ==> r.shows(r.start, tick) && r.shows(r.end, tick),
        r.first_tick is Some && tick < r.first_tick->0 ==> !r.shows(pc, tick),
        r.last_tick is Some && tick > r.last_tick->0 ==> !r.shows(pc, tick),
        r.start <= pc <= r.end && r.first_tick == Some(tick) && r.last_tick == Some(tick) ==> r.shows(pc, tick),
        r.start <= pc <= r.end && r.first_tick is Some && r.first_tick->0 <= tick && r.last_tick is None ==> r.shows(pc, tick),
        r.start <= pc <= r.end && r.last_tick is Some && tick <= r.last_tick->0 && r.first_tick is None ==> r.shows(pc, tick),
{
}

/// The parts of a path, joined without their separators, are those of its normal form:
/// nothing is lost, nothing is added and nothing changes its order.
pub proof fn lemma_normal_path_keeps_parts(p: Seq<char>)
    ensures
        normal_path(p).filter(|c: char| !separates(c)) == p.filter(|c: char| !separates(c)),
{
    lemma_normal_prefix_keeps_parts(p, p.len());
    assert(p.take(p.len() as int) =~= p);
}

proof fn lemma_normal_prefix_keeps_parts(p: Seq<char>, n: nat)
    requires
        n <= p.len(),
    ensures
        normal_prefix(p, n).0.filter(|c: char| !separates(c)) == p.take(n as int).filter(|c: char| !separates(c)),
    decreases n,
{
    let keep = |c: char| !separates(c);
    if n == 0 {
        assert(p.take(0) =~= Seq::<char>::empty());
    } else {
        let m = (n - 1) as nat;
        lemma_normal_prefix_keeps_parts(p, m);
        let c = p[m as int];
        let (out, due) = normal_prefix(p, m);
        assert(p.take(n as int) =~= p.take(m as int).push(c));
        lemma_filter_push(p.take(m as int), c);
        lemma_filter_push(out, c);
        lemma_filter_push(out, '/');
        lemma_filter_push(out.push('/'), c);
    }
}

proof fn lemma_filter_push(s: Seq<char>, c: char)
    ensures
        s.push(c).filter(|c: char| !separates(c)) == if separates(c) {
            s.filter(|c: char| !separates(c))
        } else {
            s.filter(|c: char| !separates(c)).push(c)
        },
{
    reveal(Seq::filter);
    assert(s.push(c).drop_last() =~= s);
}

/// Names are the same in capitals and in small letters, and differ in anything else.
pub proof fn lemma_names_fold_letters(c: char, d: char)
    ensures
        folded(c) == folded(d) <==> c == d || ('A' <= c <= 'Z' && d as u32 == c as u32 + 32) || ('A' <= d <= 'Z' && c as u32
            == d as u32 + 32),
{
}

/// Whether names are the same is a matter of both and no order; each is the same as itself.
pub proof fn lemma_same_name(a: Seq<char>, b: Seq<char>, c: Seq<char>)
    ensures
        same_name(a, a),
        same_name(a, b) ==> same_name(b, a),
        same_name(a, b) && same_name(b, c) ==> same_name(a, c),
        same_name(a, b) ==> a.len() == b.len(),
{
    if same_name(a, b) {
        assert forall|i: int| 0 <= i < b.len() implies folded(#[trigger] b[i]) == folded(a[i]) by {
            assert(folded(a[i]) == folded(b[i]));
        }
        if same_name(b, c) {
            assert forall|i: int| 0 <= i < a.len() implies folded(#[trigger] a[i]) == folded(c[i]) by {
                assert(folded(b[i]) == folded(c[i]));
            }
        }
    }
}

/// A path means a resource fork that is there and that has the same name; one of just that
/// path goes before any other.
pub proof fn lemma_path_means_fork(v: VfsView, path: Seq<char>)
    ensures
        v.resource_key(path) matches Some(key) ==> v.resources.dom().contains(key) && same_name(key, path),
        v.resources.dom().contains(path) ==> v.resource_key(path) == Some(path),
{
    if v.resource_key(path) is Some && !v.resources.dom().contains(path) {
        let key = choose|key: Seq<char>| v.means_first(path, key);
        assert(v.means_first(path, key));
    } else if v.resources.dom().contains(path) {
        lemma_same_name(path, path, path);
    }
}

/// Wait loops are never skipped when that is switched off; else they are skipped when it is
/// switched on, when nobody watches the screen, and when the slice ends at a tick.
pub proof fn lemma_skipping_of_wait_loops(force_on: bool, force_off: bool, yield_for_ui: bool, has_tick_cap: bool)
    ensures
        force_off ==> !spin_gate(force_on, force_off, yield_for_ui, has_tick_cap),
        !force_off && force_on ==> spin_gate(force_on, force_off, yield_for_ui, has_tick_cap),
        !force_off && !yield_for_ui ==> spin_gate(force_on, force_off, yield_for_ui, has_tick_cap),
        !force_off && has_tick_cap ==> spin_gate(force_on, force_off, yield_for_ui, has_tick_cap),
        !force_on && yield_for_ui && !has_tick_cap ==> !spin_gate(force_on, force_off, yield_for_ui, has_tick_cap),
{
}

/// Addresses that stand for traps: 64 kilobytes for the operating system, one for each of
/// 1024 Toolbox traps, and none of both kinds. There is a hint for these and no others.
pub proof fn lemma_placeholders(pc: u32)
    ensures
        os_placeholder(pc) <==> pc / 0x1_0000 == 0xF0,
        tool_placeholder(pc) <==> pc / 0x400 == 0x0032_BF80,
        !(os_placeholder(pc) && tool_placeholder(pc)),
        placeholder_hint(pc) is Some <==> os_placeholder(pc) || tool_placeholder(pc),
{
}

} // verus!
