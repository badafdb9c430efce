use vstd::prelude::*;

use crate::text::chars_of;

verus! {

/// White space as Unicode has it.
pub open spec fn is_space(c: char) -> bool {
    let n = c as int;
    ||| 9 <= n <= 13
    ||| n == 0x20
    ||| n == 0x85
    ||| n == 0xA0
    ||| n == 0x1680
    ||| 0x2000 <= n <= 0x200A
    ||| n == 0x2028
    ||| n == 0x2029
    ||| n == 0x202F
    ||| n == 0x205F
    ||| n == 0x3000
}

fn space(c: char) -> (r: bool)
    ensures
        r == is_space(c),
{
    ('\u{9}' <= c && c <= '\u{D}') || c == ' ' || c == '\u{85}' || c == '\u{A0}' || c == '\u{1680}' || ('\u{2000}' <= c && c
        <= '\u{200A}') || c == '\u{2028}' || c == '\u{2029}' || c == '\u{202F}' || c == '\u{205F}' || c == '\u{3000}'
}

/// The value of a digit, in either case.
pub open spec fn digit_value(c: char) -> nat {
    match c {
        '0' => 0,
        '1' => 1,
        '2' => 2,
        '3' => 3,
        '4' => 4,
        '5' => 5,
        '6' => 6,
        '7' => 7,
        '8' => 8,
        '9' => 9,
        'a' | 'A' => 10,
        'b' | 'B' => 11,
        'c' | 'C' => 12,
        'd' | 'D' => 13,
        'e' | 'E' => 14,
        'f' | 'F' => 15,
        _ => 16,
    }
}

fn digit(c: char) -> (r: u32)
    ensures
        r == digit_value(c),
        r <= 16,
{
    match c {
        '0' => 0,
        '1' => 1,
        '2' => 2,
        '3' => 3,
        '4' => 4,
        '5' => 5,
        '6' => 6,
        '7' => 7,
        '8' => 8,
        '9' => 9,
        'a' | 'A' => 10,
        'b' | 'B' => 11,
        'c' | 'C' => 12,
        'd' | 'D' => 13,
        'e' | 'E' => 14,
        'f' | 'F' => 15,
        _ => 16,
    }
}

/// Every character is a digit in this base.
pub open spec fn all_digits(s: Seq<char>, radix: nat) -> bool {
    forall|i: int| 0 <= i < s.len() ==> digit_value(#[trigger] s[i]) < radix
}

/// The number that some digits spell.
pub open spec fn spelled(s: Seq<char>, radix: nat) -> nat
    decreases s.len(),
{
    if s.len() == 0 {
        0
    } else {
        spelled(s.drop_last(), radix) * radix + digit_value(s.last())
    }
}

/// The text without a leading plus sign.
pub open spec fn unsigned(s: Seq<char>) -> Seq<char> {
    if s.len() > 0 && s[0] == '+' {
        s.skip(1)
    } else {
        s
    }
}

/// The number of 32 bits that a text spells: one or more digits, after a plus
/// sign or without one.
pub open spec fn number(s: Seq<char>, radix: nat) -> Option<u32> {
    let t = unsigned(s);
    if t.len() > 0 && all_digits(t, radix) && spelled(t, radix) <= u32::MAX {
        Some(spelled(t, radix) as u32)
    } else {
        None
    }
}

proof fn lemma_spelled_grows(s: Seq<char>, radix: nat, i: int)
    requires
        0 <= i <= s.len(),
        radix >= 1,
    ensures
        spelled(s.take(i), radix) <= spelled(s, radix),
    decreases s.len(),
{
    if i == s.len() {
        assert(s.take(i) =~= s);
    } else {
        lemma_spelled_grows(s.drop_last(), radix, i);
        assert(s.drop_last().take(i) =~= s.take(i));
        let n = spelled(s.drop_last(), radix);
        assert(n * radix >= n) by (nonlinear_arith)
            requires
                radix >= 1,
                n >= 0,
        ;
    }
}

/// Reads a number of 32 bits from part of a text.
fn read_number(chars: &Vec<char>, from: usize, to: usize, radix: u32) -> (r: Option<u32>)
    requires
        from <= to <= chars.len(),
        1 <= radix <= 16,
    ensures
        r == number(chars@.subrange(from as int, to as int), radix as nat),
{
    let ghost s = chars@.subrange(from as int, to as int);
    let first: usize = if from < to && chars[from] == '+' { from + 1 } else { from };
    let ghost t = unsigned(s);
    assert(t =~= chars@.subrange(first as int, to as int));
    if first == to {
        return None;
    }
    let mut value: u64 = 0;
    let mut i: usize = first;
    while i < to
        invariant
            first <= i <= to <= chars.len(),
            t == chars@.subrange(first as int, to as int),
            t == unsigned(chars@.subrange(from as int, to as int)),
            s == chars@.subrange(from as int, to as int),
            t.len() > 0,
            1 <= radix <= 16,
            value == spelled(t.take(i - first), radix as nat),
            value <= u32::MAX,
            forall|k: int| 0 <= k < i - first ==> digit_value(#[trigger] t[k]) < radix,
        decreases to - i,
    {
        let d: u32 = digit(chars[i]);
        let ghost k = i - first;
        assert(t[k] == chars@[i as int]);
        if d >= radix {
            assert(!all_digits(t, radix as nat));
            return None;
        }
        assert(value * radix <= 0xFFFF_FFFF * 16) by (nonlinear_arith)
            requires
                value <= 0xFFFF_FFFF,
                radix <= 16,
        ;
        value = value * radix as u64 + d as u64;
        assert(t.take(k + 1).drop_last() =~= t.take(k));
        assert(t.take(k + 1).last() == t[k]);
        if value > u32::MAX as u64 {
            proof {
                lemma_spelled_grows(t, radix as nat, k + 1);
            }
            return None;
        }
        i += 1;
    }
    assert(t.take(to - first) =~= t);
    Some(value as u32)
}

/// Position from which on the text has no white space in front.
pub open spec fn text_start(s: Seq<char>, from: int) -> int
    decreases s.len() - from,
{
    if 0 <= from < s.len() && is_space(s[from]) {
        text_start(s, from + 1)
    } else {
        from
    }
}

/// Position up to which the text, from `from` on, has no white space behind.
pub open spec fn text_end(s: Seq<char>, from: int, to: int) -> int
    decreases to - from,
{
    if from < to <= s.len() && 0 <= from && is_space(s[to - 1]) {
        text_end(s, from, to - 1)
    } else {
        to
    }
}

/// The text without white space at its ends.
pub open spec fn trimmed(s: Seq<char>) -> Seq<char> {
    let from = text_start(s, 0);
    s.subrange(from, text_end(s, from, s.len() as int))
}

/// The text without any number of `0x` in front.
pub open spec fn past_prefix(s: Seq<char>) -> Seq<char>
    decreases s.len(),
{
    if s.len() >= 2 && s[0] == '0' && s[1] == 'x' {
        past_prefix(s.skip(2))
    } else {
        s
    }
}

/// An address in hexadecimal, as a setting gives it.
pub open spec fn address(s: Seq<char>) -> Option<u32> {
    number(past_prefix(trimmed(s)), 16)
}

/// Position of the first colon at or after `from`, or the length.
pub open spec fn colon(s: Seq<char>, from: int) -> int
    decreases s.len() - from,
{
    if 0 <= from < s.len() {
        if s[from] == ':' {
            from
        } else {
            colon(s, from + 1)
        }
    } else {
        s.len() as int
    }
}

/// A range of addresses that a setting spells as two addresses with a colon
/// between them. What stands behind a second colon is not read.
pub open spec fn address_range(s: Seq<char>) -> Option<(u32, u32)> {
    let first = colon(s, 0);
    if first < s.len() {
        match (address(s.subrange(0, first)), address(s.subrange(first + 1, colon(s, first + 1)))) {
            (Some(start), Some(end)) => Some((start, end)),
            _ => None,
        }
    } else {
        None
    }
}

fn find_colon(chars: &Vec<char>, from: usize) -> (r: usize)
    requires
        from <= chars.len(),
    ensures
        from <= r <= chars.len(),
        r == colon(chars@, from as int),
{
    let mut i: usize = from;
    while i < chars.len() && chars[i] != ':'
        invariant
            from <= i <= chars.len(),
            colon(chars@, i as int) == colon(chars@, from as int),
        decreases chars.len() - i,
    {
        i += 1;
    }
    i
}

fn read_address(chars: &Vec<char>, from: usize, to: usize) -> (r: Option<u32>)
    requires
        from <= to <= chars.len(),
    ensures
        r == address(chars@.subrange(from as int, to as int)),
{
    let ghost s = chars@.subrange(from as int, to as int);
    let mut a: usize = from;
    while a < to && space(chars[a])
        invariant
            from <= a <= to <= chars.len(),
            s == chars@.subrange(from as int, to as int),
            text_start(s, a - from) == text_start(s, 0),
        decreases to - a,
    {
        assert(s[a - from] == chars@[a as int]);
        a += 1;
    }
    assert(a < to ==> s[a - from] == chars@[a as int]);
    assert(text_start(s, 0) == a - from);
    let mut b: usize = to;
    while a < b && space(chars[b - 1])
        invariant
            from <= a <= b <= to <= chars.len(),
            s == chars@.subrange(from as int, to as int),
            text_end(s, a - from, b - from) == text_end(s, a - from, s.len() as int),
        decreases b,
    {
        assert(s[b - from - 1] == chars@[b - 1]);
        b -= 1;
    }
    assert(a < b ==> s[b - from - 1] == chars@[b - 1]);
    assert(text_end(s, a - from, s.len() as int) == b - from);
    assert(trimmed(s) =~= chars@.subrange(a as int, b as int));
    let mut p: usize = a;
    while b - p >= 2 && chars[p] == '0' && chars[p + 1] == 'x'
        invariant
            a <= p <= b <= chars.len(),
            past_prefix(chars@.subrange(p as int, b as int)) == past_prefix(chars@.subrange(a as int, b as int)),
        decreases b - p,
    {
        let ghost t = chars@.subrange(p as int, b as int);
        assert(t[0] == '0' && t[1] == 'x');
        assert(t.skip(2) =~= chars@.subrange(p as int + 2, b as int));
        p += 2;
    }
    let ghost t = chars@.subrange(p as int, b as int);
    assert(p + 2 <= b ==> t[0] == chars@[p as int] && t[1] == chars@[p + 1]);
    read_number(chars, p, b, 16)
}

/// Which instructions a trace shows: those at addresses from `start` to `end`,
/// at ticks within the limits that are set.
#[derive(Clone, Copy, Debug, PartialEq, Eq)]
pub struct TraceRange {
    pub start: u32,
    pub end: u32,
    pub first_tick: Option<u32>,
    pub last_tick: Option<u32>,
}

/// The tick limit that a setting spells in decimal.
pub open spec fn tick_limit(setting: Option<Seq<char>>) -> Option<u32> {
    match setting {
        Some(s) => number(s, 10),
        None => None,
    }
}

pub open spec fn setting_view(setting: Option<&str>) -> Option<Seq<char>> {
    match setting {
        Some(s) => Some(s@),
        None => None,
    }
}

fn read_tick_limit(setting: Option<&str>) -> (r: Option<u32>)
    ensures
        r == tick_limit(setting_view(setting)),
{
    match setting {
        Some(s) => {
            let chars: Vec<char> = chars_of(s);
            assert(chars@.subrange(0, chars@.len() as int) =~= s@);
            read_number(&chars, 0, chars.len(), 10)
        },
        None => None,
    }
}

impl TraceRange {
    /// Reads the range from its setting and the two tick limits from theirs. A
    /// limit that spells no number is no limit.
    pub fn parse(range: &str, first_tick: Option<&str>, last_tick: Option<&str>) -> (r: Option<Self>)
        ensures
            r == match address_range(range@) {
                Some((start, end)) => Some(
                    TraceRange {
                        start,
                        end,
                        first_tick: tick_limit(setting_view(first_tick)),
                        last_tick: tick_limit(setting_view(last_tick)),
                    },
                ),
                None => None,
            },
    {
        let chars: Vec<char> = chars_of(range);
        let first: usize = find_colon(&chars, 0);
        if first >= chars.len() {
            return None;
        }
        let second: usize = find_colon(&chars, first + 1);
        match (read_address(&chars, 0, first), read_address(&chars, first + 1, second)) {
            (Some(start), Some(end)) => Some(
                TraceRange { start, end, first_tick: read_tick_limit(first_tick), last_tick: read_tick_limit(last_tick) },
            ),
            _ => None,
        }
    }

    /// An instruction at `pc`, at this tick, is shown.
    pub open spec fn shows(self, pc: u32, tick: u32) -> bool {
        &&& self.start <= pc <= self.end
        &&& self.first_tick matches Some(t) ==> t <= tick
        &&& self.last_tick matches Some(t) ==> tick <= t
    }

    /// Whether an instruction at `pc`, at this tick, is shown.
    pub fn contains(&self, pc: u32, tick: u32) -> (r: bool)
        ensures
            r == self.shows(pc, tick),
    {
        let begun: bool = match self.first_tick {
            Some(t) => t <= tick,
            None => true,
        };
        let lasts: bool = match self.last_tick {
            Some(t) => tick <= t,
            None => true,
        };
        self.start <= pc && pc <= self.end && begun && lasts
    }
}

} // verus!
