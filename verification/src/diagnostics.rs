use std::collections::{HashMap, VecDeque};

use vstd::prelude::*;

use crate::cpu::Register;
use crate::policy::{decode_fakeptr_pc, placeholder_hint};
use crate::runner::{FixtureRunner, RunnerView};

verus! {

broadcast use vstd::std_specs::hash::group_hash_axioms;

/// Most instructions that a trace keeps.
pub const TRACE_LENGTH: usize = 200;

/// One instruction in this many has its address counted.
pub const PC_SAMPLE_INTERVAL: u64 = 1000;

/// Number of different instruction words.
pub const OPCODES: usize = 65536;

/// An instruction that is about to run.
#[derive(Clone, Copy, Debug, PartialEq, Eq)]
pub struct TraceEntry {
    pub pc: u32,
    pub opcode: u16,
    pub a0: u32,
    pub sp: u32,
    pub a6: u32,
    pub a5: u32,
}

/// Counts by key, highest first and, among equal counts, lowest key first.
pub open spec fn ranked(s: Seq<(u32, u64)>) -> bool {
    forall|i: int, j: int| #![trigger s[i], s[j]] 0 <= i < j < s.len() ==> precedes(s[i], s[j])
}

/// One count stands before another.
pub open spec fn precedes(a: (u32, u64), b: (u32, u64)) -> bool {
    a.1 > b.1 || (a.1 == b.1 && a.0 < b.0)
}

/// The sum of some counts.
pub open spec fn sum_of(s: Seq<(u32, u64)>) -> nat
    decreases s.len(),
{
    if s.len() == 0 {
        0
    } else {
        sum_of(s.drop_last()) + s.last().1 as nat
    }
}

/// The highest counts of a histogram, with how many keys it has and the sum of
/// all its counts.
pub struct Ranking {
    pub top: Vec<(u32, u64)>,
    pub distinct: usize,
    pub total: u64,
}

/// A ranking of these counts that shows `n` of them.
pub open spec fn ranks(r: Ranking, all: Seq<(u32, u64)>, n: nat) -> bool {
    &&& r.top@ == all.take(if n < all.len() { n as int } else { all.len() as int })
    &&& r.distinct == all.len()
    &&& r.total == if sum_of(all) <= u64::MAX { sum_of(all) } else { u64::MAX as nat }
}

/// What a run was seen to do.
pub struct Diagnostics {
    trace: VecDeque<TraceEntry>,
    opcodes: Vec<u64>,
    pcs: HashMap<u32, u64>,
}

/// What a run was seen to do, as a mathematical value.
pub struct DiagnosticsView {
    /// The last instructions, oldest first.
    pub trace: Seq<TraceEntry>,
    /// How often each instruction word ran.
    pub opcodes: Seq<u64>,
    /// How often each address was seen.
    pub pcs: Map<u32, u64>,
}

spec fn same_count(e: (&u32, &u64), x: (u32, u64)) -> bool {
    *e.0 == x.0 && *e.1 == x.1
}

/// Count `x` is among the first `n` that were met.
spec fn met(all: Seq<(&u32, &u64)>, n: int, x: (u32, u64)) -> bool {
    exists|j: int| 0 <= j < n && #[trigger] same_count(all[j], x)
}

/// The position at which a count belongs.
fn rank_of(v: &Vec<(u32, u64)>, e: (u32, u64)) -> (r: usize)
    requires
        ranked(v@),
        forall|i: int| 0 <= i < v@.len() ==> (#[trigger] v@[i]).0 != e.0,
    ensures
        r <= v@.len(),
        forall|i: int| 0 <= i < r ==> precedes(#[trigger] v@[i], e),
        forall|i: int| r <= i < v@.len() ==> precedes(e, #[trigger] v@[i]),
{
    let mut p: usize = 0;
    while p < v.len() && (v[p].1 > e.1 || (v[p].1 == e.1 && v[p].0 < e.0))
        invariant
            p <= v@.len(),
            forall|i: int| 0 <= i < p ==> precedes(#[trigger] v@[i], e),
        decreases v@.len() - p,
    {
        p += 1;
    }
    assert forall|i: int| p <= i < v@.len() implies precedes(e, #[trigger] v@[i]) by {
        assert(!precedes(v@[p as int], e));
        assert(v@[p as int].0 != e.0);
        assert(i > p ==> precedes(v@[p as int], v@[i]));
    }
    p
}

fn insert_ranked(v: &mut Vec<(u32, u64)>, e: (u32, u64))
    requires
        ranked(old(v)@),
        forall|i: int| 0 <= i < old(v)@.len() ==> (#[trigger] old(v)@[i]).0 != e.0,
    ensures
        ranked(final(v)@),
        final(v)@.len() == old(v)@.len() + 1,
        final(v)@.contains(e),
        forall|x: (u32, u64)| old(v)@.contains(x) ==> #[trigger] final(v)@.contains(x),
        forall|x: (u32, u64)| #[trigger] final(v)@.contains(x) ==> x == e || old(v)@.contains(x),
{
    let p: usize = rank_of(v, e);
    let ghost before = v@;
    v.insert(p, e);
    proof {
        assert(v@ == before.insert(p as int, e));
        assert(v@[p as int] == e);
        assert forall|i: int, j: int| #![trigger v@[i], v@[j]] 0 <= i < j < v@.len() implies precedes(v@[i], v@[j]) by {
            let a = if i < p { i } else { i - 1 };
            let b = if j < p { j } else { j - 1 };
            if i != p {
                assert(v@[i] == before[a]);
            }
            if j != p {
                assert(v@[j] == before[b]);
            }
        }
        assert forall|x: (u32, u64)| before.contains(x) implies #[trigger] v@.contains(x) by {
            let i = choose|i: int| 0 <= i < before.len() && before[i] == x;
            assert(v@[if i < p { i } else { i + 1 }] == x);
        }
        assert forall|x: (u32, u64)| #[trigger] v@.contains(x) implies x == e || before.contains(x) by {
            let i = choose|i: int| 0 <= i < v@.len() && v@[i] == x;
            if i != p {
                assert(before[if i < p { i } else { i - 1 }] == x);
            }
        }
    }
}

/// The sum of the counts and the first `n` of them.
fn summarize(all: Vec<(u32, u64)>, n: usize) -> (r: Ranking)
    ensures
        ranks(r, all@, n as nat),
{
    let mut top: Vec<(u32, u64)> = Vec::new();
    let mut total: u64 = 0;
    let mut i: usize = 0;
    while i < all.len()
        invariant
            i <= all@.len(),
            top@ == all@.take(if n < i { n as int } else { i as int }),
            total == if sum_of(all@.take(i as int)) <= u64::MAX { sum_of(all@.take(i as int)) } else { u64::MAX as nat },
        decreases all@.len() - i,
    {
        let e: (u32, u64) = all[i];
        let ghost here = all@.take(i as int + 1);
        assert(here.drop_last() =~= all@.take(i as int));
        assert(here.last() == e);
        total = total.saturating_add(e.1);
        if i < n {
            top.push(e);
            assert(top@ =~= here);
        }
        i += 1;
    }
    assert(all@.take(i as int) =~= all@);
    Ranking { top, distinct: all.len(), total }
}

impl DiagnosticsView {
    /// `all` lists the words that ran, each with its count, in order of rank.
    pub open spec fn opcode_counts(self, all: Seq<(u32, u64)>) -> bool {
        &&& ranked(all)
        &&& forall|k: u32, n: u64| #[trigger]
            all.contains((k, n)) <==> (k < self.opcodes.len() && n > 0 && self.opcodes[k as int] == n)
    }

    /// `all` lists the addresses that were seen, each with its count, in order of
    /// rank.
    pub open spec fn pc_counts(self, all: Seq<(u32, u64)>) -> bool {
        &&& ranked(all)
        &&& forall|k: u32, n: u64| #[trigger]
            all.contains((k, n)) <==> (self.pcs.contains_key(k) && self.pcs[k] == n)
    }

    /// The latest of the first `n` instructions that ran at a placeholder for a
    /// trap's address.
    pub open spec fn placeholder_before(self, n: int) -> Option<int>
        decreases n,
    {
        if n <= 0 || n > self.trace.len() {
            None
        } else if placeholder_hint(self.trace[n - 1].pc) is Some {
            Some(n - 1)
        } else {
            self.placeholder_before(n - 1)
        }
    }
}

impl Diagnostics {
    pub closed spec fn view(&self) -> DiagnosticsView {
        DiagnosticsView { trace: self.trace@, opcodes: self.opcodes@, pcs: self.pcs@ }
    }

    /// The tables have their sizes.
    pub closed spec fn wf(&self) -> bool {
        &&& self.trace@.len() <= TRACE_LENGTH
        &&& self.opcodes@.len() == OPCODES
    }

    /// Nothing was seen.
    pub fn new() -> (r: Self)
        ensures
            r.wf(),
            r@.trace == Seq::<TraceEntry>::empty(),
            r@.opcodes == Seq::new(OPCODES as nat, |i: int| 0u64),
            r@.pcs == Map::<u32, u64>::empty(),
    {
        let mut opcodes: Vec<u64> = Vec::new();
        let mut i: usize = 0;
        while i < OPCODES
            invariant
                i <= OPCODES,
                opcodes@ == Seq::new(i as nat, |k: int| 0u64),
            decreases OPCODES - i,
        {
            opcodes.push(0);
            i += 1;
            assert(opcodes@ =~= Seq::new(i as nat, |k: int| 0u64));
        }
        let r = Diagnostics { trace: VecDeque::new(), opcodes, pcs: HashMap::new() };
        assert(r@.trace =~= Seq::<TraceEntry>::empty());
        assert(r@.pcs =~= Map::<u32, u64>::empty());
        r
    }

    /// Keeps an instruction; the oldest one goes once the trace is full.
    pub fn record(&mut self, entry: TraceEntry)
        requires
            old(self).wf(),
        ensures
            final(self).wf(),
            final(self)@ == (DiagnosticsView {
                trace: (if old(self)@.trace.len() >= TRACE_LENGTH {
                    old(self)@.trace.skip(1)
                } else {
                    old(self)@.trace
                }).push(entry),
                ..old(self)@
            }),
    {
        let ghost before = self.trace@;
        if self.trace.len() >= TRACE_LENGTH {
            self.trace.pop_front();
            assert(self.trace@ =~= before.skip(1));
        }
        self.trace.push_back(entry);
    }

    /// Counts an instruction word.
    pub fn count_opcode(&mut self, opcode: u16)
        requires
            old(self).wf(),
        ensures
            final(self).wf(),
            final(self)@ == (DiagnosticsView {
                opcodes: old(self)@.opcodes.update(
                    opcode as int,
                    if old(self)@.opcodes[opcode as int] < u64::MAX {
                        (old(self)@.opcodes[opcode as int] + 1) as u64
                    } else {
                        u64::MAX
                    },
                ),
                ..old(self)@
            }),
    {
        let n: u64 = self.opcodes[opcode as usize];
        self.opcodes.set(opcode as usize, n.saturating_add(1));
    }

    /// Counts the address of an instruction, should it be the turn of this one.
    pub fn sample_pc(&mut self, total_instructions: u64, pc: u32)
        requires
            old(self).wf(),
        ensures
            final(self).wf(),
            final(self)@ == (DiagnosticsView {
                pcs: if total_instructions % PC_SAMPLE_INTERVAL == 0 {
                    let n = if old(self)@.pcs.contains_key(pc) { old(self)@.pcs[pc] } else { 0u64 };
                    old(self)@.pcs.insert(pc, if n < u64::MAX { (n + 1) as u64 } else { u64::MAX })
                } else {
                    old(self)@.pcs
                },
                ..old(self)@
            }),
    {
        if total_instructions % PC_SAMPLE_INTERVAL != 0 {
            return;
        }
        let n: u64 = match self.pcs.get(&pc) {
            Some(n) => *n,
            None => 0,
        };
        self.pcs.insert(pc, n.saturating_add(1));
    }

    /// The `n` instruction words that ran most often.
    pub fn top_opcodes(&self, n: usize) -> (r: Ranking)
        requires
            self.wf(),
        ensures
            exists|all: Seq<(u32, u64)>| self@.opcode_counts(all) && #[trigger] ranks(r, all, n as nat),
    {
        let mut all: Vec<(u32, u64)> = Vec::new();
        let mut i: usize = 0;
        while i < OPCODES
            invariant
                i <= OPCODES,
                self.opcodes@.len() == OPCODES,
                ranked(all@),
                forall|k: u32, c: u64| #[trigger]
                    all@.contains((k, c)) <==> (k < i && c > 0 && self.opcodes@[k as int] == c),
            decreases OPCODES - i,
        {
            let c: u64 = self.opcodes[i];
            if c > 0 {
                let ghost before = all@;
                proof {
                    assert forall|j: int| 0 <= j < all@.len() implies (#[trigger] all@[j]).0 != i as u32 by {
                        assert(all@.contains((all@[j].0, all@[j].1)));
                    }
                }
                insert_ranked(&mut all, (i as u32, c));
                assert forall|k: u32, m: u64| #[trigger]
                    all@.contains((k, m)) <==> (k < i + 1 && m > 0 && self.opcodes@[k as int] == m) by {
                    if all@.contains((k, m)) && (k, m) != (i as u32, c) {
                        assert(before.contains((k, m)));
                    }
                }
            }
            i += 1;
        }
        assert(self@.opcode_counts(all@));
        summarize(all, n)
    }

    /// The `n` addresses that were seen most often.
    pub fn top_pcs(&self, n: usize) -> (r: Ranking)
        requires
            self.wf(),
        ensures
            exists|all: Seq<(u32, u64)>| self@.pc_counts(all) && #[trigger] ranks(r, all, n as nat),
    {
        let mut all: Vec<(u32, u64)> = Vec::new();
        for e in seen: self.pcs.iter()
            invariant
                ranked(all@),
                seen.seq().no_duplicates(),
                forall|j: int|
                    0 <= j < seen.seq().len() ==> self.pcs@.contains_key(*(#[trigger] seen.seq()[j]).0)
                        && self.pcs@[*seen.seq()[j].0] == *seen.seq()[j].1,
                forall|k: u32| #[trigger] self.pcs@.contains_key(k) ==> seen.seq().contains((&k, &self.pcs@[k])),
                forall|x: (u32, u64)| #[trigger] all@.contains(x) ==> met(seen.seq(), seen.index(), x),
                forall|j: int|
                    0 <= j < seen.index() ==> all@.contains((*(#[trigger] seen.seq()[j]).0, *seen.seq()[j].1)),
        {
            let pair: (u32, u64) = (*e.0, *e.1);
            let ghost at = seen.index();
            let ghost before = all@;
            proof {
                assert forall|i: int| 0 <= i < all@.len() implies (#[trigger] all@[i]).0 != pair.0 by {
                    assert(all@.contains(all@[i]));
                    let j = choose|j: int| 0 <= j < at && #[trigger] same_count(seen.seq()[j], all@[i]);
                    assert(seen.seq()[j] != seen.seq()[at]);
                }
            }
            insert_ranked(&mut all, pair);
            proof {
                assert(same_count(seen.seq()[at], pair));
                assert forall|x: (u32, u64)| #[trigger] all@.contains(x) implies met(seen.seq(), at + 1, x) by {
                    if x != pair {
                        assert(before.contains(x));
                        let j = choose|j: int| 0 <= j < at && #[trigger] same_count(seen.seq()[j], x);
                        assert(same_count(seen.seq()[j], x));
                    }
                }
            }
        }
        assert(self@.pc_counts(all@));
        summarize(all, n)
    }

    /// The instructions that are kept, oldest first.
    pub fn trace_len(&self) -> (r: usize)
        ensures
            r == self@.trace.len(),
    {
        self.trace.len()
    }

    /// The instruction at this position of the trace.
    pub fn trace_at(&self, i: usize) -> (r: TraceEntry)
        requires
            i < self@.trace.len(),
        ensures
            r == self@.trace[i as int],
    {
        self.trace[i]
    }

    /// The address of the latest instruction that ran at a placeholder for a trap's
    /// address, and what can be said of it.
    pub fn trace_find_fakeptr_entry(&self) -> (r: Option<(u32, String)>)
        ensures
            match self@.placeholder_before(self@.trace.len() as int) {
                Some(i) => {
                    &&& r matches Some((pc, hint))
                    &&& pc == self@.trace[i].pc
                    &&& Some(hint@) == placeholder_hint(pc)
                },
                None => r is None,
            },
    {
        let mut n: usize = self.trace.len();
        while n > 0
            invariant
                n <= self.trace@.len(),
                self@.placeholder_before(n as int) == self@.placeholder_before(self@.trace.len() as int),
            decreases n,
        {
            let pc: u32 = self.trace[n - 1].pc;
            if let Some(hint) = decode_fakeptr_pc(pc) {
                return Some((pc, hint));
            }
            n -= 1;
        }
        None
    }
}

impl RunnerView {
    /// The instruction at the program counter.
    pub open spec fn next_instruction(self) -> TraceEntry {
        TraceEntry {
            pc: self.cpu.reg(Register::PC),
            opcode: self.bus.get_word(self.cpu.reg(Register::PC)),
            a0: self.cpu.reg(Register::A0),
            sp: self.cpu.reg(Register::A7),
            a6: self.cpu.reg(Register::A6),
            a5: self.cpu.reg(Register::A5),
        }
    }
}

impl FixtureRunner {
    /// The instruction at the program counter.
    pub fn next_instruction(&self) -> (r: TraceEntry)
        ensures
            r == self@.next_instruction(),
    {
        let pc: u32 = self.cpu.read_reg(Register::PC);
        TraceEntry {
            pc,
            opcode: self.bus.read_word(pc),
            a0: self.cpu.read_reg(Register::A0),
            sp: self.cpu.read_reg(Register::A7),
            a6: self.cpu.read_reg(Register::A6),
            a5: self.cpu.read_reg(Register::A5),
        }
    }
}

/// What the instructions of a group do; the group is the first digit of the word.
pub open spec fn group_name(opcode: u16) -> Seq<char> {
    match opcode / 4096 {
        0 => "bit-op/MOVEP/immediate"@,
        1 => "MOVE.B"@,
        2 => "MOVE.L"@,
        3 => "MOVE.W"@,
        4 => "misc (LEA/JSR/etc.)"@,
        5 => "ADDQ/SUBQ/Scc/DBcc"@,
        6 => "Bcc/BSR"@,
        7 => "MOVEQ"@,
        8 => "OR/DIV/SBCD"@,
        9 => "SUB/SUBX"@,
        10 => "A-line (should be in trap-hist)"@,
        11 => "CMP/EOR"@,
        12 => "AND/MUL/ABCD/EXG"@,
        13 => "ADD/ADDX"@,
        14 => "shift/rotate"@,
        _ => "F-line (FPU/coproc)"@,
    }
}

/// What the instructions of a word's group do.
pub fn opcode_group_name(opcode: u16) -> (r: &'static str)
    ensures
        r@ == group_name(opcode),
{
    match opcode / 4096 {
        0 => "bit-op/MOVEP/immediate",
        1 => "MOVE.B",
        2 => "MOVE.L",
        3 => "MOVE.W",
        4 => "misc (LEA/JSR/etc.)",
        5 => "ADDQ/SUBQ/Scc/DBcc",
        6 => "Bcc/BSR",
        7 => "MOVEQ",
        8 => "OR/DIV/SBCD",
        9 => "SUB/SUBX",
        10 => "A-line (should be in trap-hist)",
        11 => "CMP/EOR",
        12 => "AND/MUL/ABCD/EXG",
        13 => "ADD/ADDX",
        14 => "shift/rotate",
        _ => "F-line (FPU/coproc)",
    }
}

/// What usually stands at an address.
pub open spec fn region_name(pc: u32) -> Seq<char> {
    if pc < 0x0001_0000 {
        "low-mem"@
    } else if pc < 0x0060_0000 {
        "app code"@
    } else if pc < 0x0100_0000 {
        "heap/data"@
    } else if pc < 0x0200_0000 {
        "ROM"@
    } else {
        "other"@
    }
}

/// What usually stands at an address.
pub fn pc_region_name(pc: u32) -> (r: &'static str)
    ensures
        r@ == region_name(pc),
{
    if pc < 0x0001_0000 {
        "low-mem"
    } else if pc < 0x0060_0000 {
        "app code"
    } else if pc < 0x0100_0000 {
        "heap/data"
    } else if pc < 0x0200_0000 {
        "ROM"
    } else {
        "other"
    }
}

} // verus!
