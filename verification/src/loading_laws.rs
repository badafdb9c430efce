use vstd::prelude::*;

use crate::loader::{
    aligned4, app_loaded, code0_loaded, code_order, codes_loaded, entries_of, fork_size, globals_loaded, heap_start,
    jump_count, jump_table, larger, less, less4, load_plan, more, segment_loaded, segments_loaded,
    table_ready, with_code, with_stub, with_stubs, AppView, LoadPlan, LoadState,
};
use crate::memory::{apart, group_memory_bytes, group_memory_lengths, group_memory_reads, long_at, word_at, BusView};
use crate::resource::{be16, be32, resource_at, ResourceView};
use crate::resource_manager::{handle_made, ResourceTable};
use crate::runner::{RunnerView, APP_ZONE_HEADER_SIZE};

verus! {

broadcast use group_memory_lengths;

/// A code segment, by its resource type.
pub open spec fn is_code(r: ResourceView) -> bool {
    r.res_type == 0x434F_4445
}

/// Resource `i` is the first of its type and number.
pub open spec fn is_first(rs: Seq<ResourceView>, i: int, res_type: u32, id: int) -> bool {
    &&& 0 <= i < rs.len()
    &&& rs[i].res_type == res_type
    &&& rs[i].id == id
    &&& forall|j: int| 0 <= j < i ==> (#[trigger] rs[j]).res_type != res_type || rs[j].id != id
}

/// The memory that the code segments among the first `n` resources need at most: their
/// bytes, and for each its size and what rounding up costs.
pub open spec fn code_room(rs: Seq<ResourceView>, n: nat) -> nat
    decreases n,
{
    if n == 0 {
        0
    } else if is_code(rs[n - 1]) {
        code_room(rs, (n - 1) as nat) + rs[n - 1].data.len() + 12
    } else {
        code_room(rs, (n - 1) as nat)
    }
}

/// No code segment is relocated, and each has its jump table entries where entries begin.
pub open spec fn near_model(rs: Seq<ResourceView>) -> bool {
    forall|i: int|
        0 <= i < rs.len() && is_code(#[trigger] rs[i]) && rs[i].id != 0 && rs[i].data.len() >= 4 ==> be16(rs[i].data, 0)
            != 0xFFFF && (be16(rs[i].data, 0) < 0x8000 ==> be16(rs[i].data, 0) % 8 == 0)
}

/// The application with A5 at `a5` has its areas one behind the other: the jump table that
/// code segment 0 holds lies before the copy of code segment 0, the other segments come
/// behind that, and all of it is below the end of RAM.
pub open spec fn areas_fit(rs: Seq<ResourceView>, code0: Seq<u8>, a5: u32, ram: nat) -> bool {
    let above = be32(code0, 0);
    let offset = be32(code0, 12);
    &&& 16 <= code0.len() <= 0x1000_0000
    &&& ram <= 0xFFFF_0000
    &&& offset + code0.len() - 16 <= above + 0xC000
    &&& a5 + above + 0x0010_0000 + code0.len() + code_room(rs, rs.len()) <= ram
    &&& offset + 0x000C_0000 <= 0x1000_0000
    &&& forall|i: int| 0 <= i < rs.len() ==> (#[trigger] rs[i]).data.len() <= u32::MAX
}

spec fn room(list: Seq<ResourceView>, n: nat) -> nat
    decreases n,
{
    if n == 0 {
        0
    } else {
        room(list, (n - 1) as nat) + list[n - 1].data.len() + 12
    }
}

proof fn lemma_room_of_insert(list: Seq<ResourceView>, r: ResourceView, k: int, n: nat)
    requires
        0 <= k <= list.len(),
        n <= list.len() + 1,
    ensures
        n <= k ==> room(list.insert(k, r), n) == room(list, n),
        n > k ==> room(list.insert(k, r), n) == room(list, (n - 1) as nat) + r.data.len() + 12,
    decreases n,
{
    if n > 0 {
        lemma_room_of_insert(list, r, k, (n - 1) as nat);
        if n > k + 1 {
            assert(list.insert(k, r)[n - 1] == list[n - 2]);
        }
    }
}

/// Where `with_code` puts a segment.
proof fn lemma_with_code(list: Seq<ResourceView>, r: ResourceView, k: nat) -> (j: int)
    requires
        k <= list.len(),
    ensures
        0 <= j <= k,
        with_code(list, r, k) == list.insert(j, r),
        j > 0 ==> list[j - 1].id <= r.id,
        forall|i: int| j <= i < k ==> list[i].id > r.id,
    decreases k,
{
    if k > 0 && list[k - 1].id > r.id {
        lemma_with_code(list, r, (k - 1) as nat)
    } else {
        k as int
    }
}

proof fn lemma_code_order(rs: Seq<ResourceView>, n: nat)
    requires
        n <= rs.len(),
    ensures
        room(code_order(rs, n), code_order(rs, n).len()) == code_room(rs, n),
        forall|k: int|
            0 <= k < code_order(rs, n).len() ==> is_code(#[trigger] code_order(rs, n)[k]) && exists|i: int|
                0 <= i < n && rs[i] == code_order(rs, n)[k],
        forall|i: int| 0 <= i < n && is_code(#[trigger] rs[i]) ==> code_order(rs, n).contains(rs[i]),
        forall|i: int, k: int|
            0 <= i < k < code_order(rs, n).len() ==> (#[trigger] code_order(rs, n)[i]).id <= (#[trigger] code_order(
                rs,
                n,
            )[k]).id,
    decreases n,
{
    if n > 0 {
        let m = (n - 1) as nat;
        lemma_code_order(rs, m);
        let before = code_order(rs, m);
        let r = rs[n - 1];
        let list = code_order(rs, n);
        if is_code(r) {
            let j = lemma_with_code(before, r, before.len());
            lemma_room_of_insert(before, r, j, before.len() + 1);
            assert forall|k: int| 0 <= k < list.len() implies is_code(#[trigger] list[k]) && exists|i: int|
                0 <= i < n && rs[i] == list[k] by {
                if k == j {
                    assert(rs[n - 1] == list[k]);
                } else {
                    let q = if k < j { k } else { k - 1 };
                    assert(list[k] == before[q]);
                    assert(is_code(before[q]));
                    let i = choose|i: int| 0 <= i < m && rs[i] == before[q];
                    assert(rs[i] == list[k]);
                }
            }
            assert forall|i: int| 0 <= i < n && is_code(#[trigger] rs[i]) implies list.contains(rs[i]) by {
                if i == n - 1 {
                    assert(list[j] == rs[i]);
                } else {
                    assert(before.contains(rs[i]));
                    let q = choose|q: int| 0 <= q < before.len() && before[q] == rs[i];
                    assert(list[if q < j { q } else { q + 1 }] == rs[i]);
                }
            }
            assert forall|i: int, k: int| 0 <= i < k < list.len() implies (#[trigger] list[i]).id <= (
            #[trigger] list[k]).id by {
                if i < j && k > j {
                    assert(before[i].id <= before[k - 1].id);
                } else if k == j {
                    assert(before[i].id <= before[j - 1].id);
                } else if k < j {
                    assert(before[i].id <= before[k].id);
                } else if i > j {
                    assert(before[i - 1].id <= before[k - 1].id);
                }
            }
        } else {
            assert forall|k: int| 0 <= k < list.len() implies is_code(#[trigger] list[k]) && exists|i: int|
                0 <= i < n && rs[i] == list[k] by {
                let i = choose|i: int| 0 <= i < m && rs[i] == before[k];
                assert(rs[i] == list[k]);
            }
        }
    }
}

proof fn lemma_first_found(rs: Seq<ResourceView>, res_type: u32, id: i16, i: int, from: int)
    requires
        is_first(rs, i, res_type, id as int),
        0 <= from <= i,
    ensures
        resource_at(rs, res_type, id, from) == Some(i),
    decreases i - from,
{
    if from < i {
        lemma_first_found(rs, res_type, id, i, from + 1);
    }
}

/// The eight bytes at `at` are entry `i` of the jump table that `code0` holds.
pub open spec fn entry_stands(b: BusView, at: int, code0: Seq<u8>, i: int) -> bool {
    forall|k: int| 0 <= k < 8 ==> #[trigger] b.get_byte((at + k) as u32) == code0[16 + 8 * i + k]
}

/// Entry `i` of the jump table that `code0` holds says something: it is neither empty nor
/// a place holder.
pub open spec fn entry_says(code0: Seq<u8>, i: int) -> bool {
    &&& be16(code0, 16 + 8 * i + 2) != 0xFFFF
    &&& exists|k: int| 0 <= k < 8 && #[trigger] code0[16 + 8 * i + k] != 0
}

proof fn lemma_stub_leaves_entry(b: BusView, e: u32, id: i16, at: u32, code0: Seq<u8>, i: int)
    requires
        e + 8 <= 0x1_0000_0000,
        at + 8 <= 0x1_0000_0000,
        e == at || apart(e, 8, at, 8),
        entry_stands(b, at as int, code0, i),
        entry_says(code0, i),
        0 <= i,
        16 + 8 * i + 8 <= code0.len(),
    ensures
        entry_stands(with_stub(b, e, id), at as int, code0, i),
{
    broadcast use group_memory_bytes;

    if e == at {
        let k = choose|k: int| 0 <= k < 8 && #[trigger] code0[16 + 8 * i + k] != 0;
        assert(b.get_byte((at + k) as u32) != 0);
        assert(b.get_byte((at + 2) as u32) == code0[16 + 8 * i + 2]);
        assert(b.get_byte((at + 3) as u32) == code0[16 + 8 * i + 3]);
        reveal(word_at);
        reveal(long_at);
        assert(b.get_word((at + 2) as u32) == be16(code0, 16 + 8 * i + 2));
        assert(with_stub(b, e, id) == b);
    } else {
        let c = with_stub(b, e, id);
        assert forall|k: int| 0 <= k < 8 implies #[trigger] c.get_byte((at + k) as u32) == code0[16 + 8 * i + k] by {
            let a = (at + k) as u32;
            assert(b.get_byte((at + k) as u32) == code0[16 + 8 * i + k]);
        }
    }
}

proof fn lemma_stubs_leave_entry(b: BusView, first: u32, id: i16, n: nat, at: u32, code0: Seq<u8>, i: int)
    requires
        first + 8 * n <= 0x1_0000_0000,
        at + 8 <= 0x1_0000_0000,
        (first - at) % 8 == 0,
        entry_stands(b, at as int, code0, i),
        entry_says(code0, i),
        0 <= i,
        16 + 8 * i + 8 <= code0.len(),
    ensures
        entry_stands(with_stubs(b, first, id, n), at as int, code0, i),
    decreases n,
{
    if n > 0 {
        lemma_stubs_leave_entry(b, first, id, (n - 1) as nat, at, code0, i);
        let e = first.wrapping_add((8 * (n - 1)) as u32);
        assert(e == first + 8 * (n - 1));
        lemma_stub_leaves_entry(with_stubs(b, first, id, (n - 1) as nat), e, id, at, code0, i);
    }
}

/// The segments keep the rules of the near model.
spec fn near_segments(codes: Seq<ResourceView>) -> bool {
    forall|k: int|
        0 <= k < codes.len() && (#[trigger] codes[k]).id != 0 && codes[k].data.len() >= 4 ==> be16(codes[k].data, 0)
            != 0xFFFF && (be16(codes[k].data, 0) < 0x8000 ==> be16(codes[k].data, 0) % 8 == 0)
}

proof fn lemma_own_entries(r: ResourceView)
    requires
        r.id != 0 && r.data.len() >= 4 ==> be16(r.data, 0) != 0xFFFF && (be16(r.data, 0) < 0x8000 ==> be16(r.data, 0) % 8
            == 0),
    ensures
        entries_of(r) matches Some((offset, count)) ==> offset % 8 == 0 && offset <= 0x3FFF8 && count <= 0xFFFF,
{
}

proof fn lemma_table_ready(b: BusView, codes: Seq<ResourceView>, table: u32, end: u32, n: nat, at: u32, code0: Seq<u8>, i: int)
    requires
        n <= codes.len(),
        near_segments(codes),
        table + 0x000C_0000 <= 0x1_0000_0000,
        table <= end <= 0xFFFF_FFFF,
        at == table + 8 * i,
        at + 8 <= 0x1_0000_0000,
        entry_stands(b, at as int, code0, i),
        entry_says(code0, i),
        0 <= i,
        16 + 8 * i + 8 <= code0.len(),
    ensures
        ({
            let (c, e) = table_ready(b, codes, table, end, n);
            &&& entry_stands(c, at as int, code0, i)
            &&& end <= e
            &&& e == end || e <= table + 0x000C_0000
        }),
    decreases n,
{
    if n > 0 {
        lemma_table_ready(b, codes, table, end, (n - 1) as nat, at, code0, i);
        lemma_own_entries(codes[n - 1]);
        let (before, e) = table_ready(b, codes, table, end, (n - 1) as nat);
        if let Some((offset, count)) = entries_of(codes[n - 1]) {
            let first = table.wrapping_add(offset);
            assert(first == table + offset);
            assert((first - at) % 8 == 0);
            lemma_stubs_leave_entry(before, first, codes[n - 1].id, count as nat, at, code0, i);
        }
    }
}

proof fn lemma_segment(st: LoadState, r: ResourceView, a5: u32, table: u32)
    requires
        r.data.len() <= u32::MAX,
        st.next + r.data.len() + 12 <= 0xFFFF_FFFF,
        r.id != 0 && r.data.len() >= 4 ==> be16(r.data, 0) != 0xFFFF,
    ensures
        ({
            let t = segment_loaded(st, r, a5, table);
            &&& st.next <= t.next <= st.next + r.data.len() + 12
            &&& t.bus.mem.len() == st.bus.mem.len()
            &&& forall|a: u32| a < st.next ==> #[trigger] t.bus.get_byte(a) == st.bus.get_byte(a)
            &&& t.bus == (BusView { mem: t.bus.mem, ..st.bus })
            &&& t.table == st.table
            &&& r.id != 0 ==> {
                &&& t.bases == st.bases.insert(r.id, (st.next + 4) as u32)
                &&& st.next + 4 + r.data.len() <= t.next
            }
            &&& r.id == 0 ==> t == st
        }),
{
    broadcast use group_memory_bytes;

}

proof fn lemma_segment_bytes(st: LoadState, r: ResourceView, a5: u32, table: u32)
    requires
        r.id != 0,
        st.next + r.data.len() + 12 <= 0xFFFF_FFFF,
        st.next + 4 + r.data.len() <= st.bus.mem.len() <= 0x1_0000_0000,
        r.data.len() >= 4 ==> be16(r.data, 0) != 0xFFFF,
    ensures
        ({
            let t = segment_loaded(st, r, a5, table);
            &&& t.bus.get_long(st.next) == r.data.len()
            &&& forall|k: int| 0 <= k < r.data.len() ==> t.bus.get_byte((st.next + 4 + k) as u32) == #[trigger] r.data[k]
        }),
{
    broadcast use {group_memory_reads, group_memory_bytes};

    let size = r.data.len() as u32;
    let b1 = st.bus.long(st.next, size);
    let t = segment_loaded(st, r, a5, table);
    let base = (st.next + 4) as u32;
    assert(t.bus == b1.bytes(base, r.data));
    reveal(crate::memory::set_bytes);
    reveal(long_at);
    reveal(word_at);
    assert(b1.get_long(st.next) == size);
    assert(t.bus.get_byte(st.next) == b1.get_byte(st.next));
    assert(t.bus.get_byte((st.next + 1) as u32) == b1.get_byte((st.next + 1) as u32));
    assert(t.bus.get_byte((st.next + 2) as u32) == b1.get_byte((st.next + 2) as u32));
    assert(t.bus.get_byte((st.next + 3) as u32) == b1.get_byte((st.next + 3) as u32));
}

proof fn lemma_segments(st: LoadState, codes: Seq<ResourceView>, a5: u32, table: u32, n: nat)
    requires
        n <= codes.len(),
        near_segments(codes),
        forall|k: int| 0 <= k < codes.len() ==> (#[trigger] codes[k]).data.len() <= u32::MAX,
        st.next + room(codes, n) <= 0xFFFF_FFFF,
    ensures
        ({
            let t = segments_loaded(st, codes, a5, table, n);
            &&& st.next <= t.next <= st.next + room(codes, n)
            &&& t.bus.mem.len() == st.bus.mem.len()
            &&& forall|a: u32| a < st.next ==> #[trigger] t.bus.get_byte(a) == st.bus.get_byte(a)
            &&& t.bus == (BusView { mem: t.bus.mem, ..st.bus })
            &&& t.table == st.table
        }),
    decreases n,
{
    if n > 0 {
        let m = (n - 1) as nat;
        lemma_segments(st, codes, a5, table, m);
        let s = segments_loaded(st, codes, a5, table, m);
        lemma_segment(s, codes[n - 1], a5, table);
        let t = segments_loaded(st, codes, a5, table, n);
        assert forall|a: u32| a < st.next implies #[trigger] t.bus.get_byte(a) == st.bus.get_byte(a) by {
            assert(t.bus.get_byte(a) == s.bus.get_byte(a));
        }
    }
}

/// Where segment `j` of the list begins.
#[verifier::opaque]
spec fn segment_start(st: LoadState, codes: Seq<ResourceView>, a5: u32, table: u32, j: int) -> int {
    segments_loaded(st, codes, a5, table, j as nat).next + 4
}

proof fn lemma_segment_stands(st: LoadState, codes: Seq<ResourceView>, a5: u32, table: u32, n: nat, j: int)
    requires
        0 <= j < n <= codes.len(),
        codes[j].id != 0,
        near_segments(codes),
        forall|k: int| 0 <= k < codes.len() ==> (#[trigger] codes[k]).data.len() <= u32::MAX,
        st.next + room(codes, n) <= st.bus.mem.len() <= 0xFFFF_FFFF,
    ensures
        ({
            let t = segments_loaded(st, codes, a5, table, n);
            let base = segment_start(st, codes, a5, table, j);
            let r = codes[j];
            &&& st.next + 4 <= base
            &&& base + r.data.len() <= t.next
            &&& t.bus.get_long((base - 4) as u32) == r.data.len()
            &&& forall|k: int| 0 <= k < r.data.len() ==> t.bus.get_byte((base + k) as u32) == #[trigger] r.data[k]
            &&& (forall|k: int| j < k < n ==> (#[trigger] codes[k]).id != r.id) ==> t.bases.contains_key(r.id)
                && t.bases[r.id] == base
        }),
    decreases n,
{
    reveal(segment_start);
    let m = (n - 1) as nat;
    lemma_segments(st, codes, a5, table, m);
    let s = segments_loaded(st, codes, a5, table, m);
    let t = segments_loaded(st, codes, a5, table, n);
    lemma_segment(s, codes[n - 1], a5, table);
    let base = segment_start(st, codes, a5, table, j);
    let r = codes[j];
    if j == n - 1 {
        lemma_segment_bytes(s, r, a5, table);
    } else {
        lemma_segment_stands(st, codes, a5, table, m, j);
        assert forall|k: int| 0 <= k < r.data.len() implies t.bus.get_byte((base + k) as u32) == #[trigger] r.data[k] by {
            assert(s.bus.get_byte((base + k) as u32) == r.data[k]);
            assert(((base + k) as u32) < s.next);
            assert(t.bus.get_byte((base + k) as u32) == s.bus.get_byte((base + k) as u32));
        }
        let a = (base - 4) as u32;
        assert(t.bus.get_byte(a) == s.bus.get_byte(a));
        assert(t.bus.get_byte((a + 1) as u32) == s.bus.get_byte((a + 1) as u32));
        assert(t.bus.get_byte((a + 2) as u32) == s.bus.get_byte((a + 2) as u32));
        assert(t.bus.get_byte((a + 3) as u32) == s.bus.get_byte((a + 3) as u32));
        crate::interrupt_laws::lemma_same_long(t.bus, s.bus, a);
        if forall|k: int| j < k < n ==> (#[trigger] codes[k]).id != r.id {
            assert(codes[n - 1].id != r.id);
        }
    }
}

proof fn lemma_resources_spare(t: ResourceTable, b: BusView, rs: Seq<ResourceView>, n: nat, a: u32)
    requires
        n <= rs.len(),
        a < b.heap,
        forall|i: int| 0 <= i < rs.len() ==> (#[trigger] rs[i]).data.len() <= u32::MAX,
    ensures
        t.with_resources(b, rs, n).1.heap >= b.heap,
        t.with_resources(b, rs, n).1.mem.len() == b.mem.len(),
        t.with_resources(b, rs, n).1.get_byte(a) == b.get_byte(a),
    decreases n,
{
    broadcast use group_memory_bytes;

    if n > 0 {
        lemma_resources_spare(t, b, rs, (n - 1) as nat, a);
        reveal(handle_made);
    }
}

/// What a load does, step by step, for an application whose areas fit.
struct Steps {
    p: LoadPlan,
    globals: BusView,
    zero: BusView,
    ready: BusView,
    end: u32,
    codes: Seq<ResourceView>,
    first: LoadState,
    last: LoadState,
}

#[verifier::opaque]
spec fn steps(b: BusView, rs: Seq<ResourceView>, code0: Seq<u8>, configured: u32) -> Steps {
    let p = load_plan(crate::loader::code0_header(code0)->0, fork_size(rs), configured, b.ram_size());
    let globals = globals_loaded(b, rs, p);
    let zero = code0_loaded(globals, code0, p);
    let codes = code_order(rs, rs.len());
    let (ready, end) = table_ready(
        zero,
        codes,
        p.table,
        p.table.wrapping_add((8 * jump_count(code0)) as u32),
        codes.len(),
    );
    let user = p.globals_end.wrapping_add(4);
    let first = LoadState {
        bus: ready,
        table: jump_table(code0),
        bases: Map::empty().insert(0i16, user),
        next: less4(larger(user.wrapping_add(code0.len() as u32), end).wrapping_add(4)),
    };
    Steps { p, globals, zero, ready, end, codes, first, last: segments_loaded(first, codes, p.a5, p.table, codes.len()) }
}

proof fn lemma_steps(s: RunnerView, rs: Seq<ResourceView>, t: RunnerView, app: AppView, zero: int)
    requires
        s.loaded(rs) == Some((t, app)),
        is_first(rs, zero, 0x434F_4445, 0),
        near_model(rs),
        areas_fit(rs, rs[zero].data, app.a5_base, s.bus.mem.len()),
    ensures
        ({
            let code0 = rs[zero].data;
            let g = steps(s.bus, rs, code0, s.config.load_address);
            &&& g.p.a5 == app.a5_base
            &&& g.p.table == app.a5_base + be32(code0, 12)
            &&& g.p.globals_end == app.a5_base + be32(code0, 0) + 0xC000
            &&& near_segments(g.codes)
            &&& forall|k: int| 0 <= k < g.codes.len() ==> (#[trigger] g.codes[k]).data.len() <= u32::MAX
            &&& room(g.codes, g.codes.len()) == code_room(rs, rs.len())
            &&& app.segment_bases == g.last.bases
            &&& app.jump_table == g.last.table
            &&& app.loaded_image_end == aligned4(larger(g.p.cleared_end, g.last.next))
            &&& app.code0_header == crate::loader::code0_header(code0)->0
            &&& app.initial_sp == less(s.bus.ram_size(), 16)
            &&& t.bus == s.disp.resources.with_resources(
                BusView {
                    heap: larger(g.last.bus.heap, more(heap_start(app.loaded_image_end), APP_ZONE_HEADER_SIZE)),
                    ..g.last.bus
                },
                rs,
                rs.len(),
            ).1
            &&& g.ready.mem.len() == s.bus.mem.len()
            &&& g.zero.mem.len() == s.bus.mem.len()
            &&& g.globals.mem.len() == s.bus.mem.len()
            &&& g.first.bases.contains_key(0)
            &&& g.first.bases[0] == g.p.globals_end + 4
            &&& g.globals == globals_loaded(s.bus, rs, g.p)
            &&& g.zero == code0_loaded(g.globals, code0, g.p)
            &&& g.codes == code_order(rs, rs.len())
            &&& (g.ready, g.end) == table_ready(
                g.zero,
                g.codes,
                g.p.table,
                (g.p.table + 8 * jump_count(code0)) as u32,
                g.codes.len(),
            )
            &&& g.first.bus == g.ready
            &&& g.last == segments_loaded(g.first, g.codes, g.p.a5, g.p.table, g.codes.len())
            &&& g.p.header == app.code0_header
            &&& g.p.a5 == g.p.load.wrapping_add(be32(code0, 4))
            &&& g.p.cleared_end == g.p.globals_end + 0x40000
            &&& 8 * jump_count(code0) <= code0.len() - 16
            &&& g.first.next % 4 == 0
            &&& g.first.next + room(g.codes, g.codes.len()) <= s.bus.mem.len()
            &&& g.first.next > g.p.globals_end + 4 + code0.len()
            &&& g.first.next > g.p.table + 8 * jump_count(code0)
        }),
{
    let code0 = rs[zero].data;
    lemma_first_found(rs, 0x434F_4445, 0, zero, 0);
    reveal(steps);
    reveal(RunnerView::loaded);
    reveal(codes_loaded);
    reveal(code0_loaded);
    reveal(globals_loaded);
    lemma_code_order(rs, rs.len());
    let g = steps(s.bus, rs, code0, s.config.load_address);
    assert forall|k: int| 0 <= k < g.codes.len() && (#[trigger] g.codes[k]).id != 0 && g.codes[k].data.len() >= 4 implies be16(
        g.codes[k].data,
        0,
    ) != 0xFFFF && (be16(g.codes[k].data, 0) < 0x8000 ==> be16(g.codes[k].data, 0) % 8 == 0) by {
        let i = choose|i: int| 0 <= i < rs.len() && rs[i] == g.codes[k];
        assert(is_code(rs[i]));
    }
    assert forall|k: int| 0 <= k < g.codes.len() implies (#[trigger] g.codes[k]).data.len() <= u32::MAX by {
        let i = choose|i: int| 0 <= i < rs.len() && rs[i] == g.codes[k];
        assert(rs[i].data.len() <= u32::MAX);
    }
    lemma_table_ready_len(
        g.zero,
        g.codes,
        g.p.table,
        g.p.table.wrapping_add((8 * jump_count(code0)) as u32),
        g.codes.len(),
    );
    lemma_ready_end(
        g.zero,
        g.codes,
        g.p.table,
        g.p.table.wrapping_add((8 * jump_count(code0)) as u32),
        g.codes.len(),
    );
    lemma_low_memory_len(
        s.bus.filled(g.p.load, less(g.p.cleared_end, g.p.load), 0).long(crate::globals::CURRENT_A5, g.p.a5).word(
            crate::globals::CUR_JT_OFFSET,
            g.p.header.jump_table_offset as u16,
        ).word(crate::globals::ROM85, 0),
    );
}

proof fn lemma_low_memory_len(b: BusView)
    ensures
        crate::loader::with_low_memory(b).mem.len() == b.mem.len(),
{
    lemma_returns_len(b, 80);
    lemma_vectors_len(crate::loader::with_returns(b, 80), 64);
}

proof fn lemma_returns_len(b: BusView, n: nat)
    ensures
        crate::loader::with_returns(b, n).mem.len() == b.mem.len(),
    decreases n,
{
    if n > 0 {
        lemma_returns_len(b, (n - 1) as nat);
    }
}

proof fn lemma_vectors_len(b: BusView, n: nat)
    ensures
        crate::loader::with_vectors(b, n).mem.len() == b.mem.len(),
    decreases n,
{
    if n > 0 {
        lemma_vectors_len(b, (n - 1) as nat);
    }
}

proof fn lemma_stubs_len(b: BusView, first: u32, id: i16, n: nat)
    ensures
        with_stubs(b, first, id, n).mem.len() == b.mem.len(),
    decreases n,
{
    if n > 0 {
        lemma_stubs_len(b, first, id, (n - 1) as nat);
    }
}

proof fn lemma_table_ready_len(b: BusView, codes: Seq<ResourceView>, table: u32, end: u32, n: nat)
    ensures
        table_ready(b, codes, table, end, n).0.mem.len() == b.mem.len(),
    decreases n,
{
    if n > 0 {
        lemma_table_ready_len(b, codes, table, end, (n - 1) as nat);
        if let Some((offset, count)) = entries_of(codes[n - 1]) {
            lemma_stubs_len(
                table_ready(b, codes, table, end, (n - 1) as nat).0,
                table.wrapping_add(offset),
                codes[n - 1].id,
                count as nat,
            );
        }
    }
}

/// An entry of the jump table that code segment 0 holds stands at its place behind A5, byte
/// for byte, once a near-model application is loaded, unless it is empty or a place holder.
pub proof fn lemma_jump_table_stands(
    s: RunnerView,
    rs: Seq<ResourceView>,
    t: RunnerView,
    app: AppView,
    zero: int,
    i: int,
    k: int,
)
    requires
        s.loaded(rs) == Some((t, app)),
        is_first(rs, zero, 0x434F_4445, 0),
        near_model(rs),
        areas_fit(rs, rs[zero].data, app.a5_base, s.bus.mem.len()),
        0 <= i,
        8 * i + 8 <= be32(rs[zero].data, 8),
        16 + 8 * i + 8 <= rs[zero].data.len(),
        be16(rs[zero].data, 16 + 8 * i + 2) != 0xFFFF,
        exists|j: int| 0 <= j < 8 && #[trigger] rs[zero].data[16 + 8 * i + j] != 0,
        0 <= k < 8,
    ensures
        t.bus.get_byte((app.a5_base + be32(rs[zero].data, 12) + 8 * i + k) as u32) == rs[zero].data[16 + 8 * i + k],
{
    let code0 = rs[zero].data;
    lemma_steps(s, rs, t, app, zero);
    let g = steps(s.bus, rs, code0, s.config.load_address);
    let at = (g.p.table + 8 * i) as u32;
    assert(entry_stands(g.zero, at as int, code0, i)) by {
        reveal(code0_loaded);
        reveal(crate::memory::set_bytes);
        let table = code0.skip(16);
        assert forall|j: int| 0 <= j < 8 implies #[trigger] g.zero.get_byte((at + j) as u32) == code0[16 + 8 * i + j] by {
            assert(table[8 * i + j] == code0[16 + 8 * i + j]);
        }
    }
    let end = (g.p.table + 8 * jump_count(code0)) as u32;
    assert(jump_count(code0) > i);
    lemma_table_ready(g.zero, g.codes, g.p.table, end, g.codes.len(), at, code0, i);
    lemma_segments(g.first, g.codes, g.p.a5, g.p.table, g.codes.len());
    let a = (at + k) as u32;
    assert(g.ready.get_byte((at + k) as u32) == code0[16 + 8 * i + k]);
    assert(a < g.first.next);
    assert(g.last.bus.get_byte(a) == g.first.bus.get_byte(a));
    let floor = more(heap_start(app.loaded_image_end), APP_ZONE_HEADER_SIZE);
    let b = BusView { heap: larger(g.last.bus.heap, floor), ..g.last.bus };
    lemma_resources_spare(s.disp.resources, b, rs, rs.len(), a);
}

/// A code segment that no other shares its number with stands in memory byte for byte at
/// the address that the Segment Loader knows, behind its size. It lies behind the jump
/// table and behind code segment 0, at an address that four divides.
pub proof fn lemma_segment_is_loaded(s: RunnerView, rs: Seq<ResourceView>, t: RunnerView, app: AppView, zero: int, i: int)
    requires
        s.loaded(rs) == Some((t, app)),
        is_first(rs, zero, 0x434F_4445, 0),
        near_model(rs),
        areas_fit(rs, rs[zero].data, app.a5_base, s.bus.mem.len()),
        0 <= i < rs.len(),
        is_code(rs[i]),
        rs[i].id != 0,
        forall|j: int| 0 <= j < rs.len() && j != i && is_code(#[trigger] rs[j]) ==> rs[j].id != rs[i].id,
    ensures
        app.segment_bases.contains_key(rs[i].id),
        t.disp.resources.segments == app.segment_bases,
        ({
            let base = app.segment_bases[rs[i].id];
            let code0 = rs[zero].data;
            &&& base % 4 == 0
            &&& base >= app.a5_base + be32(code0, 0) + 0xC000 + 4 + code0.len() + 1
            &&& base + rs[i].data.len() <= app.loaded_image_end
            &&& t.bus.get_long((base - 4) as u32) == rs[i].data.len()
            &&& forall|k: int| 0 <= k < rs[i].data.len() ==> t.bus.get_byte((base + k) as u32) == #[trigger] rs[i].data[k]
        }),
{
    lemma_segments_known(s, rs, t, app);
    lemma_once_in_order(rs, rs.len(), i);
    let codes = code_order(rs, rs.len());
    let j = choose|j: int|
        0 <= j < codes.len() && codes[j] == rs[i] && forall|k: int|
            0 <= k < codes.len() && k != j ==> (#[trigger] codes[k]).id != rs[i].id;
    lemma_listed_segment(s, rs, t, app, zero, codes, j);
}

proof fn lemma_listed_segment(
    s: RunnerView,
    rs: Seq<ResourceView>,
    t: RunnerView,
    app: AppView,
    zero: int,
    codes: Seq<ResourceView>,
    j: int,
)
    requires
        s.loaded(rs) == Some((t, app)),
        is_first(rs, zero, 0x434F_4445, 0),
        near_model(rs),
        areas_fit(rs, rs[zero].data, app.a5_base, s.bus.mem.len()),
        codes == code_order(rs, rs.len()),
        0 <= j < codes.len(),
        codes[j].id != 0,
        forall|k: int| 0 <= k < codes.len() && k != j ==> (#[trigger] codes[k]).id != codes[j].id,
    ensures
        app.segment_bases.contains_key(codes[j].id),
        ({
            let base = app.segment_bases[codes[j].id];
            let code0 = rs[zero].data;
            &&& base % 4 == 0
            &&& base >= app.a5_base + be32(code0, 0) + 0xC000 + 4 + code0.len() + 1
            &&& base + codes[j].data.len() <= app.loaded_image_end
            &&& t.bus.get_long((base - 4) as u32) == codes[j].data.len()
            &&& forall|k: int|
                0 <= k < codes[j].data.len() ==> t.bus.get_byte((base + k) as u32) == #[trigger] codes[j].data[k]
        }),
{
    let g = steps(s.bus, rs, rs[zero].data, s.config.load_address);
    let r = codes[j];
    let low = app.a5_base + be32(rs[zero].data, 0) + 0xC000 + 4 + rs[zero].data.len();
    let base = segment_start(g.first, codes, g.p.a5, g.p.table, j);
    assert({
        &&& base % 4 == 0
        &&& low + 4 < base
        &&& base + r.data.len() <= g.last.next
        &&& g.last.bus.get_long((base - 4) as u32) == r.data.len()
        &&& forall|k: int| 0 <= k < r.data.len() ==> g.last.bus.get_byte((base + k) as u32) == #[trigger] r.data[k]
        &&& app.segment_bases.contains_key(r.id)
        &&& app.segment_bases[r.id] == base
    }) by {
        lemma_steps(s, rs, t, app, zero);
        lemma_segment_stands(g.first, codes, g.p.a5, g.p.table, codes.len(), j);
        lemma_segment_start_aligned(g.first, codes, g.p.a5, g.p.table, j);
    }
    assert({
        &&& g.last.next <= app.loaded_image_end
        &&& forall|a: u32| a < g.last.next ==> #[trigger] t.bus.get_byte(a) == g.last.bus.get_byte(a)
    }) by {
        lemma_kept_since_segments(s, rs, t, app, zero);
    }
    lemma_still_stands(g.last.bus, t.bus, base as u32, r.data, g.last.next);
}

proof fn lemma_segment_start_aligned(st: LoadState, codes: Seq<ResourceView>, a5: u32, table: u32, j: int)
    requires
        0 <= j <= codes.len(),
        near_segments(codes),
        st.next % 4 == 0,
    ensures
        segment_start(st, codes, a5, table, j) % 4 == 0,
{
    reveal(segment_start);
    lemma_segments_aligned(st, codes, a5, table, j as nat);
}

proof fn lemma_segments_known(s: RunnerView, rs: Seq<ResourceView>, t: RunnerView, app: AppView)
    requires
        s.loaded(rs) == Some((t, app)),
    ensures
        t.disp.resources.segments == app.segment_bases,
{
    reveal(RunnerView::loaded);
}

proof fn lemma_still_stands(b: BusView, c: BusView, base: u32, data: Seq<u8>, end: u32)
    requires
        4 <= base,
        base + data.len() <= end,
        b.get_long((base - 4) as u32) == data.len(),
        forall|k: int| 0 <= k < data.len() ==> b.get_byte((base + k) as u32) == #[trigger] data[k],
        forall|a: u32| a < end ==> #[trigger] c.get_byte(a) == b.get_byte(a),
    ensures
        c.get_long((base - 4) as u32) == data.len(),
        forall|k: int| 0 <= k < data.len() ==> c.get_byte((base + k) as u32) == #[trigger] data[k],
{
    assert forall|k: int| 0 <= k < data.len() implies c.get_byte((base + k) as u32) == #[trigger] data[k] by {
        assert(b.get_byte((base + k) as u32) == data[k]);
        assert(c.get_byte((base + k) as u32) == b.get_byte((base + k) as u32));
    }
    let x = (base - 4) as u32;
    assert(c.get_byte(x) == b.get_byte(x));
    assert(c.get_byte((x + 1) as u32) == b.get_byte((x + 1) as u32));
    assert(c.get_byte((x + 2) as u32) == b.get_byte((x + 2) as u32));
    assert(c.get_byte((x + 3) as u32) == b.get_byte((x + 3) as u32));
    crate::interrupt_laws::lemma_same_long(c, b, x);
}

/// Below the end of the segments nothing is written once they are there.
proof fn lemma_kept_since_segments(s: RunnerView, rs: Seq<ResourceView>, t: RunnerView, app: AppView, zero: int)
    requires
        s.loaded(rs) == Some((t, app)),
        is_first(rs, zero, 0x434F_4445, 0),
        near_model(rs),
        areas_fit(rs, rs[zero].data, app.a5_base, s.bus.mem.len()),
    ensures
        ({
            let code0 = rs[zero].data;
            let g = steps(s.bus, rs, code0, s.config.load_address);
            &&& g.last.next <= app.loaded_image_end
            &&& forall|a: u32| a < g.last.next ==> #[trigger] t.bus.get_byte(a) == g.last.bus.get_byte(a)
        }),
{
    let code0 = rs[zero].data;
    lemma_steps(s, rs, t, app, zero);
    let g = steps(s.bus, rs, code0, s.config.load_address);
    lemma_segments(g.first, g.codes, g.p.a5, g.p.table, g.codes.len());
    let floor = more(heap_start(app.loaded_image_end), APP_ZONE_HEADER_SIZE);
    let b = BusView { heap: larger(g.last.bus.heap, floor), ..g.last.bus };
    assert forall|a: u32| a < g.last.next implies #[trigger] t.bus.get_byte(a) == g.last.bus.get_byte(a) by {
        lemma_resources_spare(s.disp.resources, b, rs, rs.len(), a);
    }
}

proof fn lemma_segments_aligned(st: LoadState, codes: Seq<ResourceView>, a5: u32, table: u32, n: nat)
    requires
        n <= codes.len(),
        near_segments(codes),
        st.next % 4 == 0,
    ensures
        segments_loaded(st, codes, a5, table, n).next % 4 == 0,
    decreases n,
{
    if n > 0 {
        lemma_segments_aligned(st, codes, a5, table, (n - 1) as nat);
    }
}

proof fn lemma_ready_end(b: BusView, codes: Seq<ResourceView>, table: u32, end: u32, n: nat)
    requires
        n <= codes.len(),
        near_segments(codes),
        table + 0x000C_0000 <= 0x1_0000_0000,
        table <= end,
    ensures
        end <= table_ready(b, codes, table, end, n).1,
        table_ready(b, codes, table, end, n).1 == end || table_ready(b, codes, table, end, n).1 <= table + 0x000C_0000,
    decreases n,
{
    if n > 0 {
        lemma_ready_end(b, codes, table, end, (n - 1) as nat);
        lemma_own_entries(codes[n - 1]);
    }
}

proof fn lemma_once_in_order(rs: Seq<ResourceView>, n: nat, i: int)
    requires
        0 <= i < rs.len(),
        n <= rs.len(),
        is_code(rs[i]),
        forall|j: int| 0 <= j < rs.len() && j != i && is_code(#[trigger] rs[j]) ==> rs[j].id != rs[i].id,
    ensures
        i >= n ==> forall|k: int| 0 <= k < code_order(rs, n).len() ==> (#[trigger] code_order(rs, n)[k]).id != rs[i].id,
        i < n ==> exists|j: int|
            0 <= j < code_order(rs, n).len() && code_order(rs, n)[j] == rs[i] && forall|k: int|
                0 <= k < code_order(rs, n).len() && k != j ==> (#[trigger] code_order(rs, n)[k]).id != rs[i].id,
    decreases n,
{
    if n > 0 {
        let m = (n - 1) as nat;
        lemma_once_in_order(rs, m, i);
        let before = code_order(rs, m);
        let list = code_order(rs, n);
        let r = rs[n - 1];
        if is_code(r) {
            let q = lemma_with_code(before, r, before.len());
            assert(list == before.insert(q, r));
            if i < m {
                let j = choose|j: int|
                    0 <= j < before.len() && before[j] == rs[i] && forall|k: int|
                        0 <= k < before.len() && k != j ==> (#[trigger] before[k]).id != rs[i].id;
                let w = if j < q { j } else { j + 1 };
                assert(list[w] == rs[i]);
                assert forall|k: int| 0 <= k < list.len() && k != w implies (#[trigger] list[k]).id != rs[i].id by {
                    if k < q {
                        assert(list[k] == before[k]);
                    } else if k > q {
                        assert(list[k] == before[k - 1]);
                    }
                }
            } else if i == m {
                assert(list[q] == rs[i]);
                assert forall|k: int| 0 <= k < list.len() && k != q implies (#[trigger] list[k]).id != rs[i].id by {
                    if k < q {
                        assert(list[k] == before[k]);
                    } else {
                        assert(list[k] == before[k - 1]);
                    }
                }
            } else {
                assert forall|k: int| 0 <= k < list.len() implies (#[trigger] list[k]).id != rs[i].id by {
                    if k < q {
                        assert(list[k] == before[k]);
                    } else if k > q {
                        assert(list[k] == before[k - 1]);
                    }
                }
            }
        }
    }
}

/// The application's memory is laid out round A5 as code segment 0 says: its globals are
/// the bytes below A5, their initial values are those of the `DATA` resource and zero
/// behind them, low memory knows A5 and the jump table's offset, and the stack begins 16
/// bytes below the end of RAM.
pub proof fn lemma_globals_are_loaded(s: RunnerView, rs: Seq<ResourceView>, t: RunnerView, app: AppView, zero: int, a: u32)
    requires
        s.loaded(rs) == Some((t, app)),
        is_first(rs, zero, 0x434F_4445, 0),
        near_model(rs),
        areas_fit(rs, rs[zero].data, app.a5_base, s.bus.mem.len()),
        be32(rs[zero].data, 4) + 0x1000 <= app.a5_base,
    ensures
        app.code0_header.above_a5 == be32(rs[zero].data, 0),
        app.code0_header.below_a5 == be32(rs[zero].data, 4),
        app.code0_header.jump_table_size == be32(rs[zero].data, 8),
        app.code0_header.jump_table_offset == be32(rs[zero].data, 12),
        app.initial_sp == s.bus.mem.len() - 16,
        app.loaded_image_end % 4 == 0,
        app.loaded_image_end >= app.a5_base + be32(rs[zero].data, 0) + 0xC000,
        t.bus.get_long(0x904) == app.a5_base,
        t.bus.get_word(0x934) == be32(rs[zero].data, 12) % 0x1_0000,
        t.bus.get_word(0xFE) == 0x4E73,
        t.bus.get_long(0x14) == 0xFE,
        t.bus.get_long(0x18) == 0xFE,
        t.bus.get_long(0x1C) == 0xFE,
        ({
            let start = app.a5_base - be32(rs[zero].data, 4);
            &&& start <= a < app.a5_base && (forall|i: int|
                0 <= i < rs.len() ==> (#[trigger] rs[i]).res_type != 0x4441_5441 || rs[i].id != 0) ==> t.bus.get_byte(a)
                == 0
            &&& forall|i: int| #[trigger] is_first(rs, i, 0x4441_5441, 0) && start <= a < app.a5_base ==> {
                &&& a - start < rs[i].data.len() ==> t.bus.get_byte(a) == rs[i].data[a - start]
                &&& a - start >= rs[i].data.len() ==> t.bus.get_byte(a) == 0
            }
        }),
{
    let code0 = rs[zero].data;
    lemma_steps(s, rs, t, app, zero);
    let g = steps(s.bus, rs, code0, s.config.load_address);
    assert(s.bus.ram_size() == s.bus.mem.len());
    lemma_segments(g.first, g.codes, g.p.a5, g.p.table, g.codes.len());
    lemma_kept_since_globals(s, rs, t, app, zero);
    let start = (app.a5_base - be32(code0, 4)) as u32;
    assert(g.p.load == start);
    lemma_globals_memory(s.bus, rs, g.p, a);
    if start <= a < app.a5_base {
        assert(t.bus.get_byte(a) == g.globals.get_byte(a));
    }
    assert(forall|x: u32| x < 0x1000 ==> #[trigger] t.bus.get_byte(x) == g.globals.get_byte(x));
    lemma_low_word(t.bus, g.globals, 0x934);
    lemma_low_word(t.bus, g.globals, 0xFE);
    lemma_low_long(t.bus, g.globals, 0x904);
    lemma_low_long(t.bus, g.globals, 0x14);
    lemma_low_long(t.bus, g.globals, 0x18);
    lemma_low_long(t.bus, g.globals, 0x1C);
}

proof fn lemma_low_word(b: BusView, c: BusView, a: u32)
    requires
        a + 2 <= 0x1000,
        forall|x: u32| x < 0x1000 ==> #[trigger] b.get_byte(x) == c.get_byte(x),
    ensures
        b.get_word(a) == c.get_word(a),
{
    assert(b.get_byte(a) == c.get_byte(a));
    assert(b.get_byte((a + 1) as u32) == c.get_byte((a + 1) as u32));
    crate::interrupt_laws::lemma_same_word(b, c, a);
}

proof fn lemma_low_long(b: BusView, c: BusView, a: u32)
    requires
        a + 4 <= 0x1000,
        forall|x: u32| x < 0x1000 ==> #[trigger] b.get_byte(x) == c.get_byte(x),
    ensures
        b.get_long(a) == c.get_long(a),
{
    assert(b.get_byte(a) == c.get_byte(a));
    assert(b.get_byte((a + 1) as u32) == c.get_byte((a + 1) as u32));
    assert(b.get_byte((a + 2) as u32) == c.get_byte((a + 2) as u32));
    assert(b.get_byte((a + 3) as u32) == c.get_byte((a + 3) as u32));
    crate::interrupt_laws::lemma_same_long(b, c, a);
}

/// Below A5 nothing is written once the globals are there.
proof fn lemma_kept_since_globals(s: RunnerView, rs: Seq<ResourceView>, t: RunnerView, app: AppView, zero: int)
    requires
        s.loaded(rs) == Some((t, app)),
        is_first(rs, zero, 0x434F_4445, 0),
        near_model(rs),
        areas_fit(rs, rs[zero].data, app.a5_base, s.bus.mem.len()),
    ensures
        forall|a: u32|
            a < app.a5_base ==> #[trigger] t.bus.get_byte(a) == steps(s.bus, rs, rs[zero].data, s.config.load_address).globals.get_byte(a),
{
    let code0 = rs[zero].data;
    lemma_steps(s, rs, t, app, zero);
    let g = steps(s.bus, rs, code0, s.config.load_address);
    let end = (g.p.table + 8 * jump_count(code0)) as u32;
    lemma_ready_end(g.zero, g.codes, g.p.table, end, g.codes.len());
    lemma_segments(g.first, g.codes, g.p.a5, g.p.table, g.codes.len());
    let floor = more(heap_start(app.loaded_image_end), APP_ZONE_HEADER_SIZE);
    let b = BusView { heap: larger(g.last.bus.heap, floor), ..g.last.bus };
    assert forall|a: u32| a < app.a5_base implies #[trigger] t.bus.get_byte(a) == g.globals.get_byte(a) by {
        assert(g.zero.get_byte(a) == g.globals.get_byte(a)) by {
            broadcast use group_memory_bytes;

            reveal(code0_loaded);
        }
        lemma_ready_below(g.zero, g.codes, g.p.table, end, g.codes.len(), a);
        assert(a < g.first.next);
        assert(g.last.bus.get_byte(a) == g.first.bus.get_byte(a));
        lemma_resources_spare(s.disp.resources, b, rs, rs.len(), a);
    }
}

proof fn lemma_stubs_below(b: BusView, first: u32, id: i16, n: nat, a: u32)
    requires
        first + 8 * n <= 0x1_0000_0000,
        a < first,
    ensures
        with_stubs(b, first, id, n).get_byte(a) == b.get_byte(a),
    decreases n,
{
    broadcast use group_memory_bytes;

    if n > 0 {
        lemma_stubs_below(b, first, id, (n - 1) as nat, a);
    }
}

proof fn lemma_ready_below(b: BusView, codes: Seq<ResourceView>, table: u32, end: u32, n: nat, a: u32)
    requires
        n <= codes.len(),
        near_segments(codes),
        table + 0x000C_0000 <= 0x1_0000_0000,
        a < table,
    ensures
        table_ready(b, codes, table, end, n).0.get_byte(a) == b.get_byte(a),
    decreases n,
{
    if n > 0 {
        lemma_ready_below(b, codes, table, end, (n - 1) as nat, a);
        lemma_own_entries(codes[n - 1]);
        if let Some((offset, count)) = entries_of(codes[n - 1]) {
            lemma_stubs_below(
                table_ready(b, codes, table, end, (n - 1) as nat).0,
                table.wrapping_add(offset),
                codes[n - 1].id,
                count as nat,
                a,
            );
        }
    }
}

proof fn lemma_returns_spare(b: BusView, n: nat, a: u32)
    requires
        n <= 80,
        a >= 0x100 || a < 0x60,
    ensures
        crate::loader::with_returns(b, n).get_byte(a) == b.get_byte(a),
    decreases n,
{
    broadcast use group_memory_bytes;

    if n > 0 {
        lemma_returns_spare(b, (n - 1) as nat, a);
    }
}

proof fn lemma_vectors_spare(b: BusView, n: nat, a: u32)
    requires
        n <= 64,
        a >= 0x100,
    ensures
        crate::loader::with_vectors(b, n).get_byte(a) == b.get_byte(a),
    decreases n,
{
    broadcast use group_memory_bytes;

    if n > 0 {
        lemma_vectors_spare(b, (n - 1) as nat, a);
    }
}

proof fn lemma_none_found(rs: Seq<ResourceView>, res_type: u32, id: i16, from: int)
    requires
        0 <= from,
        forall|i: int| 0 <= i < rs.len() ==> (#[trigger] rs[i]).res_type != res_type || rs[i].id != id,
    ensures
        resource_at(rs, res_type, id, from) is None,
    decreases rs.len() - from,
{
    if from < rs.len() {
        lemma_none_found(rs, res_type, id, from + 1);
    }
}

proof fn lemma_globals_memory(b: BusView, rs: Seq<ResourceView>, p: LoadPlan, a: u32)
    requires
        b.mem.len() <= 0x1_0000_0000,
        0x1000 <= p.load <= p.a5 <= p.cleared_end <= b.mem.len(),
    ensures
        ({
            let c = globals_loaded(b, rs, p);
            let start = p.load;
            &&& c.get_long(0x904) == p.a5
            &&& c.get_word(0x934) == p.header.jump_table_offset % 0x1_0000
            &&& c.get_word(0xFE) == 0x4E73
            &&& c.get_long(0x14) == 0xFE
            &&& c.get_long(0x18) == 0xFE
            &&& c.get_long(0x1C) == 0xFE
            &&& start <= a < p.a5 && (forall|i: int|
                0 <= i < rs.len() ==> (#[trigger] rs[i]).res_type != 0x4441_5441 || rs[i].id != 0) ==> c.get_byte(a) == 0
            &&& forall|i: int| #[trigger] is_first(rs, i, 0x4441_5441, 0) && start <= a < p.a5 ==> {
                &&& a - start < rs[i].data.len() ==> c.get_byte(a) == rs[i].data[a - start]
                &&& a - start >= rs[i].data.len() ==> c.get_byte(a) == 0
            }
        }),
{
    reveal(globals_loaded);
    let b1 = b.filled(p.load, less(p.cleared_end, p.load), 0);
    let b2 = b1.long(crate::globals::CURRENT_A5, p.a5).word(
        crate::globals::CUR_JT_OFFSET,
        p.header.jump_table_offset as u16,
    ).word(crate::globals::ROM85, 0);
    let b3 = crate::loader::with_low_memory(b2);
    let c = globals_loaded(b, rs, p);
    lemma_low_memory_len(b2);
    assert(b2.get_long(0x904) == p.a5 && b2.get_word(0x934) == p.header.jump_table_offset as u16) by {
        broadcast use group_memory_reads;

    }
    let w = p.header.jump_table_offset;
    assert(w as u16 == w % 0x1_0000) by (bit_vector);
    assert forall|x: u32| x >= 0x100 implies #[trigger] b3.get_byte(x) == b2.get_byte(x) by {
        broadcast use group_memory_bytes;

        lemma_returns_spare(b2, 80, x);
        lemma_vectors_spare(crate::loader::with_returns(b2, 80), 64, x);
    }
    assert(b3.get_word(0xFE) == 0x4E73 && b3.get_long(0x14) == 0xFE && b3.get_long(0x18) == 0xFE && b3.get_long(0x1C)
        == 0xFE) by {
        broadcast use group_memory_reads;

        lemma_returns_len(b2, 80);
        lemma_vectors_len(crate::loader::with_returns(b2, 80), 64);
    }
    assert forall|x: u32| x < 0x1000 implies #[trigger] c.get_byte(x) == b3.get_byte(x) by {
        broadcast use group_memory_bytes;

    }
    assert(b3.get_byte(0x904) == b2.get_byte(0x904));
    assert(b3.get_byte(0x905) == b2.get_byte(0x905));
    assert(b3.get_byte(0x906) == b2.get_byte(0x906));
    assert(b3.get_byte(0x907) == b2.get_byte(0x907));
    crate::interrupt_laws::lemma_same_long(b3, b2, 0x904);
    assert(b3.get_byte(0x934) == b2.get_byte(0x934));
    assert(b3.get_byte(0x935) == b2.get_byte(0x935));
    crate::interrupt_laws::lemma_same_word(b3, b2, 0x934);
    lemma_low_long(c, b3, 0x904);
    lemma_low_word(c, b3, 0x934);
    lemma_low_word(c, b3, 0xFE);
    lemma_low_long(c, b3, 0x14);
    lemma_low_long(c, b3, 0x18);
    lemma_low_long(c, b3, 0x1C);
    if p.load <= a < p.a5 {
        assert(b3.get_byte(a) == 0) by {
            broadcast use group_memory_bytes;

            reveal(crate::memory::set_fill);
            assert(b1.get_byte(a) == 0);
            assert(b2.get_byte(a) == b1.get_byte(a));
        }
        if forall|i: int| 0 <= i < rs.len() ==> (#[trigger] rs[i]).res_type != 0x4441_5441 || rs[i].id != 0 {
            lemma_none_found(rs, 0x4441_5441, 0, 0);
        }
        assert forall|i: int| #[trigger] is_first(rs, i, 0x4441_5441, 0) implies {
            &&& a - p.load < rs[i].data.len() ==> c.get_byte(a) == rs[i].data[a - p.load]
            &&& a - p.load >= rs[i].data.len() ==> c.get_byte(a) == 0
        } by {
            lemma_first_found(rs, 0x4441_5441, 0, i, 0);
            reveal(crate::memory::set_bytes);
        }
    }
}

/// Only what has a code segment 0 with a whole header is an application, and every such
/// fork is; where it is none, nothing changes.
pub proof fn lemma_applications_have_code_segment_zero(s: RunnerView, rs: Seq<ResourceView>)
    ensures
        s.loaded(rs) is Some <==> exists|i: int| #[trigger] is_first(rs, i, 0x434F_4445, 0) && rs[i].data.len() >= 16,
{
    reveal(RunnerView::loaded);
    if exists|i: int| #[trigger] is_first(rs, i, 0x434F_4445, 0) && rs[i].data.len() >= 16 {
        let i = choose|i: int| #[trigger] is_first(rs, i, 0x434F_4445, 0) && rs[i].data.len() >= 16;
        lemma_first_found(rs, 0x434F_4445, 0, i, 0);
    }
    lemma_found_is_first(rs, 0x434F_4445, 0, 0);
    if let Some(i) = resource_at(rs, 0x434F_4445, 0, 0) {
        assert(is_first(rs, i, 0x434F_4445, 0));
    }
}

proof fn lemma_found_is_first(rs: Seq<ResourceView>, res_type: u32, id: i16, from: int)
    requires
        0 <= from,
    ensures
        resource_at(rs, res_type, id, from) matches Some(i) ==> {
            &&& from <= i < rs.len()
            &&& rs[i].res_type == res_type
            &&& rs[i].id == id
            &&& forall|j: int| from <= j < i ==> (#[trigger] rs[j]).res_type != res_type || rs[j].id != id
        },
    decreases rs.len() - from,
{
    if from < rs.len() {
        lemma_found_is_first(rs, res_type, id, from + 1);
    }
}

/// Where the settings name a load address, the application's globals begin there; A5 is
/// behind them.
pub proof fn lemma_configured_load_address(s: RunnerView, rs: Seq<ResourceView>, t: RunnerView, app: AppView, zero: int)
    requires
        s.loaded(rs) == Some((t, app)),
        is_first(rs, zero, 0x434F_4445, 0),
        s.config.load_address != 0x0001_0000 || (forall|i: int|
            0 <= i < rs.len() ==> (#[trigger] rs[i]).res_type != 0x5349_5A45 || rs[i].id != -1),
    ensures
        app.a5_base == s.config.load_address.wrapping_add(be32(rs[zero].data, 4)),
{
    reveal(RunnerView::loaded);
    lemma_first_found(rs, 0x434F_4445, 0, zero, 0);
    if s.config.load_address == 0x0001_0000 {
        lemma_none_found(rs, 0x5349_5A45, (-1) as i16, 0);
    }
}

/// A large application is loaded at the default address or so high that the heap below
/// A5 has the least size that the application asks for, less the stack's margin; it then
/// begins at an address that four divides and leaves 2 megabytes of RAM above its start.
pub proof fn lemma_large_application_is_loaded_high(below: u32, size: crate::loader::ApplicationSizeResource, ram: u32)
    requires
        below <= 0x0010_0000,
        size.minimum_size <= 0x4000_0000,
    ensures
        ({
            let load = crate::loader::load_address(0x0001_0000, below, Some(size), ram);
            let a5 = 0x0020_0000 + size.minimum_size - 0x2000;
            let large = size.preferred_size != 0 && size.minimum_size > 0x0020_0000;
            &&& !large ==> load == 0x0001_0000
            &&& load != 0x0001_0000 ==> load % 4 == 0 && a5 <= load + below < a5 + 4 && load + 0x0020_0000 < ram
            &&& large && a5 - below + 3 + 0x0020_0000 < ram ==> load != 0x0001_0000
        }),
{
}

/// Behind a code segment 0 whose entry is empty comes a stub that asks for the segment: an
/// entry that belongs to a segment and is all zero becomes offset 0, `MOVE.W #segment`,
/// `_LoadSeg`; a place holder becomes `_LoadSeg`, 0, its offset, the segment; any other
/// entry stays.
pub proof fn lemma_segment_entries_are_ready(b: BusView, first: u32, id: i16, n: nat, j: int)
    requires
        0 <= j < n,
        first + 8 * n <= b.mem.len() <= 0x1_0000_0000,
    ensures
        ({
            let c = with_stubs(b, first, id, n);
            let e = (first + 8 * j) as u32;
            let empty = forall|k: int| 0 <= k < 8 ==> #[trigger] b.mem[e + k] == 0;
            let holder = b.get_word((e + 2) as u32) == 0xFFFF;
            &&& empty ==> c.get_word(e) == 0 && c.get_word((e + 2) as u32) == 0x3F3C && c.get_word((e + 4) as u32)
                == id as u16 && c.get_word((e + 6) as u32) == 0xA9F0
            &&& holder ==> c.get_word(e) == 0xA9F0 && c.get_word((e + 2) as u32) == 0 && c.get_word((e + 4) as u32)
                == b.get_word(e) && c.get_word((e + 6) as u32) == id as u16
            &&& !empty && !holder ==> forall|k: int| 0 <= k < 8 ==> #[trigger] c.mem[e + k] == b.mem[e + k]
        }),
    decreases n,
{
    let e = (first + 8 * j) as u32;
    let before = with_stubs(b, first, id, (n - 1) as nat);
    let c = with_stubs(b, first, id, n);
    lemma_stubs_len(b, first, id, (n - 1) as nat);
    let last = (first + 8 * (n - 1)) as u32;
    if j < n - 1 {
        lemma_segment_entries_are_ready(b, first, id, (n - 1) as nat, j);
        assert forall|k: int| 0 <= k < 8 implies #[trigger] c.mem[e + k] == before.mem[e + k] by {
            broadcast use group_memory_bytes;

            assert(c.get_byte((e + k) as u32) == before.get_byte((e + k) as u32));
        }
        assert forall|x: u32| e <= x < e + 8 implies #[trigger] c.get_byte(x) == before.get_byte(x) by {
            assert(c.mem[e + (x - e)] == before.mem[e + (x - e)]);
        }
        crate::interrupt_laws::lemma_same_word(c, before, e);
        crate::interrupt_laws::lemma_same_word(c, before, (e + 2) as u32);
        crate::interrupt_laws::lemma_same_word(c, before, (e + 4) as u32);
        crate::interrupt_laws::lemma_same_word(c, before, (e + 6) as u32);
    } else {
        assert forall|k: int| 0 <= k < 8 implies #[trigger] before.mem[e + k] == b.mem[e + k] by {
            lemma_stubs_above(b, first, id, (n - 1) as nat, (e + k) as u32);
        }
        assert forall|x: u32| e <= x < e + 8 implies #[trigger] before.get_byte(x) == b.get_byte(x) by {
            assert(before.mem[e + (x - e)] == b.mem[e + (x - e)]);
        }
        crate::interrupt_laws::lemma_same_word(before, b, e);
        crate::interrupt_laws::lemma_same_word(before, b, (e + 2) as u32);
        crate::interrupt_laws::lemma_same_long(before, b, e);
        crate::interrupt_laws::lemma_same_long(before, b, (e + 4) as u32);
        crate::memory_laws::lemma_long_is_big_endian(b.mem, e);
        crate::memory_laws::lemma_long_is_big_endian(b.mem, (e + 4) as u32);
        crate::memory_laws::lemma_word_is_big_endian(b.mem, (e + 2) as u32);
        assert(b.get_long(e) == 0 && b.get_long((e + 4) as u32) == 0 <==> forall|k: int|
            0 <= k < 8 ==> #[trigger] b.mem[e + k] == 0) by {
            assert(e + 0 == e);
            if b.get_long(e) == 0 && b.get_long((e + 4) as u32) == 0 {
                assert forall|k: int| 0 <= k < 8 implies #[trigger] b.mem[e + k] == 0 by {
                }
            } else {
                if forall|k: int| 0 <= k < 8 ==> #[trigger] b.mem[e + k] == 0 {
                    assert(b.mem[e + 0] == 0 && b.mem[e + 1] == 0 && b.mem[e + 2] == 0 && b.mem[e + 3] == 0);
                    assert(b.mem[e + 4] == 0 && b.mem[e + 5] == 0 && b.mem[e + 6] == 0 && b.mem[e + 7] == 0);
                }
            }
        }
        if forall|k: int| 0 <= k < 8 ==> #[trigger] b.mem[e + k] == 0 {
            assert(b.mem[e + 2] == 0);
        }
        assert(c == with_stub(before, e, id));
        broadcast use group_memory_reads;

    }
}

proof fn lemma_stubs_above(b: BusView, first: u32, id: i16, n: nat, a: u32)
    requires
        first + 8 * n <= a,
    ensures
        with_stubs(b, first, id, n).get_byte(a) == b.get_byte(a),
        with_stubs(b, first, id, n).mem.len() == b.mem.len(),
    decreases n,
{
    broadcast use group_memory_bytes;

    if n > 0 {
        lemma_stubs_above(b, first, id, (n - 1) as nat, a);
    }
}

/// Segment `r` has jump table entries of its own, each of eight bytes, the first of them
/// `offset` bytes into the table: a near segment names the offset, a far one of the older
/// kind the number of the entry.
pub open spec fn owns_entries(r: ResourceView, offset: int, count: int) -> bool {
    &&& r.id != 0
    &&& r.data.len() >= 4
    &&& be16(r.data, 0) != 0xFFFF
    &&& be16(r.data, 0) < 0x8000 ==> offset == be16(r.data, 0) && count == be16(r.data, 2)
    &&& be16(r.data, 0) >= 0x8000 ==> offset == 8 * (be16(r.data, 0) - 0x8000) && count == be16(r.data, 2) % 0x8000
}

proof fn lemma_owned_entries(r: ResourceView, offset: int, count: int)
    requires
        owns_entries(r, offset, count),
    ensures
        entries_of(r) == Some((offset as u32, count as u32)),
        0 <= offset <= 0x3FFF8,
        0 <= count <= 0xFFFF,
{
}

/// None of the segments but `j` has the entry at `e` for its own.
spec fn entry_is_of(codes: Seq<ResourceView>, table: u32, e: u32, j: int) -> bool {
    forall|k: int|
        0 <= k < codes.len() && k != j ==> (entries_of(#[trigger] codes[k]) matches Some((offset, count)) ==> apart(
            (table + offset) as u32,
            8 * count,
            e,
            8,
        ))
}

proof fn lemma_stubs_apart(b: BusView, first: u32, id: i16, n: nat, a: u32)
    requires
        first + 8 * n <= 0x1_0000_0000,
        a < first || a >= first + 8 * n,
    ensures
        with_stubs(b, first, id, n).get_byte(a) == b.get_byte(a),
{
    if a < first {
        lemma_stubs_below(b, first, id, n, a);
    } else {
        lemma_stubs_above(b, first, id, n, a);
    }
}

proof fn lemma_ready_apart(b: BusView, codes: Seq<ResourceView>, table: u32, end: u32, n: nat, e: u32, j: int)
    requires
        n <= codes.len(),
        near_segments(codes),
        table + 0x000C_0000 <= 0x1_0000_0000,
        e + 8 <= 0x1_0000_0000,
        entry_is_of(codes, table, e, j),
        n <= j,
    ensures
        forall|a: u32| e <= a < e + 8 ==> #[trigger] table_ready(b, codes, table, end, n).0.get_byte(a) == b.get_byte(a),
    decreases n,
{
    if n > 0 {
        let m = (n - 1) as nat;
        lemma_ready_apart(b, codes, table, end, m, e, j);
        lemma_own_entries(codes[n - 1]);
        let before = table_ready(b, codes, table, end, m).0;
        let after = table_ready(b, codes, table, end, n).0;
        assert forall|a: u32| e <= a < e + 8 implies #[trigger] after.get_byte(a) == b.get_byte(a) by {
            assert(before.get_byte(a) == b.get_byte(a));
            if let Some((offset, count)) = entries_of(codes[n - 1]) {
                assert(apart((table + offset) as u32, 8 * count, e, 8));
                lemma_stubs_apart(before, (table + offset) as u32, codes[n - 1].id, count as nat, a);
            }
        }
    }
}

/// At `e` stands the entry that asks for segment `id`.
pub open spec fn asks_for_segment(b: BusView, e: u32, id: i16) -> bool {
    &&& b.get_word(e) == 0
    &&& b.get_word((e + 2) as u32) == 0x3F3C
    &&& b.get_word((e + 4) as u32) == id as u16
    &&& b.get_word((e + 6) as u32) == 0xA9F0
}

proof fn lemma_same_entry(b: BusView, c: BusView, e: u32, id: i16)
    requires
        e + 8 <= 0x1_0000_0000,
        asks_for_segment(b, e, id),
        forall|a: u32| e <= a < e + 8 ==> #[trigger] c.get_byte(a) == b.get_byte(a),
    ensures
        asks_for_segment(c, e, id),
{
    assert forall|x: u32| e <= x && x + 2 <= e + 8 implies #[trigger] c.get_word(x) == b.get_word(x) by {
        assert(c.get_byte(x) == b.get_byte(x));
        assert(c.get_byte((x + 1) as u32) == b.get_byte((x + 1) as u32));
        crate::interrupt_laws::lemma_same_word(c, b, x);
    }
    assert(c.get_word(e) == b.get_word(e));
    assert(c.get_word((e + 2) as u32) == b.get_word((e + 2) as u32));
    assert(c.get_word((e + 4) as u32) == b.get_word((e + 4) as u32));
    assert(c.get_word((e + 6) as u32) == b.get_word((e + 6) as u32));
}

proof fn lemma_ready_stub(b: BusView, codes: Seq<ResourceView>, table: u32, end: u32, n: nat, j: int, q: int)
    requires
        0 <= j < n <= codes.len(),
        near_segments(codes),
        table + 0x000C_0000 <= 0x1_0000_0000,
        entries_of(codes[j]) is Some,
        ({
            let (offset, count) = entries_of(codes[j])->0;
            let e = (table + offset + 8 * q) as u32;
            &&& 0 <= q < count
            &&& table + offset + 8 * count <= b.mem.len() <= 0x1_0000_0000
            &&& entry_is_of(codes, table, e, j)
            &&& forall|a: u32| e <= a < e + 8 ==> #[trigger] b.get_byte(a) == 0
        }),
    ensures
        ({
            let (offset, count) = entries_of(codes[j])->0;
            asks_for_segment(table_ready(b, codes, table, end, n).0, (table + offset + 8 * q) as u32, codes[j].id)
        }),
    decreases n,
{
    let (offset, count) = entries_of(codes[j])->0;
    lemma_own_entries(codes[j]);
    let e = (table + offset + 8 * q) as u32;
    let m = (n - 1) as nat;
    let before = table_ready(b, codes, table, end, m).0;
    let after = table_ready(b, codes, table, end, n).0;
    lemma_table_ready_len(b, codes, table, end, m);
    if j == n - 1 {
        lemma_ready_apart(b, codes, table, end, m, e, j);
        let first = (table + offset) as u32;
        assert forall|k: int| 0 <= k < 8 implies #[trigger] before.mem[e + k] == 0 by {
            assert(before.get_byte((e + k) as u32) == b.get_byte((e + k) as u32));
        }
        lemma_segment_entries_are_ready(before, first, codes[j].id, count as nat, q);
    } else {
        lemma_ready_stub(b, codes, table, end, m, j, q);
        assert forall|a: u32| e <= a < e + 8 implies #[trigger] after.get_byte(a) == before.get_byte(a) by {
            lemma_own_entries(codes[n - 1]);
            if let Some((o, c)) = entries_of(codes[n - 1]) {
                assert(apart((table + o) as u32, 8 * c, e, 8));
                lemma_stubs_apart(before, (table + o) as u32, codes[n - 1].id, c as nat, a);
            }
        }
        lemma_same_entry(before, after, e, codes[j].id);
    }
}

/// An entry that belongs to one segment alone, and of which code segment 0 holds nothing
/// but zeros or nothing at all, asks for that segment once the application is loaded: a
/// call through it loads the segment.
pub proof fn lemma_empty_entry_asks_for_its_segment(
    s: RunnerView,
    rs: Seq<ResourceView>,
    t: RunnerView,
    app: AppView,
    zero: int,
    i: int,
    offset: int,
    count: int,
    q: int,
)
    requires
        s.loaded(rs) == Some((t, app)),
        is_first(rs, zero, 0x434F_4445, 0),
        near_model(rs),
        areas_fit(rs, rs[zero].data, app.a5_base, s.bus.mem.len()),
        be32(rs[zero].data, 4) + 0x1000 <= app.a5_base,
        0 <= i < rs.len(),
        is_code(rs[i]),
        owns_entries(rs[i], offset, count),
        0 <= q < count,
        be32(rs[zero].data, 12) + offset + 8 * count <= be32(rs[zero].data, 0) + 0xC000,
        forall|k: int|
            0 <= k < 8 && 16 + offset + 8 * q + k < rs[zero].data.len() ==> #[trigger] rs[zero].data[16 + offset + 8 * q + k]
                == 0,
        forall|j: int, o: int, c: int|
            #![trigger owns_entries(rs[j], o, c)]
            0 <= j < rs.len() && j != i && is_code(rs[j]) && owns_entries(rs[j], o, c) ==> o + 8 * c <= offset + 8 * q
                || offset + 8 * q + 8 <= o,
        forall|j: int| 0 <= j < rs.len() && j != i && is_code(#[trigger] rs[j]) ==> rs[j].id != rs[i].id,
        forall|j: int|
            0 <= j < rs.len() && (#[trigger] rs[j]).res_type == 0x4441_5441 && rs[j].id == 0 ==> rs[j].data.len() <= be32(
                rs[zero].data,
                4,
            ),
    ensures
        asks_for_segment(t.bus, (app.a5_base + be32(rs[zero].data, 12) + offset + 8 * q) as u32, rs[i].id),
{
    let code0 = rs[zero].data;
    lemma_steps(s, rs, t, app, zero);
    let g = steps(s.bus, rs, code0, s.config.load_address);
    lemma_owned_entries(rs[i], offset, count);
    lemma_once_in_order(rs, rs.len(), i);
    let j = choose|j: int|
        0 <= j < g.codes.len() && g.codes[j] == rs[i] && forall|k: int|
            0 <= k < g.codes.len() && k != j ==> (#[trigger] g.codes[k]).id != rs[i].id;
    let e = (g.p.table + offset + 8 * q) as u32;
    assert(entry_is_of(g.codes, g.p.table, e, j)) by {
        lemma_entry_owner(rs, g.codes, g.p.table, i, j, offset, q);
    }
    assert forall|a: u32| e <= a < e + 8 implies #[trigger] g.zero.get_byte(a) == 0 by {
        lemma_table_area(s.bus, rs, g.p, code0, a);
        let k = a - e;
        if 16 + offset + 8 * q + k < code0.len() {
            assert(code0[16 + offset + 8 * q + k] == 0);
        }
    }
    let end = (g.p.table + 8 * jump_count(code0)) as u32;
    lemma_ready_stub(g.zero, g.codes, g.p.table, end, g.codes.len(), j, q);
    lemma_segments(g.first, g.codes, g.p.a5, g.p.table, g.codes.len());
    lemma_kept_since_segments(s, rs, t, app, zero);
    assert forall|a: u32| e <= a < e + 8 implies #[trigger] t.bus.get_byte(a) == g.ready.get_byte(a) by {
        assert(t.bus.get_byte(a) == g.last.bus.get_byte(a));
        assert(g.last.bus.get_byte(a) == g.first.bus.get_byte(a));
    }
    lemma_same_entry(g.ready, t.bus, e, rs[i].id);
}

proof fn lemma_entry_owner(rs: Seq<ResourceView>, codes: Seq<ResourceView>, table: u32, i: int, j: int, offset: int, q: int)
    requires
        codes == code_order(rs, rs.len()),
        0 <= i < rs.len(),
        0 <= j < codes.len(),
        codes[j] == rs[i],
        is_code(rs[i]),
        near_segments(codes),
        table + 0x000C_0000 <= 0x1_0000_0000,
        0 <= offset + 8 * q <= 0xBFFF8,
        forall|k: int| 0 <= k < codes.len() && k != j ==> (#[trigger] codes[k]).id != rs[i].id,
        forall|x: int, o: int, c: int|
            #![trigger owns_entries(rs[x], o, c)]
            0 <= x < rs.len() && x != i && is_code(rs[x]) && owns_entries(rs[x], o, c) ==> o + 8 * c <= offset + 8 * q
                || offset + 8 * q + 8 <= o,
    ensures
        entry_is_of(codes, table, (table + offset + 8 * q) as u32, j),
{
    lemma_code_order(rs, rs.len());
    let e = (table + offset + 8 * q) as u32;
    assert forall|k: int| 0 <= k < codes.len() && k != j implies (entries_of(#[trigger] codes[k]) matches Some((o, c))
        ==> apart((table + o) as u32, 8 * c, e, 8)) by {
        if let Some((o, c)) = entries_of(codes[k]) {
            lemma_own_entries(codes[k]);
            assert(is_code(codes[k]));
            let x = choose|x: int| 0 <= x < rs.len() && rs[x] == codes[k];
            assert(owns_entries(rs[x], o as int, c as int));
            assert(x != i);
        }
    }
}

/// Between A5 and the copy of code segment 0 there are only zeros and the jump table that
/// code segment 0 holds.
proof fn lemma_table_area(b: BusView, rs: Seq<ResourceView>, p: LoadPlan, code0: Seq<u8>, a: u32)
    requires
        b.mem.len() <= 0x1_0000_0000,
        p.load <= p.a5 <= p.table,
        p.table + code0.len() - 16 <= p.globals_end,
        p.globals_end + 4 + code0.len() <= 0xFFFF_FFFF,
        16 <= code0.len(),
        p.globals_end <= p.cleared_end <= b.mem.len(),
        0x1000 <= p.table,
        p.table <= a < p.globals_end,
        forall|j: int|
            0 <= j < rs.len() && (#[trigger] rs[j]).res_type == 0x4441_5441 && rs[j].id == 0 ==> rs[j].data.len()
                <= p.a5 - p.load,
    ensures
        ({
            let c = code0_loaded(globals_loaded(b, rs, p), code0, p);
            &&& a - p.table < code0.len() - 16 ==> c.get_byte(a) == code0[16 + (a - p.table)]
            &&& a - p.table >= code0.len() - 16 ==> c.get_byte(a) == 0
        }),
{
    broadcast use group_memory_bytes;

    reveal(globals_loaded);
    reveal(code0_loaded);
    reveal(crate::memory::set_bytes);
    let b1 = b.filled(p.load, less(p.cleared_end, p.load), 0);
    assert(b1.get_byte(a) == 0) by {
        reveal(crate::memory::set_fill);
    }
    let b2 = b1.long(crate::globals::CURRENT_A5, p.a5).word(
        crate::globals::CUR_JT_OFFSET,
        p.header.jump_table_offset as u16,
    ).word(crate::globals::ROM85, 0);
    assert(b2.get_byte(a) == 0);
    lemma_returns_spare(b2, 80, a);
    lemma_vectors_spare(crate::loader::with_returns(b2, 80), 64, a);
    lemma_low_memory_len(b2);
    let b3 = crate::loader::with_low_memory(b2);
    assert(b3.get_byte(a) == 0);
    let g = globals_loaded(b, rs, p);
    lemma_found_is_first(rs, 0x4441_5441, 0, 0);
    assert(g.get_byte(a) == 0);
    let c = code0_loaded(g, code0, p);
    let table = code0.skip(16);
    if a - p.table < code0.len() - 16 {
        assert(table[a - p.table] == code0[16 + (a - p.table)]);
    }
}

/// The relocations of a far segment, as the numbers of words from each place to the next,
/// in the form in which a segment holds them: one byte, two bytes with the top bit set, or
/// a zero and four bytes.
pub open spec fn encoded(gaps: Seq<u32>) -> Seq<u8>
    decreases gaps.len(),
{
    if gaps.len() == 0 {
        seq![0u8, 0u8]
    } else {
        let g = gaps[0];
        let head: Seq<u8> = if g < 0x80 {
            seq![g as u8]
        } else if g < 0x8000 {
            seq![(0x80 + g / 256) as u8, (g % 256) as u8]
        } else {
            seq![0u8, (g / 0x100_0000) as u8, (g / 0x1_0000 % 256) as u8, (g / 256 % 256) as u8, (g % 256) as u8]
        };
        head + encoded(gaps.skip(1))
    }
}

/// The place behind the first `n` gaps, in bytes.
pub open spec fn place_behind(gaps: Seq<u32>, n: nat) -> int
    decreases n,
{
    if n == 0 {
        0
    } else {
        place_behind(gaps, (n - 1) as nat) + 2 * gaps[n - 1]
    }
}

/// A far segment's relocations are at the places that its stream spells out: each so many
/// words behind the one before it, the first from the segment's start.
pub proof fn lemma_relocations_are_read(data: Seq<u8>, at: u32, gaps: Seq<u32>)
    requires
        0 < at,
        at + encoded(gaps).len() <= data.len(),
        encoded(gaps) == data.subrange(at as int, at + encoded(gaps).len()),
        forall|i: int| 0 <= i < gaps.len() ==> 0 < #[trigger] gaps[i] < 0x8000 || gaps[i] >= 0x100_0000,
        place_behind(gaps, gaps.len()) <= u32::MAX,
    ensures
        ({
            let places = crate::loader::relocation_places(data, at);
            &&& places.len() == gaps.len()
            &&& forall|i: int| 0 <= i < gaps.len() ==> #[trigger] places[i] == place_behind(gaps, (i + 1) as nat)
        }),
{
    lemma_stream(data, at as int, 0, gaps);
    lemma_places_grow(gaps, gaps.len(), gaps.len());
}

proof fn lemma_places_grow(gaps: Seq<u32>, i: nat, n: nat)
    requires
        i <= n <= gaps.len(),
    ensures
        0 <= place_behind(gaps, i) <= place_behind(gaps, n),
    decreases n,
{
    if i < n {
        lemma_places_grow(gaps, i, (n - 1) as nat);
    } else if n > 0 {
        lemma_places_grow(gaps, (n - 1) as nat, (n - 1) as nat);
    }
}

proof fn lemma_places_shift(gaps: Seq<u32>, n: nat)
    requires
        0 < n <= gaps.len(),
    ensures
        place_behind(gaps, n) == 2 * gaps[0] + place_behind(gaps.skip(1), (n - 1) as nat),
    decreases n,
{
    if n > 1 {
        lemma_places_shift(gaps, (n - 1) as nat);
        assert(gaps.skip(1)[n - 2] == gaps[n - 1]);
    } else {
        assert(place_behind(gaps, 0) == 0);
    }
}

/// One gap in the form in which a segment holds it.
spec fn gap_code(g: u32) -> Seq<u8> {
    if g < 0x80 {
        seq![g as u8]
    } else if g < 0x8000 {
        seq![(0x80 + g / 256) as u8, (g % 256) as u8]
    } else {
        seq![0u8, (g / 0x100_0000) as u8, (g / 0x1_0000 % 256) as u8, (g / 256 % 256) as u8, (g % 256) as u8]
    }
}

#[verifier::spinoff_prover]
proof fn lemma_gap_is_read(data: Seq<u8>, at: int, pos: u32, g: u32)
    requires
        0 <= at,
        at + gap_code(g).len() < data.len(),
        forall|i: int| 0 <= i < gap_code(g).len() ==> data[at + i] == #[trigger] gap_code(g)[i],
        0 < g < 0x8000 || g >= 0x100_0000,
        pos + 2 * g <= u32::MAX,
    ensures
        ({
            let next = (pos + 2 * g) as u32;
            crate::loader::relocations(data, at, pos) == match crate::loader::relocations(
                data,
                at + gap_code(g).len(),
                next,
            ) {
                Some(rest) => Some(seq![next] + rest),
                None => None,
            }
        }),
{
    let code = gap_code(g);
    assert(data[at + 0] == code[0]);
    if g >= 0x80 {
        assert(data[at + 1] == code[1]);
    }
    if g >= 0x8000 {
        assert(data[at + 2] == code[2] && data[at + 3] == code[3] && data[at + 4] == code[4]);
        lemma_four_bytes(data, at + 1, g);
        assert(data[at] == 0 && data[at + 1] != 0);
    } else if g >= 0x80 {
        assert((data[at] - 0x80) * 256 + data[at + 1] == g);
    }
}

proof fn lemma_four_bytes(data: Seq<u8>, at: int, g: u32)
    requires
        data[at] == g / 0x100_0000,
        data[at + 1] == g / 0x1_0000 % 256,
        data[at + 2] == g / 256 % 256,
        data[at + 3] == g % 256,
    ensures
        be32(data, at) == g,
{
    assert(g / 0x100_0000 * 0x100_0000 + g / 0x1_0000 % 256 * 0x1_0000 + g / 256 % 256 * 256 + g % 256 == g);
}

proof fn lemma_stream(data: Seq<u8>, at: int, pos: u32, gaps: Seq<u32>)
    requires
        0 <= at,
        at + encoded(gaps).len() <= data.len(),
        encoded(gaps) == data.subrange(at, at + encoded(gaps).len()),
        forall|i: int| 0 <= i < gaps.len() ==> 0 < #[trigger] gaps[i] < 0x8000 || gaps[i] >= 0x100_0000,
        pos + place_behind(gaps, gaps.len()) <= u32::MAX,
    ensures
        ({
            let r = crate::loader::relocations(data, at, pos);
            &&& r is Some
            &&& r->0.len() == gaps.len()
            &&& forall|i: int| 0 <= i < gaps.len() ==> #[trigger] r->0[i] == pos + place_behind(gaps, (i + 1) as nat)
        }),
    decreases gaps.len(),
{
    let code = encoded(gaps);
    assert(forall|i: int| 0 <= i < code.len() ==> data[at + i] == #[trigger] code[i]);
    if gaps.len() == 0 {
        assert(code =~= seq![0u8, 0u8]);
        assert(data[at + 0] == code[0] && data[at + 1] == code[1]);
    } else {
        let g = gaps[0];
        let head = gap_code(g);
        let rest = encoded(gaps.skip(1));
        assert(code =~= head + rest);
        lemma_encoded_ends(gaps.skip(1));
        lemma_places_shift(gaps, gaps.len());
        lemma_places_grow(gaps.skip(1), 0, (gaps.len() - 1) as nat);
        assert(rest =~= data.subrange(at + head.len(), at + head.len() + rest.len())) by {
            assert forall|i: int| 0 <= i < rest.len() implies rest[i] == data.subrange(
                at + head.len(),
                at + head.len() + rest.len(),
            )[i] by {
                assert(rest[i] == code[head.len() + i]);
            }
        }
        assert forall|i: int| 0 <= i < head.len() implies data[at + i] == #[trigger] head[i] by {
            assert(code[i] == head[i]);
        }
        lemma_gap_is_read(data, at, pos, g);
        let next = (pos + 2 * g) as u32;
        assert(forall|i: int| 0 <= i < gaps.len() - 1 ==> #[trigger] gaps.skip(1)[i] == gaps[i + 1]);
        lemma_stream(data, at + head.len(), next, gaps.skip(1));
        let r = crate::loader::relocations(data, at, pos);
        let q = crate::loader::relocations(data, at + head.len(), next);
        assert(r->0 == seq![next] + q->0);
        assert forall|i: int| 0 <= i < gaps.len() implies #[trigger] r->0[i] == pos + place_behind(gaps, (i + 1) as nat) by {
            lemma_places_shift(gaps, (i + 1) as nat);
            if i > 0 {
                assert(r->0[i] == q->0[i - 1]);
                assert(q->0[i - 1] == next + place_behind(gaps.skip(1), i as nat));
            }
        }
    }
}

proof fn lemma_encoded_ends(gaps: Seq<u32>)
    ensures
        encoded(gaps).len() >= 2,
    decreases gaps.len(),
{
    if gaps.len() > 0 {
        lemma_encoded_ends(gaps.skip(1));
    }
}

/// Relocating adds the base to the long at each of the places, and changes nothing else;
/// the places lie in the segment and do not meet.
pub proof fn lemma_relocation_adds_base(b: BusView, segment: u32, places: Seq<u32>, base: u32, i: int, a: u32)
    requires
        b.mem.len() <= 0x1_0000_0000,
        forall|k: int| 0 <= k < places.len() ==> segment + (#[trigger] places[k]) + 4 <= b.mem.len(),
        forall|j: int, k: int|
            0 <= j < k < places.len() ==> (#[trigger] places[j]) + 4 <= (#[trigger] places[k]) || places[k] + 4 <= places[j],
        0 <= i < places.len(),
        forall|k: int| 0 <= k < places.len() ==> a < segment + (#[trigger] places[k]) || a >= segment + places[k] + 4,
    ensures
        ({
            let c = crate::loader::relocated(b, segment, places, places.len(), base);
            let at = (segment + places[i]) as u32;
            &&& c.get_long(at) == b.get_long(at).wrapping_add(base)
            &&& c.get_byte(a) == b.get_byte(a)
        }),
{
    lemma_relocated(b, segment, places, places.len(), base, i, a);
}

proof fn lemma_relocated(b: BusView, segment: u32, places: Seq<u32>, n: nat, base: u32, i: int, a: u32)
    requires
        n <= places.len(),
        b.mem.len() <= 0x1_0000_0000,
        forall|k: int| 0 <= k < places.len() ==> segment + (#[trigger] places[k]) + 4 <= b.mem.len(),
        forall|j: int, k: int|
            0 <= j < k < places.len() ==> (#[trigger] places[j]) + 4 <= (#[trigger] places[k]) || places[k] + 4 <= places[j],
        0 <= i < places.len(),
        forall|k: int| 0 <= k < places.len() ==> a < segment + (#[trigger] places[k]) || a >= segment + places[k] + 4,
    ensures
        ({
            let c = crate::loader::relocated(b, segment, places, n, base);
            let at = (segment + places[i]) as u32;
            &&& c.mem.len() == b.mem.len()
            &&& c.get_long(at) == if i < n { b.get_long(at).wrapping_add(base) } else { b.get_long(at) }
            &&& c.get_byte(a) == b.get_byte(a)
        }),
    decreases n,
{
    broadcast use {group_memory_reads, group_memory_bytes};

    if n > 0 {
        lemma_relocated(b, segment, places, (n - 1) as nat, base, i, a);
        let before = crate::loader::relocated(b, segment, places, (n - 1) as nat, base);
        let at = (segment + places[n - 1]) as u32;
        assert(segment.wrapping_add(places[n - 1]) == at);
        if i != n - 1 {
            if i < n - 1 {
                assert(places[i] + 4 <= places[n - 1] || places[n - 1] + 4 <= places[i]);
            } else {
                assert(places[n - 1] + 4 <= places[i] || places[i] + 4 <= places[n - 1]);
            }
        }
    }
}

/// A relocated segment knows A5 and its own address: they stand in its header, 24 and 32
/// bytes behind its start. One that is too short for a header is left alone.
pub proof fn lemma_far_segment_knows_its_place(b: BusView, data: Seq<u8>, segment: u32, a5: u32)
    requires
        b.mem.len() <= 0x1_0000_0000,
        segment + 40 <= b.mem.len(),
    ensures
        data.len() < 40 ==> crate::loader::far_relocated(b, data, segment, a5) == b,
        data.len() >= 40 ==> {
            let c = crate::loader::far_relocated(b, data, segment, a5);
            c.get_long((segment + 24) as u32) == a5 && c.get_long((segment + 32) as u32) == segment
        },
{
    broadcast use group_memory_reads;

    if data.len() >= 40 {
        let a5_places = crate::loader::relocation_places(data, be32(data, 20));
        let pc_places = crate::loader::relocation_places(data, be32(data, 28));
        lemma_relocated_len(b, segment, a5_places, a5_places.len(), a5);
        let c = crate::loader::relocated(b, segment, a5_places, a5_places.len(), a5);
        lemma_relocated_len(c, segment, pc_places, pc_places.len(), segment);
    }
}

proof fn lemma_relocated_len(b: BusView, segment: u32, places: Seq<u32>, n: nat, base: u32)
    ensures
        crate::loader::relocated(b, segment, places, n, base).mem.len() == b.mem.len(),
    decreases n,
{
    if n > 0 {
        lemma_relocated_len(b, segment, places, (n - 1) as nat, base);
    }
}

/// The longs that a far segment names for A5 have A5 added, those that it names for the
/// program counter its address, where the places are behind the header and none meets
/// another.
pub proof fn lemma_far_segment_is_relocated(b: BusView, data: Seq<u8>, segment: u32, a5: u32, of_a5: Seq<u32>, of_pc: Seq<u32>, i: int)
    requires
        b.mem.len() <= 0x1_0000_0000,
        data.len() >= 40,
        segment + data.len() <= b.mem.len(),
        of_a5 == crate::loader::relocation_places(data, be32(data, 20)),
        of_pc == crate::loader::relocation_places(data, be32(data, 28)),
        forall|k: int| 0 <= k < of_a5.len() ==> 40 <= (#[trigger] of_a5[k]) && of_a5[k] + 4 <= data.len(),
        forall|k: int| 0 <= k < of_pc.len() ==> 40 <= (#[trigger] of_pc[k]) && of_pc[k] + 4 <= data.len(),
        forall|j: int, k: int|
            0 <= j < k < of_a5.len() ==> (#[trigger] of_a5[j]) + 4 <= (#[trigger] of_a5[k]) || of_a5[k] + 4 <= of_a5[j],
        forall|j: int, k: int|
            0 <= j < k < of_pc.len() ==> (#[trigger] of_pc[j]) + 4 <= (#[trigger] of_pc[k]) || of_pc[k] + 4 <= of_pc[j],
        forall|j: int, k: int|
            0 <= j < of_a5.len() && 0 <= k < of_pc.len() ==> (#[trigger] of_a5[j]) + 4 <= (#[trigger] of_pc[k]) || of_pc[k] + 4
                <= of_a5[j],
    ensures
        ({
            let c = crate::loader::far_relocated(b, data, segment, a5);
            &&& 0 <= i < of_a5.len() ==> c.get_long((segment + of_a5[i]) as u32) == b.get_long(
                (segment + of_a5[i]) as u32,
            ).wrapping_add(a5)
            &&& 0 <= i < of_pc.len() ==> c.get_long((segment + of_pc[i]) as u32) == b.get_long(
                (segment + of_pc[i]) as u32,
            ).wrapping_add(segment)
        }),
{
    let c1 = crate::loader::relocated(b, segment, of_a5, of_a5.len(), a5);
    let c2 = crate::loader::relocated(c1, segment, of_pc, of_pc.len(), segment);
    lemma_relocated_len(b, segment, of_a5, of_a5.len(), a5);
    lemma_relocated_len(c1, segment, of_pc, of_pc.len(), segment);
    if 0 <= i < of_a5.len() {
        let at = (segment + of_a5[i]) as u32;
        lemma_relocated_long(b, segment, of_a5, of_a5.len(), a5, i);
        lemma_relocated_apart(c1, segment, of_pc, of_pc.len(), segment, at);
    }
    if 0 <= i < of_pc.len() {
        let at = (segment + of_pc[i]) as u32;
        lemma_relocated_apart(b, segment, of_a5, of_a5.len(), a5, at);
        lemma_relocated_long(c1, segment, of_pc, of_pc.len(), segment, i);
    }
    broadcast use group_memory_reads;

}

proof fn lemma_relocated_long(b: BusView, segment: u32, places: Seq<u32>, n: nat, base: u32, i: int)
    requires
        n <= places.len(),
        b.mem.len() <= 0x1_0000_0000,
        forall|k: int| 0 <= k < places.len() ==> segment + (#[trigger] places[k]) + 4 <= b.mem.len(),
        forall|j: int, k: int|
            0 <= j < k < places.len() ==> (#[trigger] places[j]) + 4 <= (#[trigger] places[k]) || places[k] + 4 <= places[j],
        0 <= i < places.len(),
    ensures
        ({
            let at = (segment + places[i]) as u32;
            crate::loader::relocated(b, segment, places, n, base).get_long(at) == if i < n {
                b.get_long(at).wrapping_add(base)
            } else {
                b.get_long(at)
            }
        }),
    decreases n,
{
    broadcast use group_memory_reads;

    if n > 0 {
        lemma_relocated_long(b, segment, places, (n - 1) as nat, base, i);
        lemma_relocated_len(b, segment, places, (n - 1) as nat, base);
        assert(segment.wrapping_add(places[n - 1]) == segment + places[n - 1]);
        if i < n - 1 {
            assert(places[i] + 4 <= places[n - 1] || places[n - 1] + 4 <= places[i]);
        } else if i > n - 1 {
            assert(places[n - 1] + 4 <= places[i] || places[i] + 4 <= places[n - 1]);
        }
    }
}

proof fn lemma_relocated_apart(b: BusView, segment: u32, places: Seq<u32>, n: nat, base: u32, at: u32)
    requires
        n <= places.len(),
        b.mem.len() <= 0x1_0000_0000,
        at + 4 <= b.mem.len(),
        forall|k: int| 0 <= k < places.len() ==> segment + (#[trigger] places[k]) + 4 <= b.mem.len(),
        forall|k: int| 0 <= k < places.len() ==> at + 4 <= segment + (#[trigger] places[k]) || segment + places[k] + 4 <= at,
    ensures
        crate::loader::relocated(b, segment, places, n, base).get_long(at) == b.get_long(at),
    decreases n,
{
    broadcast use group_memory_reads;

    if n > 0 {
        lemma_relocated_apart(b, segment, places, (n - 1) as nat, base, at);
        assert(segment.wrapping_add(places[n - 1]) == segment + places[n - 1]);
    }
}

/// The jump table as the loader reports it: for an entry that `_LoadSeg` follows the
/// segment's number, the segment is its first word and the offset its last; for a place
/// holder both are zero; for any other the offset is its first word and the segment its
/// third.
pub proof fn lemma_reported_jump_table(code0: Seq<u8>, i: int)
    requires
        code0.len() >= 16,
        0 <= i,
        8 * i + 8 <= be32(code0, 8),
        16 + 8 * i + 8 <= code0.len(),
    ensures
        jump_table(code0).len() * 8 <= be32(code0, 8),
        jump_table(code0).len() * 8 <= code0.len() - 16,
        i < jump_table(code0).len(),
        ({
            let e = jump_table(code0)[i];
            let at = 16 + 8 * i;
            let mark = be16(code0, at + 2);
            &&& !e.loaded && e.address == 0
            &&& mark == 0xA9F0 ==> crate::memory_laws::signed(be16(code0, at)) == e.segment && e.offset == be16(code0, at + 6)
            &&& mark == 0xFFFF ==> e.segment == 0 && e.offset == 0
            &&& mark != 0xA9F0 && mark != 0xFFFF ==> e.offset == be16(code0, at) && crate::memory_laws::signed(
                be16(code0, at + 4),
            ) == e.segment
        }),
{
    crate::memory_laws::lemma_signed(be16(code0, 16 + 8 * i));
    crate::memory_laws::lemma_signed(be16(code0, 16 + 8 * i + 4));
}

/// A far segment's entries lead into it: each becomes the segment's number and a jump to
/// the segment's start plus the entry's offset, in memory and in the reported table. The
/// entries of other segments stay.
pub proof fn lemma_far_entries_lead_into_segment(st: LoadState, id: i16, base: u32, table: u32, i: int)
    requires
        st.bus.mem.len() <= 0x1_0000_0000,
        table + 8 * st.table.len() <= st.bus.mem.len(),
        0 <= i < st.table.len(),
    ensures
        ({
            let t = crate::loader::pointed(st, id, base, table, st.table.len());
            let e = st.table[i];
            let at = (table + 8 * i) as u32;
            let target = base.wrapping_add(e.offset as u32);
            &&& t.table.len() == st.table.len()
            &&& e.segment == id ==> {
                &&& t.table[i].loaded && t.table[i].address == target && t.table[i].segment == id
                &&& t.bus.get_word(at) == id as u16
                &&& t.bus.get_word((at + 2) as u32) == 0x4EF9
                &&& t.bus.get_long((at + 4) as u32) == target
            }
            &&& e.segment != id ==> {
                &&& t.table[i] == e
                &&& t.bus.get_long(at) == st.bus.get_long(at)
                &&& t.bus.get_long((at + 4) as u32) == st.bus.get_long((at + 4) as u32)
            }
        }),
{
    lemma_pointed(st, id, base, table, st.table.len(), i);
}

proof fn lemma_pointed(st: LoadState, id: i16, base: u32, table: u32, n: nat, i: int)
    requires
        n <= st.table.len(),
        st.bus.mem.len() <= 0x1_0000_0000,
        table + 8 * st.table.len() <= st.bus.mem.len(),
        0 <= i < st.table.len(),
    ensures
        ({
            let t = crate::loader::pointed(st, id, base, table, n);
            let e = st.table[i];
            let at = (table + 8 * i) as u32;
            let target = base.wrapping_add(e.offset as u32);
            &&& t.table.len() == st.table.len()
            &&& t.bus.mem.len() == st.bus.mem.len()
            &&& e.segment == id && i < n ==> {
                &&& t.table[i].loaded && t.table[i].address == target && t.table[i].segment == id
                &&& t.bus.get_word(at) == id as u16
                &&& t.bus.get_word((at + 2) as u32) == 0x4EF9
                &&& t.bus.get_long((at + 4) as u32) == target
            }
            &&& e.segment != id || i >= n ==> {
                &&& t.table[i] == e
                &&& t.bus.get_long(at) == st.bus.get_long(at)
                &&& t.bus.get_long((at + 4) as u32) == st.bus.get_long((at + 4) as u32)
            }
        }),
    decreases n,
{
    broadcast use group_memory_reads;

    if n > 0 {
        lemma_pointed(st, id, base, table, (n - 1) as nat, i);
        lemma_pointed(st, id, base, table, (n - 1) as nat, n - 1);
        let at = table.wrapping_add((8 * (n - 1)) as u32);
        assert(at == table + 8 * (n - 1));
    }
}

/// Resources come into memory in their order: each has an entry with its type, its number
/// and its size, a handle that leads to its block, and its bytes in the block, as long as
/// there is room for all of them.
pub proof fn lemma_resources_are_loaded(t: ResourceTable, b: BusView, rs: Seq<ResourceView>, i: int, k: int)
    requires
        b.mem.len() <= 0x1_0000_0000,
        4 <= b.heap,
        forall|j: int| 0 <= j < rs.len() ==> (#[trigger] rs[j]).data.len() <= u32::MAX,
        t.with_resources(b, rs, rs.len()).0.loaded.len() == t.loaded.len() + rs.len(),
        0 <= i < rs.len(),
    ensures
        ({
            let (u, c) = t.with_resources(b, rs, rs.len());
            let e = u.loaded[t.loaded.len() + i];
            &&& e.res_type == rs[i].res_type
            &&& e.id == rs[i].id
            &&& e.size == rs[i].data.len()
            &&& e.handle != 0
            &&& c.get_long(e.handle) == e.ptr
            &&& 0 <= k < rs[i].data.len() ==> c.get_byte((e.ptr + k) as u32) == rs[i].data[k]
            &&& forall|j: int| 0 <= j < t.loaded.len() ==> #[trigger] u.loaded[j] == t.loaded[j]
        }),
{
    lemma_resources_in_order(t, b, rs, rs.len(), i, k);
}

proof fn lemma_most_resources(t: ResourceTable, b: BusView, rs: Seq<ResourceView>, n: nat)
    requires
        n <= rs.len(),
    ensures
        t.with_resources(b, rs, n).0.loaded.len() <= t.loaded.len() + n,
        n > 0 ==> t.with_resources(b, rs, n).0.loaded.len() <= t.with_resources(b, rs, (n - 1) as nat).0.loaded.len() + 1,
    decreases n,
{
    if n > 0 {
        lemma_most_resources(t, b, rs, (n - 1) as nat);
    }
}

proof fn lemma_resources_in_order(t: ResourceTable, b: BusView, rs: Seq<ResourceView>, n: nat, i: int, k: int)
    requires
        n <= rs.len(),
        b.mem.len() <= 0x1_0000_0000,
        4 <= b.heap,
        forall|j: int| 0 <= j < rs.len() ==> (#[trigger] rs[j]).data.len() <= u32::MAX,
        t.with_resources(b, rs, n).0.loaded.len() == t.loaded.len() + n,
    ensures
        ({
            let (u, c) = t.with_resources(b, rs, n);
            let e = u.loaded[t.loaded.len() + i];
            &&& c.heap >= b.heap
            &&& c.mem.len() == b.mem.len()
            &&& 0 <= i < n ==> {
                &&& e.res_type == rs[i].res_type
                &&& e.id == rs[i].id
                &&& e.size == rs[i].data.len()
                &&& e.handle != 0
                &&& e.handle + 4 <= c.heap
                &&& rs[i].data.len() > 0 ==> e.ptr + rs[i].data.len() <= c.heap
                &&& c.get_long(e.handle) == e.ptr
                &&& 0 <= k < rs[i].data.len() ==> c.get_byte((e.ptr + k) as u32) == rs[i].data[k]
            }
            &&& forall|j: int| 0 <= j < t.loaded.len() ==> #[trigger] u.loaded[j] == t.loaded[j]
        }),
    decreases n,
{
    if n > 0 {
        let m = (n - 1) as nat;
        lemma_most_resources(t, b, rs, n);
        lemma_most_resources(t, b, rs, m);
        lemma_resources_in_order(t, b, rs, m, i, k);
        let (u, c) = t.with_resources(b, rs, m);
        let r = rs[n - 1];
        let (v, d) = t.with_resources(b, rs, n);
        if i == m {
            lemma_handle_leads(c, r.data, k);
        } else {
            let e = u.loaded[t.loaded.len() + i];
            lemma_handle_spares(c, r.data);
            if 0 <= i < m {
                assert(v.loaded[t.loaded.len() + i] == e);
                let h = e.handle;
                assert(d.get_byte(h) == c.get_byte(h));
                assert(d.get_byte((h + 1) as u32) == c.get_byte((h + 1) as u32));
                assert(d.get_byte((h + 2) as u32) == c.get_byte((h + 2) as u32));
                assert(d.get_byte((h + 3) as u32) == c.get_byte((h + 3) as u32));
                crate::interrupt_laws::lemma_same_long(d, c, h);
                if 0 <= k < rs[i].data.len() {
                    assert(d.get_byte((e.ptr + k) as u32) == c.get_byte((e.ptr + k) as u32));
                }
            }
        }
        lemma_handle_spares(c, r.data);
    }
}

proof fn lemma_handle_spares(b: BusView, bytes: Seq<u8>)
    requires
        bytes.len() <= u32::MAX,
        4 <= b.heap,
    ensures
        ({
            let c = handle_made(b, bytes).2;
            &&& c.heap >= b.heap
            &&& c.mem.len() == b.mem.len()
            &&& forall|a: u32| a < b.heap ==> #[trigger] c.get_byte(a) == b.get_byte(a)
        }),
{
    broadcast use group_memory_bytes;

    reveal(handle_made);
}

proof fn lemma_handle_leads(b: BusView, bytes: Seq<u8>, k: int)
    requires
        bytes.len() <= u32::MAX,
        4 <= b.heap,
        b.mem.len() <= 0x1_0000_0000,
        handle_made(b, bytes).0 != 0,
    ensures
        ({
            let (handle, ptr, c) = handle_made(b, bytes);
            &&& c.get_long(handle) == ptr
            &&& handle + 4 <= c.heap
            &&& bytes.len() > 0 ==> ptr + bytes.len() <= c.heap
            &&& 0 <= k < bytes.len() ==> c.get_byte((ptr + k) as u32) == bytes[k]
        }),
{
    broadcast use {group_memory_reads, group_memory_bytes};

    reveal(handle_made);
    reveal(crate::memory::set_bytes);
}

/// Code segment 0 itself stands in memory byte for byte, where the Segment Loader knows it:
/// 48 kilobytes and its size behind the application's globals; the entries that segments
/// ask for lie below it.
pub proof fn lemma_code_segment_zero_is_loaded(s: RunnerView, rs: Seq<ResourceView>, t: RunnerView, app: AppView, zero: int)
    requires
        s.loaded(rs) == Some((t, app)),
        is_first(rs, zero, 0x434F_4445, 0),
        near_model(rs),
        areas_fit(rs, rs[zero].data, app.a5_base, s.bus.mem.len()),
        forall|j: int, o: int, c: int|
            #![trigger owns_entries(rs[j], o, c)]
            0 <= j < rs.len() && is_code(rs[j]) && owns_entries(rs[j], o, c) ==> be32(rs[zero].data, 12) + o + 8 * c <= be32(
                rs[zero].data,
                0,
            ) + 0xC000,
    ensures
        app.segment_bases.contains_key(0),
        ({
            let base = app.segment_bases[0];
            &&& base == app.a5_base + be32(rs[zero].data, 0) + 0xC000 + 4
            &&& t.bus.get_long((base - 4) as u32) == rs[zero].data.len()
            &&& forall|k: int|
                0 <= k < rs[zero].data.len() ==> t.bus.get_byte((base + k) as u32) == #[trigger] rs[zero].data[k]
        }),
        app.loaded_image_end >= app.a5_base + be32(rs[zero].data, 0) + 0xC000 + 0x40000,
{
    let code0 = rs[zero].data;
    let g = steps(s.bus, rs, code0, s.config.load_address);
    lemma_steps(s, rs, t, app, zero);
    let base = (g.p.globals_end + 4) as u32;
    assert(g.zero.get_long((base - 4) as u32) == code0.len() && forall|k: int|
        0 <= k < code0.len() ==> g.zero.get_byte((base + k) as u32) == #[trigger] code0[k]) by {
        lemma_code0_copy(g.globals, code0, g.p);
    }
    let end = (g.p.table + 8 * jump_count(code0)) as u32;
    assert forall|a: u32| g.p.globals_end <= a < base + code0.len() implies #[trigger] t.bus.get_byte(a) == g.zero.get_byte(a) by {
        lemma_owned_below(rs, g.codes, g.p.table, g.p.globals_end);
        lemma_ready_above(g.zero, g.codes, g.p.table, end, g.codes.len(), g.p.globals_end, a);
        lemma_segments(g.first, g.codes, g.p.a5, g.p.table, g.codes.len());
        lemma_kept_since_segments(s, rs, t, app, zero);
        assert(t.bus.get_byte(a) == g.last.bus.get_byte(a));
        assert(g.last.bus.get_byte(a) == g.first.bus.get_byte(a));
    }
    lemma_still_copied(g.zero, t.bus, base, code0);
    lemma_base_of_zero(g.first, g.codes, g.p.a5, g.p.table, g.codes.len());
    reveal(steps);
}

proof fn lemma_code0_copy(b: BusView, code0: Seq<u8>, p: LoadPlan)
    requires
        b.mem.len() <= 0x1_0000_0000,
        16 <= code0.len() <= 0x1000_0000,
        p.globals_end + 4 + code0.len() <= b.mem.len(),
        p.table + code0.len() - 16 <= p.globals_end,
    ensures
        ({
            let c = code0_loaded(b, code0, p);
            let base = (p.globals_end + 4) as u32;
            &&& c.get_long(p.globals_end) == code0.len()
            &&& forall|k: int| 0 <= k < code0.len() ==> c.get_byte((base + k) as u32) == #[trigger] code0[k]
        }),
{
    reveal(code0_loaded);
    let base = (p.globals_end + 4) as u32;
    let b1 = b.long(p.globals_end, code0.len() as u32);
    let b2 = b1.bytes(base, code0);
    let c = code0_loaded(b, code0, p);
    assert(b1.get_long(p.globals_end) == code0.len()) by {
        broadcast use group_memory_reads;

    }
    assert forall|a: u32| p.globals_end <= a < base implies #[trigger] c.get_byte(a) == b1.get_byte(a) by {
        broadcast use group_memory_bytes;

    }
    let x = p.globals_end;
    assert(c.get_byte(x) == b1.get_byte(x) && c.get_byte((x + 1) as u32) == b1.get_byte((x + 1) as u32));
    assert(c.get_byte((x + 2) as u32) == b1.get_byte((x + 2) as u32) && c.get_byte((x + 3) as u32) == b1.get_byte(
        (x + 3) as u32,
    ));
    crate::interrupt_laws::lemma_same_long(c, b1, x);
    assert forall|k: int| 0 <= k < code0.len() implies c.get_byte((base + k) as u32) == #[trigger] code0[k] by {
        broadcast use group_memory_bytes;

        reveal(crate::memory::set_bytes);
        assert(b2.get_byte((base + k) as u32) == code0[k]);
    }
}

proof fn lemma_still_copied(b: BusView, c: BusView, base: u32, data: Seq<u8>)
    requires
        4 <= base,
        base + data.len() <= 0x1_0000_0000,
        b.get_long((base - 4) as u32) == data.len(),
        forall|k: int| 0 <= k < data.len() ==> b.get_byte((base + k) as u32) == #[trigger] data[k],
        forall|a: u32| base - 4 <= a < base + data.len() ==> #[trigger] c.get_byte(a) == b.get_byte(a),
        data.len() >= 4,
    ensures
        c.get_long((base - 4) as u32) == data.len(),
        forall|k: int| 0 <= k < data.len() ==> c.get_byte((base + k) as u32) == #[trigger] data[k],
{
    assert forall|k: int| 0 <= k < data.len() implies c.get_byte((base + k) as u32) == #[trigger] data[k] by {
        assert(b.get_byte((base + k) as u32) == data[k]);
        assert(c.get_byte((base + k) as u32) == b.get_byte((base + k) as u32));
    }
    let x = (base - 4) as u32;
    assert(c.get_byte(x) == b.get_byte(x));
    assert(c.get_byte((x + 1) as u32) == b.get_byte((x + 1) as u32));
    assert(c.get_byte((x + 2) as u32) == b.get_byte((x + 2) as u32));
    assert(c.get_byte((x + 3) as u32) == b.get_byte((x + 3) as u32));
    crate::interrupt_laws::lemma_same_long(c, b, x);
}

/// The segments' own entries end where `end` is.
spec fn entries_end_below(codes: Seq<ResourceView>, table: u32, end: u32) -> bool {
    forall|k: int|
        0 <= k < codes.len() ==> (entries_of(#[trigger] codes[k]) matches Some((offset, count)) ==> table + offset + 8 * count
            <= end)
}

proof fn lemma_owned_below(rs: Seq<ResourceView>, codes: Seq<ResourceView>, table: u32, end: u32)
    requires
        codes == code_order(rs, rs.len()),
        near_segments(codes),
        table <= end,
        forall|j: int, o: int, c: int|
            #![trigger owns_entries(rs[j], o, c)]
            0 <= j < rs.len() && is_code(rs[j]) && owns_entries(rs[j], o, c) ==> table + o + 8 * c <= end,
    ensures
        entries_end_below(codes, table, end),
{
    lemma_code_order(rs, rs.len());
    assert forall|k: int| 0 <= k < codes.len() implies (entries_of(#[trigger] codes[k]) matches Some((offset, count))
        ==> table + offset + 8 * count <= end) by {
        if let Some((offset, count)) = entries_of(codes[k]) {
            assert(is_code(codes[k]));
            let x = choose|x: int| 0 <= x < rs.len() && rs[x] == codes[k];
            assert(owns_entries(rs[x], offset as int, count as int));
        }
    }
}

proof fn lemma_ready_above(b: BusView, codes: Seq<ResourceView>, table: u32, end: u32, n: nat, limit: u32, a: u32)
    requires
        n <= codes.len(),
        near_segments(codes),
        table + 0x000C_0000 <= 0x1_0000_0000,
        entries_end_below(codes, table, limit),
        limit <= a,
    ensures
        table_ready(b, codes, table, end, n).0.get_byte(a) == b.get_byte(a),
    decreases n,
{
    if n > 0 {
        lemma_ready_above(b, codes, table, end, (n - 1) as nat, limit, a);
        lemma_own_entries(codes[n - 1]);
        if let Some((offset, count)) = entries_of(codes[n - 1]) {
            assert(table + offset + 8 * count <= limit);
            lemma_stubs_above(
                table_ready(b, codes, table, end, (n - 1) as nat).0,
                (table + offset) as u32,
                codes[n - 1].id,
                count as nat,
                a,
            );
        }
    }
}

proof fn lemma_base_of_zero(st: LoadState, codes: Seq<ResourceView>, a5: u32, table: u32, n: nat)
    requires
        n <= codes.len(),
        near_segments(codes),
        st.bases.contains_key(0),
    ensures
        segments_loaded(st, codes, a5, table, n).bases.contains_key(0),
        segments_loaded(st, codes, a5, table, n).bases[0] == st.bases[0],
    decreases n,
{
    if n > 0 {
        lemma_base_of_zero(st, codes, a5, table, (n - 1) as nat);
        let r = codes[n - 1];
        assert(near_segments(codes) && (r.id != 0 && r.data.len() >= 4 ==> be16(r.data, 0) != 0xFFFF));
    }
}

/// Segments lie in memory in the order of their numbers, one behind the other.
pub proof fn lemma_segments_lie_in_order(s: RunnerView, rs: Seq<ResourceView>, t: RunnerView, app: AppView, zero: int, i: int, j: int)
    requires
        s.loaded(rs) == Some((t, app)),
        is_first(rs, zero, 0x434F_4445, 0),
        near_model(rs),
        areas_fit(rs, rs[zero].data, app.a5_base, s.bus.mem.len()),
        0 <= i < rs.len() && is_code(rs[i]) && rs[i].id != 0,
        0 <= j < rs.len() && is_code(rs[j]) && rs[j].id != 0,
        rs[i].id < rs[j].id,
        forall|k: int| 0 <= k < rs.len() && k != i && is_code(#[trigger] rs[k]) ==> rs[k].id != rs[i].id,
        forall|k: int| 0 <= k < rs.len() && k != j && is_code(#[trigger] rs[k]) ==> rs[k].id != rs[j].id,
    ensures
        app.segment_bases[rs[i].id] + rs[i].data.len() + 4 <= app.segment_bases[rs[j].id],
{
    let codes = code_order(rs, rs.len());
    lemma_once_in_order(rs, rs.len(), i);
    lemma_once_in_order(rs, rs.len(), j);
    let p = choose|p: int|
        0 <= p < codes.len() && codes[p] == rs[i] && forall|k: int|
            0 <= k < codes.len() && k != p ==> (#[trigger] codes[k]).id != rs[i].id;
    let q = choose|q: int|
        0 <= q < codes.len() && codes[q] == rs[j] && forall|k: int|
            0 <= k < codes.len() && k != q ==> (#[trigger] codes[k]).id != rs[j].id;
    assert(p < q) by {
        lemma_code_order(rs, rs.len());
        if q < p {
            assert(codes[q].id <= codes[p].id);
        }
    }
    let g = steps(s.bus, rs, rs[zero].data, s.config.load_address);
    assert(app.segment_bases[rs[i].id] == segment_start(g.first, codes, g.p.a5, g.p.table, p)
        && app.segment_bases[rs[j].id] == segment_start(g.first, codes, g.p.a5, g.p.table, q)) by {
        lemma_steps(s, rs, t, app, zero);
        lemma_segment_stands(g.first, codes, g.p.a5, g.p.table, codes.len(), p);
        lemma_segment_stands(g.first, codes, g.p.a5, g.p.table, codes.len(), q);
    }
    assert(segment_start(g.first, codes, g.p.a5, g.p.table, p) + rs[i].data.len() + 4 <= segment_start(
        g.first,
        codes,
        g.p.a5,
        g.p.table,
        q,
    )) by {
        lemma_steps(s, rs, t, app, zero);
        lemma_room_grows(codes, q as nat, codes.len());
        lemma_segment_stands(g.first, codes, g.p.a5, g.p.table, q as nat, p);
        reveal(segment_start);
    }
}

proof fn lemma_room_grows(codes: Seq<ResourceView>, n: nat, m: nat)
    requires
        n <= m <= codes.len(),
    ensures
        room(codes, n) <= room(codes, m),
    decreases m,
{
    if n < m {
        lemma_room_grows(codes, n, (m - 1) as nat);
    }
}

/// What an application's size resource says: its flags, then the size that it prefers, then
/// the least size. Without ten bytes it says nothing, and a preferred size of zero is none.
pub proof fn lemma_size_resource(data: Seq<u8>)
    ensures
        data.len() < 10 ==> crate::loader::size_resource(data) is None,
        data.len() >= 10 ==> (crate::loader::size_resource(data) matches Some(r) && {
            &&& r.flags == data[0] * 0x100 + data[1]
            &&& r.preferred_size == data[2] * 0x100_0000 + data[3] * 0x1_0000 + data[4] * 0x100 + data[5]
            &&& r.minimum_size == data[6] * 0x100_0000 + data[7] * 0x1_0000 + data[8] * 0x100 + data[9]
            &&& r.preferred() == if r.preferred_size == 0 { None } else { Some(r.preferred_size) }
        }),
{
}

/// Each exception vector has its address, but for those that have a routine of their own;
/// none is zero, and those without a handler share one.
pub proof fn lemma_exception_vectors(b: BusView, k: int)
    requires
        0x1000 <= b.mem.len() <= 0x1_0000_0000,
        0 <= k < 63,
        k < 5 || k > 7,
    ensures
        ({
            let c = crate::loader::with_low_memory(b);
            let v = c.get_long((4 * k) as u32);
            &&& v != 0
            &&& k <= 1 ==> v == 0x4081_0000
            &&& 12 <= k <= 24 || 32 <= k <= 47 || 56 <= k ==> v == 0x4080_2704
            &&& 2 <= k <= 3 ==> v == 0x0001_EAD6 + 2 * (k - 2)
            &&& 8 <= k <= 9 ==> v == 0x4080_26FC + 2 * (k - 8)
        }),
{
    let b1 = crate::loader::with_returns(b, 80);
    let b2 = crate::loader::with_vectors(b1, 64);
    lemma_returns_len(b, 80);
    lemma_vectors_len(b1, 64);
    lemma_vector(b1, 64, k);
    broadcast use group_memory_reads;

}

proof fn lemma_vector(b: BusView, n: nat, k: int)
    requires
        0x1000 <= b.mem.len() <= 0x1_0000_0000,
        0 <= k < n <= 64,
    ensures
        crate::loader::with_vectors(b, n).get_long((4 * k) as u32) == crate::loader::boot_vector(k as u32),
    decreases n,
{
    broadcast use group_memory_reads;

    lemma_vectors_len(b, (n - 1) as nat);
    if k < n - 1 {
        lemma_vector(b, (n - 1) as nat, k);
    }
}

/// A far segment is loaded with its bytes, relocated, and with the entries of the jump
/// table that belong to it leading into it; the jump table lies apart from it.
pub proof fn lemma_far_segment_is_loaded(st: LoadState, r: ResourceView, a5: u32, table: u32, of_a5: Seq<u32>, of_pc: Seq<u32>, i: int, k: int)
    requires
        st.bus.mem.len() <= 0xFFFF_FFFF,
        r.id != 0,
        40 <= r.data.len(),
        be16(r.data, 0) == 0xFFFF,
        st.next + r.data.len() + 12 <= st.bus.mem.len(),
        table + 8 * st.table.len() <= st.next,
        of_a5 == crate::loader::relocation_places(r.data, be32(r.data, 20)),
        of_pc == crate::loader::relocation_places(r.data, be32(r.data, 28)),
        forall|k: int| 0 <= k < of_a5.len() ==> 40 <= (#[trigger] of_a5[k]) && of_a5[k] + 4 <= r.data.len(),
        forall|k: int| 0 <= k < of_pc.len() ==> 40 <= (#[trigger] of_pc[k]) && of_pc[k] + 4 <= r.data.len(),
        forall|j: int, k: int|
            0 <= j < k < of_a5.len() ==> (#[trigger] of_a5[j]) + 4 <= (#[trigger] of_a5[k]) || of_a5[k] + 4 <= of_a5[j],
        forall|j: int, k: int|
            0 <= j < k < of_pc.len() ==> (#[trigger] of_pc[j]) + 4 <= (#[trigger] of_pc[k]) || of_pc[k] + 4 <= of_pc[j],
        forall|j: int, k: int|
            0 <= j < of_a5.len() && 0 <= k < of_pc.len() ==> (#[trigger] of_a5[j]) + 4 <= (#[trigger] of_pc[k]) || of_pc[k] + 4
                <= of_a5[j],
    ensures
        ({
            let t = segment_loaded(st, r, a5, table);
            let base = (st.next + 4) as u32;
            &&& t.bases == st.bases.insert(r.id, base)
            &&& t.bus.get_long((base + 24) as u32) == a5
            &&& t.bus.get_long((base + 32) as u32) == base
            &&& 0 <= k < of_a5.len() ==> t.bus.get_long((base + of_a5[k]) as u32) == be32(r.data, of_a5[k] as int).wrapping_add(
                a5,
            )
            &&& 0 <= k < of_pc.len() ==> t.bus.get_long((base + of_pc[k]) as u32) == be32(r.data, of_pc[k] as int).wrapping_add(
                base,
            )
            &&& 0 <= i < st.table.len() && st.table[i].segment == r.id ==> {
                &&& t.bus.get_word((table + 8 * i + 2) as u32) == 0x4EF9
                &&& t.bus.get_long((table + 8 * i + 4) as u32) == base.wrapping_add(st.table[i].offset as u32)
                &&& t.table[i].loaded
                &&& t.table[i].address == base.wrapping_add(st.table[i].offset as u32)
            }
        }),
{
    let size = r.data.len() as u32;
    let base = (st.next + 4) as u32;
    let b1 = st.bus.long(st.next, size).bytes(base, r.data);
    let s1 = LoadState {
        bus: crate::loader::far_relocated(b1, r.data, base, a5),
        table: st.table,
        bases: st.bases.insert(r.id, base),
        next: less4(base.wrapping_add(size).wrapping_add(7)),
    };
    let t = segment_loaded(st, r, a5, table);
    assert(t == crate::loader::pointed(s1, r.id, base, table, st.table.len()));
    lemma_far_segment_knows_its_place(b1, r.data, base, a5);
    lemma_far_segment_is_relocated(b1, r.data, base, a5, of_a5, of_pc, k);
    lemma_relocated_len(b1, base, of_a5, of_a5.len(), a5);
    lemma_relocated_len(
        crate::loader::relocated(b1, base, of_a5, of_a5.len(), a5),
        base,
        of_pc,
        of_pc.len(),
        base,
    );
    assert(s1.bus.mem.len() == st.bus.mem.len());
    if 0 <= k < of_a5.len() {
        lemma_laid_down(st.bus.long(st.next, size), base, r.data, of_a5[k] as int);
        lemma_pointed_apart(s1, r.id, base, table, st.table.len(), (base + of_a5[k]) as u32);
    }
    if 0 <= k < of_pc.len() {
        lemma_laid_down(st.bus.long(st.next, size), base, r.data, of_pc[k] as int);
        lemma_pointed_apart(s1, r.id, base, table, st.table.len(), (base + of_pc[k]) as u32);
    }
    lemma_pointed_apart(s1, r.id, base, table, st.table.len(), (base + 24) as u32);
    lemma_pointed_apart(s1, r.id, base, table, st.table.len(), (base + 32) as u32);
    if 0 <= i < st.table.len() {
        lemma_pointed(s1, r.id, base, table, st.table.len(), i);
    }
    lemma_pointed_bases(s1, r.id, base, table, st.table.len());
}

proof fn lemma_laid_down(b: BusView, base: u32, data: Seq<u8>, at: int)
    requires
        base + data.len() <= b.mem.len() <= 0x1_0000_0000,
        0 <= at,
        at + 4 <= data.len(),
    ensures
        b.bytes(base, data).get_long((base + at) as u32) == be32(data, at),
{
    reveal(crate::memory::set_bytes);
    reveal(long_at);
    reveal(word_at);
}

proof fn lemma_pointed_apart(st: LoadState, id: i16, base: u32, table: u32, n: nat, at: u32)
    requires
        n <= st.table.len(),
        st.bus.mem.len() <= 0x1_0000_0000,
        table + 8 * st.table.len() <= at,
        at + 4 <= st.bus.mem.len(),
    ensures
        crate::loader::pointed(st, id, base, table, n).bus.get_long(at) == st.bus.get_long(at),
        crate::loader::pointed(st, id, base, table, n).table.len() == st.table.len(),
    decreases n,
{
    broadcast use group_memory_reads;

    if n > 0 {
        lemma_pointed_apart(st, id, base, table, (n - 1) as nat, at);
        assert(table.wrapping_add((8 * (n - 1)) as u32) == table + 8 * (n - 1));
    }
}

proof fn lemma_pointed_bases(st: LoadState, id: i16, base: u32, table: u32, n: nat)
    ensures
        crate::loader::pointed(st, id, base, table, n).bases == st.bases,
    decreases n,
{
    if n > 0 {
        lemma_pointed_bases(st, id, base, table, (n - 1) as nat);
    }
}

/// The heap that the first `n` resources need at most: their bytes, a handle, and what
/// rounding up costs.
pub open spec fn resource_room(rs: Seq<ResourceView>, n: nat) -> nat
    decreases n,
{
    if n == 0 {
        0
    } else {
        resource_room(rs, (n - 1) as nat) + rs[n - 1].data.len() + 8
    }
}

/// Every resource of an application is loaded with it, in its order, where the heap has
/// room for all of them: it has an entry, a handle that leads to its block, and its bytes.
pub proof fn lemma_application_has_its_resources(s: RunnerView, rs: Seq<ResourceView>, t: RunnerView, app: AppView, i: int, k: int)
    requires
        s.loaded(rs) == Some((t, app)),
        forall|j: int| 0 <= j < rs.len() ==> (#[trigger] rs[j]).data.len() <= u32::MAX,
        s.bus.mem.len() <= u32::MAX,
        s.bus.heap + resource_room(rs, rs.len()) <= s.bus.mem.len(),
        more(heap_start(app.loaded_image_end), 64) + resource_room(rs, rs.len()) <= s.bus.mem.len(),
        0 <= i < rs.len(),
    ensures
        ({
            let e = t.disp.resources.loaded[s.disp.resources.loaded.len() + i];
            &&& t.disp.resources.loaded.len() == s.disp.resources.loaded.len() + rs.len()
            &&& e.res_type == rs[i].res_type
            &&& e.id == rs[i].id
            &&& e.size == rs[i].data.len()
            &&& e.handle != 0
            &&& t.bus.get_long(e.handle) == e.ptr
            &&& 0 <= k < rs[i].data.len() ==> t.bus.get_byte((e.ptr + k) as u32) == rs[i].data[k]
        }),
{
    let b = lemma_resources_follow(s, rs, t, app);
    lemma_all_resources_fit(s.disp.resources, b, rs, rs.len());
    lemma_resources_are_loaded(s.disp.resources, b, rs, i, k);
}

/// Resources are loaded behind the application's image and behind what the heap holds.
proof fn lemma_resources_follow(s: RunnerView, rs: Seq<ResourceView>, t: RunnerView, app: AppView) -> (b: BusView)
    requires
        s.loaded(rs) == Some((t, app)),
    ensures
        b.heap == larger(s.bus.heap, more(heap_start(app.loaded_image_end), 64)),
        b.mem.len() == s.bus.mem.len(),
        t.bus == s.disp.resources.with_resources(b, rs, rs.len()).1,
        t.disp.resources.loaded == s.disp.resources.with_resources(b, rs, rs.len()).0.loaded,
{
    reveal(RunnerView::loaded);
    lemma_load_keeps_heap(s.bus, rs, s.config.load_address);
    let (c, loaded) = app_loaded(s.bus, rs, s.config.load_address)->0;
    BusView { heap: larger(c.heap, more(heap_start(app.loaded_image_end), 64)), ..c }
}

proof fn lemma_all_resources_fit(t: ResourceTable, b: BusView, rs: Seq<ResourceView>, n: nat)
    requires
        n <= rs.len(),
        forall|j: int| 0 <= j < rs.len() ==> (#[trigger] rs[j]).data.len() <= u32::MAX,
        4 <= b.heap,
        b.heap + resource_room(rs, n) <= b.mem.len() <= u32::MAX,
    ensures
        t.with_resources(b, rs, n).0.loaded.len() == t.loaded.len() + n,
        t.with_resources(b, rs, n).1.heap <= b.heap + resource_room(rs, n),
        t.with_resources(b, rs, n).1.heap >= b.heap,
        t.with_resources(b, rs, n).1.mem.len() == b.mem.len(),
    decreases n,
{
    if n > 0 {
        lemma_all_resources_fit(t, b, rs, (n - 1) as nat);
        reveal(handle_made);
    }
}

/// Loading an application leaves the heap alone.
proof fn lemma_load_keeps_heap(b: BusView, rs: Seq<ResourceView>, configured: u32)
    ensures
        app_loaded(b, rs, configured) matches Some((c, app)) ==> c.heap == b.heap && c.mem.len() == b.mem.len(),
{
    if let Some(i) = resource_at(rs, 0x434F_4445, 0, 0) {
        if let Some(header) = crate::loader::code0_header(rs[i].data) {
            let code0 = rs[i].data;
            let p = load_plan(header, fork_size(rs), configured, b.ram_size());
            let b1 = globals_loaded(b, rs, p);
            reveal(globals_loaded);
            lemma_low_memory_heap(
                b.filled(p.load, less(p.cleared_end, p.load), 0).long(crate::globals::CURRENT_A5, p.a5).word(
                    crate::globals::CUR_JT_OFFSET,
                    p.header.jump_table_offset as u16,
                ).word(crate::globals::ROM85, 0),
            );
            reveal(code0_loaded);
            let b2 = code0_loaded(b1, code0, p);
            reveal(codes_loaded);
            let codes = code_order(rs, rs.len());
            lemma_ready_heap(b2, codes, p.table, p.table.wrapping_add((8 * jump_count(code0)) as u32), codes.len());
            let (b3, end) = table_ready(
                b2,
                codes,
                p.table,
                p.table.wrapping_add((8 * jump_count(code0)) as u32),
                codes.len(),
            );
            let user = p.globals_end.wrapping_add(4);
            lemma_segments_heap(
                LoadState {
                    bus: b3,
                    table: jump_table(code0),
                    bases: Map::empty().insert(0i16, user),
                    next: less4(larger(user.wrapping_add(code0.len() as u32), end).wrapping_add(4)),
                },
                codes,
                p.a5,
                p.table,
                codes.len(),
            );
        }
    }
}

proof fn lemma_low_memory_heap(b: BusView)
    ensures
        crate::loader::with_low_memory(b).heap == b.heap,
        crate::loader::with_low_memory(b).mem.len() == b.mem.len(),
{
    lemma_low_memory_len(b);
    lemma_returns_heap(b, 80);
    lemma_vectors_heap(crate::loader::with_returns(b, 80), 64);
}

proof fn lemma_returns_heap(b: BusView, n: nat)
    ensures
        crate::loader::with_returns(b, n).heap == b.heap,
    decreases n,
{
    if n > 0 {
        lemma_returns_heap(b, (n - 1) as nat);
    }
}

proof fn lemma_vectors_heap(b: BusView, n: nat)
    ensures
        crate::loader::with_vectors(b, n).heap == b.heap,
    decreases n,
{
    if n > 0 {
        lemma_vectors_heap(b, (n - 1) as nat);
    }
}

proof fn lemma_stubs_heap(b: BusView, first: u32, id: i16, n: nat)
    ensures
        with_stubs(b, first, id, n).heap == b.heap,
        with_stubs(b, first, id, n).mem.len() == b.mem.len(),
    decreases n,
{
    if n > 0 {
        lemma_stubs_heap(b, first, id, (n - 1) as nat);
    }
}

proof fn lemma_ready_heap(b: BusView, codes: Seq<ResourceView>, table: u32, end: u32, n: nat)
    ensures
        table_ready(b, codes, table, end, n).0.heap == b.heap,
        table_ready(b, codes, table, end, n).0.mem.len() == b.mem.len(),
    decreases n,
{
    if n > 0 {
        lemma_ready_heap(b, codes, table, end, (n - 1) as nat);
        if let Some((offset, count)) = entries_of(codes[n - 1]) {
            lemma_stubs_heap(
                table_ready(b, codes, table, end, (n - 1) as nat).0,
                table.wrapping_add(offset),
                codes[n - 1].id,
                count as nat,
            );
        }
    }
}

proof fn lemma_relocated_heap(b: BusView, segment: u32, places: Seq<u32>, n: nat, base: u32)
    ensures
        crate::loader::relocated(b, segment, places, n, base).heap == b.heap,
        crate::loader::relocated(b, segment, places, n, base).mem.len() == b.mem.len(),
    decreases n,
{
    if n > 0 {
        lemma_relocated_heap(b, segment, places, (n - 1) as nat, base);
    }
}

proof fn lemma_pointed_heap(st: LoadState, id: i16, base: u32, table: u32, n: nat)
    ensures
        crate::loader::pointed(st, id, base, table, n).bus.heap == st.bus.heap,
        crate::loader::pointed(st, id, base, table, n).bus.mem.len() == st.bus.mem.len(),
    decreases n,
{
    if n > 0 {
        lemma_pointed_heap(st, id, base, table, (n - 1) as nat);
    }
}

proof fn lemma_segments_heap(st: LoadState, codes: Seq<ResourceView>, a5: u32, table: u32, n: nat)
    ensures
        segments_loaded(st, codes, a5, table, n).bus.heap == st.bus.heap,
        segments_loaded(st, codes, a5, table, n).bus.mem.len() == st.bus.mem.len(),
    decreases n,
{
    if n > 0 {
        let m = (n - 1) as nat;
        lemma_segments_heap(st, codes, a5, table, m);
        let s = segments_loaded(st, codes, a5, table, m);
        let r = codes[n - 1];
        let size = r.data.len() as u32;
        let base = s.next.wrapping_add(4);
        let b1 = s.bus.long(s.next, size).bytes(base, r.data);
        let of_a5 = crate::loader::relocation_places(r.data, be32(r.data, 20));
        let of_pc = crate::loader::relocation_places(r.data, be32(r.data, 28));
        lemma_relocated_heap(b1, base, of_a5, of_a5.len(), a5);
        let b2 = crate::loader::relocated(b1, base, of_a5, of_a5.len(), a5);
        lemma_relocated_heap(b2, base, of_pc, of_pc.len(), base);
        let l = LoadState {
            bus: crate::loader::far_relocated(b1, r.data, base, a5),
            table: s.table,
            bases: s.bases.insert(r.id, base),
            next: less4(base.wrapping_add(size).wrapping_add(7)),
        };
        lemma_pointed_heap(l, r.id, base, table, s.table.len());
    }
}

} // verus!
