use std::collections::HashMap;

use vstd::prelude::*;

use crate::memory::{group_memory_lengths, BusView, MacMemoryBus};
use crate::resource::{be32, four_char, Resource, ResourceFork, ResourceView};

verus! {

broadcast use group_memory_lengths;

/// A resource in guest memory.
#[derive(Clone, Copy, Debug, PartialEq, Eq)]
pub struct LoadedResource {
    pub res_type: u32,
    pub id: i16,
    pub handle: u32,
    pub ptr: u32,
    pub size: u32,
}

/// The state of the Resource Manager, the Segment Loader and the handles that
/// the system has made.
pub struct ResourceManager {
    pub loaded: Vec<LoadedResource>,
    /// Segment numbers and where the segments are.
    pub segments: HashMap<i16, u32>,
    /// Blocks and their handles.
    pub handles: Vec<(u32, u32)>,
}

/// That state as a mathematical value.
pub struct ResourceTable {
    pub loaded: Seq<LoadedResource>,
    pub segments: Map<i16, u32>,
    pub handles: Seq<(u32, u32)>,
}

/// The first loaded resource of some type and number, from position `from` on.
pub open spec fn loaded_at(rs: Seq<LoadedResource>, res_type: u32, id: i16, from: int) -> Option<int>
    decreases rs.len() - from,
{
    if from < 0 || from >= rs.len() {
        None
    } else if rs[from].res_type == res_type && rs[from].id == id {
        Some(from)
    } else {
        loaded_at(rs, res_type, id, from + 1)
    }
}

/// Memory with a block of `bytes` on the heap and a handle to it: the handle,
/// the block, and the heap after it. Without bytes there is no block; without
/// room there is no handle.
#[verifier::opaque]
pub open spec fn handle_made(b: BusView, bytes: Seq<u8>) -> (u32, u32, BusView) {
    let (ptr, b1) = if bytes.len() == 0 {
        (0u32, b)
    } else {
        let (p, heap) = b.allocated(bytes.len() as u32);
        if p == 0 {
            (0u32, heap)
        } else {
            (p, heap.bytes(p, bytes))
        }
    };
    if ptr == 0 && bytes.len() > 0 {
        (0, 0, b1)
    } else {
        let (handle, b2) = b1.allocated(4);
        if handle == 0 {
            (0, 0, if ptr == 0 { b2 } else { b2.freed(ptr) })
        } else {
            (handle, ptr, b2.long(handle, ptr))
        }
    }
}

/// Makes a handle to a block of `bytes`.
pub fn make_handle(bus: &mut MacMemoryBus, bytes: &[u8]) -> (r: (u32, u32))
    requires
        bytes@.len() <= u32::MAX,
    ensures
        (r.0, r.1, final(bus)@) == handle_made(old(bus)@, bytes@),
        old(bus).probe_wf() ==> final(bus).probe_wf(),
        final(bus)@.mem.len() == old(bus)@.mem.len(),
{
    proof {
        reveal(handle_made);
    }
    let mut ptr: u32 = 0;
    if bytes.len() > 0 {
        ptr = bus.allocate(bytes.len() as u32);
        if ptr == 0 {
            return (0, 0);
        }
        bus.write_bytes(ptr, bytes);
    }
    let handle: u32 = bus.allocate(4);
    if handle == 0 {
        if ptr != 0 {
            bus.free(ptr);
        }
        return (0, 0);
    }
    bus.write_long(handle, ptr);
    (handle, ptr)
}

impl ResourceTable {
    /// The state with a handle to a block of `bytes`, and that handle.
    pub open spec fn with_system_handle(self, b: BusView, bytes: Seq<u8>) -> (ResourceTable, BusView, u32) {
        let (handle, ptr, b2) = handle_made(b, bytes);
        (
            if ptr != 0 {
                ResourceTable { handles: self.handles.push((ptr, handle)), ..self }
            } else {
                self
            },
            b2,
            handle,
        )
    }

    /// The state with resource `r` in memory; without room it stays out.
    pub open spec fn with_resource(self, b: BusView, r: ResourceView) -> (ResourceTable, BusView) {
        let (handle, ptr, b2) = handle_made(b, r.data);
        if handle == 0 {
            (self, b2)
        } else {
            (
                ResourceTable {
                    loaded: self.loaded.push(
                        LoadedResource { res_type: r.res_type, id: r.id, handle, ptr, size: r.data.len() as u32 },
                    ),
                    ..self
                },
                b2,
            )
        }
    }

    /// The state with the first `n` resources in memory.
    pub open spec fn with_resources(self, b: BusView, rs: Seq<ResourceView>, n: nat) -> (ResourceTable, BusView)
        decreases n,
    {
        if n == 0 {
            (self, b)
        } else {
            let (t, b2) = self.with_resources(b, rs, (n - 1) as nat);
            t.with_resource(b2, rs[n - 1])
        }
    }

    /// The state with those of the first `n` resources in memory that are not
    /// there yet, and how many they are.
    pub open spec fn merged(self, b: BusView, rs: Seq<ResourceView>, n: nat) -> (ResourceTable, BusView, nat)
        decreases n,
    {
        if n == 0 {
            (self, b, 0)
        } else {
            let (t, b2, k) = self.merged(b, rs, (n - 1) as nat);
            let r = rs[n - 1];
            if loaded_at(t.loaded, r.res_type, r.id, 0) is Some {
                (t, b2, k)
            } else {
                let (t3, b3) = t.with_resource(b2, r);
                (t3, b3, k + 1)
            }
        }
    }
}

impl ResourceManager {
    pub closed spec fn view(&self) -> ResourceTable {
        ResourceTable { loaded: self.loaded@, segments: self.segments@, handles: self.handles@ }
    }

    /// Nothing loaded.
    pub fn new() -> (r: Self)
        ensures
            r@ == fresh_resources(),
    {
        ResourceManager { loaded: Vec::new(), segments: HashMap::new(), handles: Vec::new() }
    }

    fn find_loaded(&self, res_type: u32, id: i16) -> (r: Option<usize>)
        ensures
            r is None ==> loaded_at(self@.loaded, res_type, id, 0) is None,
            r matches Some(i) ==> i < self@.loaded.len() && loaded_at(self@.loaded, res_type, id, 0) == Some(i as int),
    {
        let mut i: usize = 0;
        while i < self.loaded.len()
            invariant
                i <= self.loaded.len(),
                loaded_at(self@.loaded, res_type, id, 0) == loaded_at(self@.loaded, res_type, id, i as int),
            decreases self.loaded.len() - i,
        {
            if self.loaded[i].res_type == res_type && self.loaded[i].id == id {
                return Some(i);
            }
            i += 1;
        }
        None
    }

    /// The handle and the data of a loaded resource.
    pub fn find_resource_any(&self, res_type: [u8; 4], id: i16) -> (r: Option<(u32, u32)>)
        ensures
            r == match loaded_at(self@.loaded, be32(res_type@, 0), id, 0) {
                Some(i) => Some((self@.loaded[i].handle, self@.loaded[i].ptr)),
                None => None,
            },
    {
        match self.find_loaded(four_char(res_type), id) {
            Some(i) => Some((self.loaded[i].handle, self.loaded[i].ptr)),
            None => None,
        }
    }

    fn load_resource(&mut self, bus: &mut MacMemoryBus, r: &Resource)
        requires
            r.data@.len() <= u32::MAX,
        ensures
            (final(self)@, final(bus)@) == old(self)@.with_resource(old(bus)@, r@),
            old(bus).probe_wf() ==> final(bus).probe_wf(),
            final(bus)@.mem.len() == old(bus)@.mem.len(),
    {
        let (handle, ptr): (u32, u32) = make_handle(bus, r.data.as_slice());
        if handle != 0 {
            self.loaded.push(
                LoadedResource { res_type: r.res_type, id: r.id, handle, ptr, size: r.data.len() as u32 },
            );
        }
    }

    /// Loads every resource of a fork.
    pub fn load_resources(&mut self, bus: &mut MacMemoryBus, fork: &ResourceFork)
        requires
            forall|k: int| 0 <= k < fork@.len() ==> (#[trigger] fork@[k]).data.len() <= u32::MAX,
        ensures
            (final(self)@, final(bus)@) == old(self)@.with_resources(old(bus)@, fork@, fork@.len()),
            old(bus).probe_wf() ==> final(bus).probe_wf(),
            final(bus)@.mem.len() == old(bus)@.mem.len(),
    {
        let mut i: usize = 0;
        while i < fork.resources.len()
            invariant
                i <= fork.resources.len(),
                forall|k: int| 0 <= k < fork@.len() ==> (#[trigger] fork@[k]).data.len() <= u32::MAX,
                (self@, bus@) == old(self)@.with_resources(old(bus)@, fork@, i as nat),
                old(bus).probe_wf() ==> bus.probe_wf(),
                bus@.mem.len() == old(bus)@.mem.len(),
            decreases fork.resources.len() - i,
        {
            assert(fork@[i as int] == fork.resources@[i as int]@);
            self.load_resource(bus, &fork.resources[i]);
            i += 1;
        }
    }

    /// Loads the resources of a fork that are not there yet, and counts them.
    pub fn merge_resources(&mut self, bus: &mut MacMemoryBus, fork: &ResourceFork) -> (r: usize)
        requires
            forall|k: int| 0 <= k < fork@.len() ==> (#[trigger] fork@[k]).data.len() <= u32::MAX,
        ensures
            (final(self)@, final(bus)@, r as nat) == old(self)@.merged(old(bus)@, fork@, fork@.len()),
            old(bus).probe_wf() ==> final(bus).probe_wf(),
            final(bus)@.mem.len() == old(bus)@.mem.len(),
    {
        let mut i: usize = 0;
        let mut count: usize = 0;
        while i < fork.resources.len()
            invariant
                i <= fork.resources.len(),
                count <= i,
                forall|k: int| 0 <= k < fork@.len() ==> (#[trigger] fork@[k]).data.len() <= u32::MAX,
                (self@, bus@, count as nat) == old(self)@.merged(old(bus)@, fork@, i as nat),
                old(bus).probe_wf() ==> bus.probe_wf(),
                bus@.mem.len() == old(bus)@.mem.len(),
            decreases fork.resources.len() - i,
        {
            let r: &Resource = &fork.resources[i];
            assert(fork@[i as int] == r@);
            if self.find_loaded(r.res_type, r.id).is_none() {
                self.load_resource(bus, r);
                count += 1;
            }
            i += 1;
        }
        count
    }

    /// Makes a handle to a block of `bytes` for the system, and notes it.
    pub fn new_system_handle(&mut self, bus: &mut MacMemoryBus, bytes: &[u8]) -> (r: u32)
        requires
            bytes@.len() <= u32::MAX,
        ensures
            (final(self)@, final(bus)@, r) == old(self)@.with_system_handle(old(bus)@, bytes@),
            old(bus).probe_wf() ==> final(bus).probe_wf(),
            final(bus)@.mem.len() == old(bus)@.mem.len(),
    {
        let (handle, ptr): (u32, u32) = make_handle(bus, bytes);
        if ptr != 0 {
            self.handles.push((ptr, handle));
        }
        handle
    }

    /// Notes where the segments are.
    pub fn register_segments(&mut self, segments: &HashMap<i16, u32>)
        ensures
            final(self)@ == (ResourceTable { segments: segments@, ..old(self)@ }),
    {
        self.segments = segments.clone();
    }
}

/// Nothing loaded.
pub open spec fn fresh_resources() -> ResourceTable {
    ResourceTable { loaded: Seq::empty(), segments: Map::empty(), handles: Seq::empty() }
}

} // verus!
