//! Address-space dispatcher: maps address ranges to RAM regions or peripheral
//! devices, with pairwise non-overlapping mappings, and resolves reads,
//! writes and image loads to the covering mapping.

use vstd::prelude::*;

verus! {

/// Errors raised by the address-space dispatcher.
#[derive(Clone, Copy, PartialEq, Eq, Structural, Debug)]
pub enum BusError {
    /// A new mapping would intersect an already attached mapping (attach time).
    Overlap,
    /// A new mapping has a zero or unrepresentable size (attach time).
    Size,
    /// An image load is not fully covered by a single RAM mapping.
    OutOfBounds,
    /// An access hit an address with no covering mapping during execution.
    BusFault,
}

/// A RAM region: `data` backs the address window `[base, base + data.len())`.
pub struct Ram {
    pub base: u64,
    pub data: Vec<u8>,
}

/// A peripheral occupying the address window `[base, base + size)`.
///
/// The device models a UART-like peripheral: a write to the register at
/// window offset [`TX_REG_OFFSET`] is a transmit request carrying the written
/// byte; writes to other offsets are accepted and ignored; reads of any
/// device register return 0.
pub struct Device {
    /// Name of the peripheral unit.
    pub name: String,
    pub base: u64,
    pub size: u64,
}

/// Window offset of a device's transmit register.
pub const TX_REG_OFFSET: u64 = 0;

/// Half-open ranges `[b1, b1 + s1)` and `[b2, b2 + s2)` intersect.
pub open spec fn ranges_overlap(b1: u64, s1: u64, b2: u64, s2: u64) -> bool {
    b1 < b2 + s2 && b2 < b1 + s1
}

/// A mapping size is acceptable: non-zero, the window stays within the
/// 64-bit address space, and a backing buffer of that size is representable.
pub open spec fn size_ok(base: u64, size: u64) -> bool {
    &&& size > 0
    &&& base + size <= 0x1_0000_0000_0000_0000
    &&& size <= usize::MAX as u64
}

impl Ram {
    /// The region is well formed.
    pub open spec fn wf(self) -> bool {
        size_ok(self.base, self.data.len() as u64)
    }

    /// The region's window contains address `a`.
    pub open spec fn contains(self, a: u64) -> bool {
        self.base <= a < self.base + self.data.len()
    }

    /// The region's window fully covers `[addr, addr + len)`.
    pub open spec fn covers(self, addr: u64, len: nat) -> bool {
        self.base <= addr && addr + len <= self.base + self.data.len()
    }
}

impl Device {
    /// The device window is well formed.
    pub open spec fn wf(self) -> bool {
        size_ok(self.base, self.size)
    }

    /// The device's window contains address `a`.
    pub open spec fn contains(self, a: u64) -> bool {
        self.base <= a < self.base + self.size
    }
}

/// The address-space dispatcher.
pub struct Bus {
    pub rams: Vec<Ram>,
    pub devices: Vec<Device>,
}

impl Bus {
    /// Every mapping is well formed and the mappings are pairwise disjoint.
    pub open spec fn wf(self) -> bool {
        &&& forall|i: int| 0 <= i < self.rams@.len() ==> (#[trigger] self.rams@[i]).wf()
        &&& forall|i: int| 0 <= i < self.devices@.len() ==> (#[trigger] self.devices@[i]).wf()
        &&& forall|i: int, j: int|
            0 <= i < self.rams@.len() && 0 <= j < self.rams@.len() && i != j ==> !ranges_overlap(
                (#[trigger] self.rams@[i]).base,
                self.rams@[i].data.len() as u64,
                (#[trigger] self.rams@[j]).base,
                self.rams@[j].data.len() as u64,
            )
        &&& forall|i: int, j: int|
            0 <= i < self.devices@.len() && 0 <= j < self.devices@.len() && i != j
                ==> !ranges_overlap(
                (#[trigger] self.devices@[i]).base,
                self.devices@[i].size,
                (#[trigger] self.devices@[j]).base,
                self.devices@[j].size,
            )
        &&& forall|i: int, j: int|
            0 <= i < self.rams@.len() && 0 <= j < self.devices@.len() ==> !ranges_overlap(
                (#[trigger] self.rams@[i]).base,
                self.rams@[i].data.len() as u64,
                (#[trigger] self.devices@[j]).base,
                self.devices@[j].size,
            )
    }

    /// The range `[base, base + size)` intersects an attached mapping.
    pub open spec fn conflicts(self, base: u64, size: u64) -> bool {
        ||| exists|i: int|
            0 <= i < self.rams@.len() && ranges_overlap(
                base,
                size,
                (#[trigger] self.rams@[i]).base,
                self.rams@[i].data.len() as u64,
            )
        ||| exists|i: int|
            0 <= i < self.devices@.len() && ranges_overlap(
                base,
                size,
                (#[trigger] self.devices@[i]).base,
                self.devices@[i].size,
            )
    }

    /// Some RAM region contains address `a`.
    pub open spec fn some_ram_at(self, a: u64) -> bool {
        exists|i: int| 0 <= i < self.rams@.len() && (#[trigger] self.rams@[i]).contains(a)
    }

    /// Index of the RAM region containing `a` (unique on a well-formed bus).
    pub open spec fn ram_idx_at(self, a: u64) -> int {
        choose|i: int| 0 <= i < self.rams@.len() && (#[trigger] self.rams@[i]).contains(a)
    }

    /// Some device window contains address `a`.
    pub open spec fn some_device_at(self, a: u64) -> bool {
        exists|i: int| 0 <= i < self.devices@.len() && (#[trigger] self.devices@[i]).contains(a)
    }

    /// Index of the device whose window contains `a` (unique on a well-formed bus).
    pub open spec fn device_idx_at(self, a: u64) -> int {
        choose|i: int| 0 <= i < self.devices@.len() && (#[trigger] self.devices@[i]).contains(a)
    }

    /// The byte RAM holds at address `a`, if RAM is mapped there.
    pub open spec fn mem_at(self, a: u64) -> Option<u8> {
        if self.some_ram_at(a) {
            let r = self.rams@[self.ram_idx_at(a)];
            Some(r.data@[a - r.base])
        } else {
            None
        }
    }

    /// What resolving a read of address `a` yields: the RAM byte where RAM is
    /// mapped, 0 from a device register, and a bus fault elsewhere.
    pub open spec fn read_result(self, a: u64) -> Result<u8, BusError> {
        if self.some_ram_at(a) {
            Ok(self.mem_at(a).unwrap())
        } else if self.some_device_at(a) {
            Ok(0u8)
        } else {
            Err(BusError::BusFault)
        }
    }

    /// Some single RAM region fully covers `[addr, addr + len)`.
    pub open spec fn ram_covering(self, addr: u64, len: nat) -> bool {
        exists|i: int| 0 <= i < self.rams@.len() && (#[trigger] self.rams@[i]).covers(addr, len)
    }

    /// `other` has the same address map as `self`: the same RAM windows
    /// (contents may differ) and the same devices.
    pub open spec fn same_mappings(self, other: Bus) -> bool {
        &&& other.rams@.len() == self.rams@.len()
        &&& forall|i: int|
            0 <= i < self.rams@.len() ==> (#[trigger] other.rams@[i]).base == self.rams@[i].base
                && other.rams@[i].data@.len() == self.rams@[i].data@.len()
        &&& other.devices@ == self.devices@
    }

    /// On a well-formed bus, at most one RAM region contains any address.
    proof fn lemma_ram_at_unique(self, a: u64)
        requires
            self.wf(),
        ensures
            forall|i: int, j: int|
                0 <= i < self.rams@.len() && 0 <= j < self.rams@.len() && (#[trigger] self.rams@[i]).contains(a) && (#[trigger] self.rams@[j]).contains(a) ==> i == j,
    {
    }

    /// On a well-formed bus, at most one device window contains any address.
    proof fn lemma_device_at_unique(self, a: u64)
        requires
            self.wf(),
        ensures
            forall|i: int, j: int|
                0 <= i < self.devices@.len() && 0 <= j < self.devices@.len()
                    && (#[trigger] self.devices@[i]).contains(a) && (#[trigger] self.devices@[j]).contains(a) ==> i == j,
    {
    }

    /// An empty address map.
    pub fn new() -> (b: Bus)
        ensures
            b.wf(),
            b.rams@ =~= Seq::<Ram>::empty(),
            b.devices@ =~= Seq::<Device>::empty(),
    {
        Bus { rams: Vec::new(), devices: Vec::new() }
    }

    /// The range `[base, base + size)` intersects some attached mapping.
    fn overlaps_existing(&self, base: u64, size: u64) -> (r: bool)
        ensures
            r == self.conflicts(base, size),
    {
        let mut i: usize = 0;
        while i < self.rams.len()
            invariant
                i <= self.rams@.len(),
                forall|k: int|
                    0 <= k < i ==> !ranges_overlap(
                        base,
                        size,
                        (#[trigger] self.rams@[k]).base,
                        self.rams@[k].data.len() as u64,
                    ),
            decreases self.rams@.len() - i,
        {
            let r = &self.rams[i];
            if (base as u128) < (r.base as u128) + (r.data.len() as u128)
                && (r.base as u128) < (base as u128) + (size as u128) {
                return true;
            }
            i = i + 1;
        }
        let mut j: usize = 0;
        while j < self.devices.len()
            invariant
                j <= self.devices@.len(),
                forall|k: int|
                    0 <= k < self.rams@.len() ==> !ranges_overlap(
                        base,
                        size,
                        (#[trigger] self.rams@[k]).base,
                        self.rams@[k].data.len() as u64,
                    ),
                forall|k: int|
                    0 <= k < j ==> !ranges_overlap(
                        base,
                        size,
                        (#[trigger] self.devices@[k]).base,
                        self.devices@[k].size,
                    ),
            decreases self.devices@.len() - j,
        {
            let d = &self.devices[j];
            if (base as u128) < (d.base as u128) + (d.size as u128)
                && (d.base as u128) < (base as u128) + (size as u128) {
                return true;
            }
            j = j + 1;
        }
        false
    }

    /// Attach a RAM region at `[base, base + size)`, initially zero-filled.
    ///
    /// Rejects a zero or unrepresentable size with `Size` and an intersecting
    /// range with `Overlap`; on either error the address map is unchanged.
    pub fn attach_ram(&mut self, base: u64, size: u64) -> (r: Result<(), BusError>)
        requires
            old(self).wf(),
        ensures
            final(self).wf(),
            !size_ok(base, size) ==> r == Err::<(), BusError>(BusError::Size) && *final(self)
                == *old(self),
            size_ok(base, size) && old(self).conflicts(base, size) ==> r == Err::<(), BusError>(
                BusError::Overlap,
            ) && *final(self) == *old(self),
            size_ok(base, size) && !old(self).conflicts(base, size) ==> {
                &&& r == Ok::<(), BusError>(())
                &&& final(self).devices@ == old(self).devices@
                &&& final(self).rams@.len() == old(self).rams@.len() + 1
                &&& final(self).rams@.drop_last() == old(self).rams@
                &&& final(self).rams@.last().base == base
                &&& final(self).rams@.last().data@ == Seq::new(size as nat, |k: int| 0u8)
            },
    {
        if size == 0 {
            return Err(BusError::Size);
        }
        if size - 1 > u64::MAX - base {
            return Err(BusError::Size);
        }
        if (size as u128) > (usize::MAX as u128) {
            return Err(BusError::Size);
        }
        if self.overlaps_existing(base, size) {
            return Err(BusError::Overlap);
        }
        let data = vec![0u8; size as usize];
        self.rams.push(Ram { base, data });
        proof {
            assert(self.rams@.drop_last() =~= old(self).rams@);
        }
        Ok(())
    }

    /// Attach a device window at `[base, base + size)`.
    ///
    /// Rejects a zero or unrepresentable size with `Size` and an intersecting
    /// range with `Overlap`; on either error the address map is unchanged.
    pub fn attach_device(&mut self, name: String, base: u64, size: u64) -> (r: Result<
        (),
        BusError,
    >)
        requires
            old(self).wf(),
        ensures
            final(self).wf(),
            !size_ok(base, size) ==> r == Err::<(), BusError>(BusError::Size) && *final(self)
                == *old(self),
            size_ok(base, size) && old(self).conflicts(base, size) ==> r == Err::<(), BusError>(
                BusError::Overlap,
            ) && *final(self) == *old(self),
            size_ok(base, size) && !old(self).conflicts(base, size) ==> {
                &&& r == Ok::<(), BusError>(())
                &&& final(self).rams@ == old(self).rams@
                &&& final(self).devices@.len() == old(self).devices@.len() + 1
                &&& final(self).devices@.drop_last() == old(self).devices@
                &&& final(self).devices@.last().name == name
                &&& final(self).devices@.last().base == base
                &&& final(self).devices@.last().size == size
            },
    {
        if size == 0 {
            return Err(BusError::Size);
        }
        if size - 1 > u64::MAX - base {
            return Err(BusError::Size);
        }
        if (size as u128) > (usize::MAX as u128) {
            return Err(BusError::Size);
        }
        if self.overlaps_existing(base, size) {
            return Err(BusError::Overlap);
        }
        self.devices.push(Device { name, base, size });
        proof {
            assert(self.devices@.drop_last() =~= old(self).devices@);
        }
        Ok(())
    }

    /// A bus with the same address map as a well-formed bus is well formed.
    proof fn lemma_wf_same_mappings(pre: Bus, post: Bus)
        requires
            pre.wf(),
            pre.same_mappings(post),
        ensures
            post.wf(),
    {
        assert forall|i: int| 0 <= i < post.rams@.len() implies (#[trigger] post.rams@[i]).wf() by {
            assert(pre.rams@[i].wf());
        }
        assert forall|i: int, j: int|
            0 <= i < post.rams@.len() && 0 <= j < post.rams@.len() && i != j implies !ranges_overlap(
            (#[trigger] post.rams@[i]).base,
            post.rams@[i].data.len() as u64,
            (#[trigger] post.rams@[j]).base,
            post.rams@[j].data.len() as u64,
        ) by {
            assert(!ranges_overlap(
                pre.rams@[i].base,
                pre.rams@[i].data.len() as u64,
                pre.rams@[j].base,
                pre.rams@[j].data.len() as u64,
            ));
        }
        assert forall|i: int, j: int|
            0 <= i < post.rams@.len() && 0 <= j < post.devices@.len() implies !ranges_overlap(
            (#[trigger] post.rams@[i]).base,
            post.rams@[i].data.len() as u64,
            (#[trigger] post.devices@[j]).base,
            post.devices@[j].size,
        ) by {
            assert(!ranges_overlap(
                pre.rams@[i].base,
                pre.rams@[i].data.len() as u64,
                pre.devices@[j].base,
                pre.devices@[j].size,
            ));
        }
    }

    /// After rewriting `bytes` into the RAM region `idx` starting at address
    /// `start`, memory reads back `bytes` over `[start, start + bytes.len())`
    /// and is unchanged at every other address.
    proof fn lemma_mem_after_ram_store(pre: Bus, post: Bus, idx: int, start: u64, bytes: Seq<u8>)
        requires
            pre.wf(),
            post.wf(),
            0 <= idx < pre.rams@.len(),
            pre.same_mappings(post),
            forall|k: int| 0 <= k < pre.rams@.len() && k != idx ==> post.rams@[k] == pre.rams@[k],
            pre.rams@[idx].covers(start, bytes.len()),
            forall|m: int|
                0 <= m < bytes.len() ==> post.rams@[idx].data@[start - pre.rams@[idx].base + m]
                    == bytes[m],
            forall|o: int|
                0 <= o < pre.rams@[idx].data@.len() && !(start - pre.rams@[idx].base <= o < start
                    - pre.rams@[idx].base + bytes.len()) ==> post.rams@[idx].data@[o]
                    == pre.rams@[idx].data@[o],
        ensures
            forall|a: u64|
                start <= a < start + bytes.len() ==> post.mem_at(a) == Some(bytes[a - start]),
            forall|a: u64| !(start <= a < start + bytes.len()) ==> post.mem_at(a) == pre.mem_at(a),
    {
        let base = pre.rams@[idx].base;
        assert forall|a: u64| start <= a < start + bytes.len() implies post.mem_at(a) == Some(
            bytes[a - start],
        ) by {
            assert(pre.rams@[idx].contains(a));
            assert(post.rams@[idx].contains(a));
            assert(post.some_ram_at(a));
            post.lemma_ram_at_unique(a);
            let j = post.ram_idx_at(a);
            assert(0 <= j < post.rams@.len() && post.rams@[j].contains(a));
            assert(j == idx);
            assert(post.rams@[idx].data@[start - base + (a - start)] == bytes[a - start]);
        }
        assert forall|a: u64| !(start <= a < start + bytes.len()) implies post.mem_at(a)
            == pre.mem_at(a) by {
            if pre.some_ram_at(a) {
                let i = pre.ram_idx_at(a);
                assert(0 <= i < pre.rams@.len() && pre.rams@[i].contains(a));
                assert(post.rams@[i].contains(a));
                assert(post.some_ram_at(a));
                let j = post.ram_idx_at(a);
                assert(0 <= j < post.rams@.len() && post.rams@[j].contains(a));
                assert(pre.rams@[j].contains(a));
                pre.lemma_ram_at_unique(a);
                assert(j == i);
                if i == idx {
                    assert(0 <= a - base < pre.rams@[idx].data@.len());
                    assert(post.rams@[idx].data@[a - base] == pre.rams@[idx].data@[a - base]);
                }
            } else {
                if post.some_ram_at(a) {
                    let j = post.ram_idx_at(a);
                    assert(0 <= j < post.rams@.len() && post.rams@[j].contains(a));
                    assert(pre.rams@[j].contains(a));
                    assert(false);
                }
            }
        }
    }

    /// Round trip: on a well-formed bus where a single RAM region covers
    /// `[addr, addr + bytes.len())` and memory holds `bytes` there — as it
    /// does after a successful `load_image` — reading any address of the
    /// range yields exactly the corresponding byte of `bytes`.
    pub proof fn lemma_round_trip(self, addr: u64, bytes: Seq<u8>)
        requires
            self.wf(),
            self.ram_covering(addr, bytes.len()),
            forall|a: u64|
                addr <= a < addr + bytes.len() ==> self.mem_at(a) == Some(bytes[a - addr]),
        ensures
            forall|a: u64|
                addr <= a < addr + bytes.len() ==> self.read_result(a) == Ok::<u8, BusError>(
                    bytes[a - addr],
                ),
    {
        assert forall|a: u64| addr <= a < addr + bytes.len() implies self.read_result(a) == Ok::<
            u8,
            BusError,
        >(bytes[a - addr]) by {
            let i = choose|i: int|
                0 <= i < self.rams@.len() && (#[trigger] self.rams@[i]).covers(addr, bytes.len());
            assert(self.rams@[i].contains(a));
            assert(self.some_ram_at(a));
        }
    }

    /// Index of the RAM region that fully covers `[addr, addr + len)`, if any.
    fn find_covering_ram(&self, addr: u64, len: usize) -> (found: Option<usize>)
        requires
            self.wf(),
        ensures
            match found {
                Some(j) => 0 <= j < self.rams@.len() && self.rams@[j as int].covers(
                    addr,
                    len as nat,
                ),
                None => !self.ram_covering(addr, len as nat),
            },
    {
        let mut i: usize = 0;
        while i < self.rams.len()
            invariant
                self.wf(),
                i <= self.rams@.len(),
                forall|k: int| 0 <= k < i ==> !(#[trigger] self.rams@[k]).covers(addr, len as nat),
            decreases self.rams@.len() - i,
        {
            let r = &self.rams[i];
            if r.base <= addr {
                let off = addr - r.base;
                if off <= r.data.len() as u64 && (len as u64) <= r.data.len() as u64 - off {
                    return Some(i);
                }
            }
            i = i + 1;
        }
        None
    }

    /// Index of the device whose window contains `addr`, if any.
    fn find_device_at(&self, addr: u64) -> (found: Option<usize>)
        requires
            self.wf(),
        ensures
            match found {
                Some(j) => 0 <= j < self.devices@.len() && self.devices@[j as int].contains(addr)
                    && self.device_idx_at(addr) == j as int,
                None => !self.some_device_at(addr),
            },
    {
        let mut i: usize = 0;
        while i < self.devices.len()
            invariant
                self.wf(),
                i <= self.devices@.len(),
                forall|k: int| 0 <= k < i ==> !(#[trigger] self.devices@[k]).contains(addr),
            decreases self.devices@.len() - i,
        {
            let d = &self.devices[i];
            if d.base <= addr && addr - d.base < d.size {
                proof {
                    assert(self.devices@[i as int].contains(addr));
                    self.lemma_device_at_unique(addr);
                }
                return Some(i);
            }
            i = i + 1;
        }
        None
    }

    /// Resolve a read of `addr` to the covering mapping: the RAM byte, 0 from
    /// a device register, or a bus fault where nothing is mapped.
    pub fn read(&self, addr: u64) -> (r: Result<u8, BusError>)
        requires
            self.wf(),
        ensures
            r == self.read_result(addr),
    {
        proof {
            assert forall|k: int| 0 <= k < self.rams@.len() implies ((#[trigger] self.rams@[k]).contains(addr) <==> self.rams@[k].covers(addr, 1)) by {}
        }
        match self.find_covering_ram(addr, 1) {
            Some(j) => {
                let r = &self.rams[j];
                let off = addr - r.base;
                proof {
                    assert(self.rams@[j as int].contains(addr));
                    assert(self.some_ram_at(addr));
                    self.lemma_ram_at_unique(addr);
                    let i = self.ram_idx_at(addr);
                    assert(0 <= i < self.rams@.len() && self.rams@[i].contains(addr));
                    assert(i == j as int);
                }
                Ok(self.rams[j].data[off as usize])
            },
            None => {
                assert(!self.some_ram_at(addr));
                match self.find_device_at(addr) {
                    Some(_) => Ok(0),
                    None => Err(BusError::BusFault),
                }
            },
        }
    }

    /// Dispatch a write of `val` to `addr`: store into RAM, or hand the byte
    /// to the covering device. Returns `Ok(Some(val))` exactly when the write
    /// hit a device's transmit register: the byte the device transmits.
    pub fn write(&mut self, addr: u64, val: u8) -> (r: Result<Option<u8>, BusError>)
        requires
            old(self).wf(),
        ensures
            final(self).wf(),
            old(self).same_mappings(*final(self)),
            old(self).some_ram_at(addr) ==> {
                &&& r == Ok::<Option<u8>, BusError>(None)
                &&& final(self).mem_at(addr) == Some(val)
                &&& forall|a: u64| a != addr ==> final(self).mem_at(a) == old(self).mem_at(a)
            },
            !old(self).some_ram_at(addr) && old(self).some_device_at(addr) ==> {
                &&& *final(self) == *old(self)
                &&& r == Ok::<Option<u8>, BusError>(
                    if addr - old(self).devices@[old(self).device_idx_at(addr)].base
                        == TX_REG_OFFSET {
                        Some(val)
                    } else {
                        None
                    },
                )
            },
            !old(self).some_ram_at(addr) && !old(self).some_device_at(addr) ==> {
                &&& *final(self) == *old(self)
                &&& r == Err::<Option<u8>, BusError>(BusError::BusFault)
            },
    {
        proof {
            assert forall|k: int| 0 <= k < self.rams@.len() implies ((#[trigger] self.rams@[k]).contains(addr) <==> self.rams@[k].covers(addr, 1)) by {}
        }
        match self.find_covering_ram(addr, 1) {
            Some(j) => {
                proof {
                    assert(old(self).rams@[j as int].contains(addr));
                    assert(old(self).some_ram_at(addr));
                }
                let mut ram = self.rams.remove(j);
                let off = (addr - ram.base) as usize;
                ram.data.set(off, val);
                self.rams.insert(j, ram);
                proof {
                    let pre = *old(self);
                    let post = *self;
                    assert(post.rams@ =~= pre.rams@.update(j as int, post.rams@[j as int]));
                    assert(pre.same_mappings(post));
                    Self::lemma_wf_same_mappings(pre, post);
                    assert(post.rams@[j as int].data@ =~= pre.rams@[j as int].data@.update(
                        addr - pre.rams@[j as int].base,
                        val,
                    ));
                    Self::lemma_mem_after_ram_store(pre, post, j as int, addr, seq![val]);
                    assert(post.mem_at(addr) == Some(seq![val][addr - addr]));
                }
                Ok(None)
            },
            None => {
                assert(!self.some_ram_at(addr));
                match self.find_device_at(addr) {
                    Some(j) => {
                        let d = &self.devices[j];
                        if addr - d.base == TX_REG_OFFSET {
                            Ok(Some(val))
                        } else {
                            Ok(None)
                        }
                    },
                    None => Err(BusError::BusFault),
                }
            },
        }
    }

    /// Copy `image` into the single RAM region covering
    /// `[addr, addr + image.len())`.
    ///
    /// Fails with `OutOfBounds`, leaving all memory content unchanged, unless
    /// one RAM mapping fully covers the range. On success the covered range
    /// reads back exactly as `image` and every other address is unchanged.
    pub fn load_image(&mut self, addr: u64, image: &[u8]) -> (r: Result<(), BusError>)
        requires
            old(self).wf(),
        ensures
            final(self).wf(),
            !old(self).ram_covering(addr, image@.len()) ==> r == Err::<(), BusError>(
                BusError::OutOfBounds,
            ) && *final(self) == *old(self),
            old(self).ram_covering(addr, image@.len()) ==> {
                &&& r == Ok::<(), BusError>(())
                &&& old(self).same_mappings(*final(self))
                &&& forall|a: u64|
                    addr <= a < addr + image@.len() ==> final(self).mem_at(a) == Some(
                        image@[a - addr],
                    )
                &&& forall|a: u64|
                    !(addr <= a < addr + image@.len()) ==> final(self).mem_at(a) == old(
                        self,
                    ).mem_at(a)
            },
    {
        let len = image.len();
        match self.find_covering_ram(addr, len) {
            None => Err(BusError::OutOfBounds),
            Some(j) => {
                proof {
                    assert(old(self).rams@[j as int].covers(addr, len as nat));
                    assert(old(self).ram_covering(addr, len as nat));
                }
                let mut ram = self.rams.remove(j);
                let ghost ram0 = ram;
                let off = (addr - ram.base) as usize;
                let dlen = ram.data.len();
                let mut k: usize = 0;
                while k < len
                    invariant
                        k <= len,
                        len == image@.len(),
                        ram.base == ram0.base,
                        ram.data@.len() == ram0.data@.len(),
                        dlen == ram.data@.len(),
                        off == addr - ram0.base,
                        off + len <= dlen,
                        forall|m: int| 0 <= m < k ==> ram.data@[off + m] == image@[m],
                        forall|o: int|
                            0 <= o < ram.data@.len() && !(off <= o < off + k) ==> ram.data@[o]
                                == ram0.data@[o],
                    decreases len - k,
                {
                    let b = image[k];
                    ram.data.set(off + k, b);
                    k = k + 1;
                }
                self.rams.insert(j, ram);
                proof {
                    let pre = *old(self);
                    let post = *self;
                    assert(post.rams@ =~= pre.rams@.update(j as int, post.rams@[j as int]));
                    assert(pre.same_mappings(post));
                    Self::lemma_wf_same_mappings(pre, post);
                    Self::lemma_mem_after_ram_store(pre, post, j as int, addr, image@);
                }
                Ok(())
            },
        }
    }
}

} // verus!

