//! The complete simulated hardware state: the address map with its RAM
//! contents and devices, plus the output relay that collects the bytes
//! devices transmit. Owned exclusively by the simulation loop.

use crate::bus::{Bus, BusError, TX_REG_OFFSET};
use crate::relay::OutputRelay;
use vstd::prelude::*;

verus! {

/// Bus, attached devices' state, and the relay of transmitted bytes.
pub struct Machine {
    pub bus: Bus,
    pub out: OutputRelay,
}

impl Machine {
    /// Both components are well formed.
    pub open spec fn wf(self) -> bool {
        self.bus.wf() && self.out.wf()
    }

    /// `other` differs from `self` at most in RAM contents, relay queue and
    /// drop count: the address map and the relay bound are kept.
    pub open spec fn same_shape(self, other: Machine) -> bool {
        self.bus.same_mappings(other.bus) && other.out.capacity == self.out.capacity
    }

    /// A write to `addr` is a device transmit: it hits the transmit register
    /// of the covering device (and no RAM is mapped there).
    pub open spec fn is_tx_write(self, addr: u64) -> bool {
        &&& !self.bus.some_ram_at(addr)
        &&& self.bus.some_device_at(addr)
        &&& addr - self.bus.devices@[self.bus.device_idx_at(addr)].base == TX_REG_OFFSET
    }

    /// A machine over `bus` with an empty output relay bounded by
    /// `relay_capacity`.
    pub fn new(bus: Bus, relay_capacity: usize) -> (m: Machine)
        requires
            bus.wf(),
        ensures
            m.wf(),
            m.bus == bus,
            m.out.queue@ =~= Seq::<u8>::empty(),
            m.out.capacity == relay_capacity,
            m.out.dropped == 0,
    {
        Machine { bus, out: OutputRelay::new(relay_capacity) }
    }

    /// Read one byte through the bus.
    pub fn read(&self, addr: u64) -> (r: Result<u8, BusError>)
        requires
            self.wf(),
        ensures
            r == self.bus.read_result(addr),
    {
        self.bus.read(addr)
    }

    /// Write one byte through the bus. A byte written to a device's transmit
    /// register is appended to the output relay, exactly once and in write
    /// order (or dropped and counted if the relay is full).
    pub fn write(&mut self, addr: u64, val: u8) -> (r: Result<(), BusError>)
        requires
            old(self).wf(),
        ensures
            final(self).wf(),
            old(self).same_shape(*final(self)),
            old(self).bus.some_ram_at(addr) ==> {
                &&& r == Ok::<(), BusError>(())
                &&& final(self).bus.mem_at(addr) == Some(val)
                &&& forall|a: u64| a != addr ==> final(self).bus.mem_at(a) == old(self).bus.mem_at(a)
                &&& final(self).out == old(self).out
            },
            !old(self).bus.some_ram_at(addr) && old(self).bus.some_device_at(addr) ==> {
                &&& r == Ok::<(), BusError>(())
                &&& final(self).bus == old(self).bus
                &&& old(self).is_tx_write(addr) ==> final(self).out.queue@
                    == OutputRelay::push_result(
                    old(self).out.queue@,
                    old(self).out.capacity as nat,
                    val,
                )
                &&& old(self).is_tx_write(addr) ==> final(self).out.dropped == (if old(self).out.queue@.len() < old(self).out.capacity {
                    old(self).out.dropped
                } else if old(self).out.dropped == u64::MAX {
                    u64::MAX
                } else {
                    (old(self).out.dropped + 1) as u64
                })
                &&& !old(self).is_tx_write(addr) ==> final(self).out == old(self).out
            },
            !old(self).bus.some_ram_at(addr) && !old(self).bus.some_device_at(addr) ==> {
                &&& r == Err::<(), BusError>(BusError::BusFault)
                &&& final(self).bus == old(self).bus
                &&& final(self).out == old(self).out
            },
    {
        match self.bus.write(addr, val) {
            Ok(Some(tx_byte)) => {
                let _ = self.out.push_byte(tx_byte);
                Ok(())
            },
            Ok(None) => Ok(()),
            Err(e) => Err(e),
        }
    }

    /// Copy `image` into the single RAM region covering it, as the bus's load
    /// path does; the output relay is untouched.
    pub fn load_image(&mut self, addr: u64, image: &[u8]) -> (r: Result<(), BusError>)
        requires
            old(self).wf(),
        ensures
            final(self).wf(),
            final(self).out == old(self).out,
            !old(self).bus.ram_covering(addr, image@.len()) ==> r == Err::<(), BusError>(
                BusError::OutOfBounds,
            ) && final(self).bus == old(self).bus,
            old(self).bus.ram_covering(addr, image@.len()) ==> {
                &&& r == Ok::<(), BusError>(())
                &&& old(self).bus.same_mappings(final(self).bus)
                &&& forall|a: u64|
                    addr <= a < addr + image@.len() ==> final(self).bus.mem_at(a) == Some(
                        image@[a - addr],
                    )
                &&& forall|a: u64|
                    !(addr <= a < addr + image@.len()) ==> final(self).bus.mem_at(a) == old(self).bus.mem_at(a)
            },
    {
        self.bus.load_image(addr, image)
    }

    /// Non-blocking poll of the oldest transmitted byte.
    pub fn poll_output(&mut self) -> (r: Option<u8>)
        requires
            old(self).wf(),
        ensures
            final(self).wf(),
            final(self).bus == old(self).bus,
            final(self).out.capacity == old(self).out.capacity,
            final(self).out.dropped == old(self).out.dropped,
            old(self).out.queue@.len() == 0 ==> r == None::<u8> && final(self).out.queue@ == old(self).out.queue@,
            old(self).out.queue@.len() > 0 ==> r == Some(old(self).out.queue@[0]) && final(self).out.queue@ == old(self).out.queue@.skip(1),
    {
        self.out.poll_output()
    }
}

} // verus!
