//! The physical bus that the processor reads descriptors from and writes them to.

use std::collections::HashMap;

use vstd::prelude::*;

use crate::util::bytes::{long_byte0, long_byte1, long_byte2, long_byte3, long_from_bytes};

verus! {

broadcast use vstd::std_specs::hash::group_hash_axioms;

/// Contents of a group 0 exception frame.
#[derive(Debug, Clone, Copy, PartialEq, Eq, Structural)]
pub struct Group0Details {
    pub function_code: u8,
    pub ir: u16,
    pub instruction: bool,
    pub read: bool,
    pub address: u32,
    pub start_pc: u32,
    pub size: usize,
}

/// A physical access that the bus did not complete.
#[derive(Debug, Clone, PartialEq, Eq)]
pub struct AccessError {
    pub message: String,
    /// The exception frame, when the access ended in a bus error.
    pub bus_error: Option<Group0Details>,
}

/// The value of an [`AccessError`].
#[verifier::ext_equal]
pub ghost struct AccessErrorModel {
    pub message: Seq<char>,
    pub bus_error: Option<Group0Details>,
}

impl View for AccessError {
    type V = AccessErrorModel;

    open spec fn view(&self) -> AccessErrorModel {
        AccessErrorModel { message: self.message@, bus_error: self.bus_error }
    }
}

/// The value of a read's outcome.
pub open spec fn read_outcome(result: Result<u32, AccessError>) -> Result<u32, AccessErrorModel> {
    match result {
        Ok(word) => Ok(word),
        Err(error) => Err(error@),
    }
}

/// The value of a write's outcome.
pub open spec fn write_outcome(result: Result<(), AccessError>) -> Result<(), AccessErrorModel> {
    match result {
        Ok(()) => Ok(()),
        Err(error) => Err(error@),
    }
}

/// A machine's physical address space. Timed accesses run the devices; inspection never does.
pub trait Bus: Sized {
    /// What the machine behind the bus is, as far as accesses can observe or change it.
    type Model;

    spec fn model(&self) -> Self::Model;

    /// The outcome of a timed long word read, and the machine after it.
    spec fn long_read(machine: Self::Model, address: u32) -> (
        Result<u32, AccessErrorModel>,
        Self::Model,
    );

    /// The outcome of a timed long word write, and the machine after it.
    spec fn long_written(machine: Self::Model, address: u32, value: u32) -> (
        Result<(), AccessErrorModel>,
        Self::Model,
    );

    /// The byte that inspection sees, if the address can be inspected.
    spec fn byte_inspected(machine: Self::Model, address: u32) -> Option<u8>;

    /// The cycle counter.
    spec fn clock(machine: Self::Model) -> u64;

    fn read_ticks_physical(&mut self, address: u32) -> (result: Result<u32, AccessError>)
        ensures
            read_outcome(result) == Self::long_read(old(self).model(), address).0,
            final(self).model() == Self::long_read(old(self).model(), address).1,
    ;

    fn write_ticks_physical(&mut self, address: u32, value: u32) -> (result: Result<
        (),
        AccessError,
    >)
        ensures
            write_outcome(result) == Self::long_written(old(self).model(), address, value).0,
            final(self).model() == Self::long_written(old(self).model(), address, value).1,
    ;

    fn inspect_read(&self, address: u32) -> (byte: Option<u8>)
        ensures
            byte == Self::byte_inspected(self.model(), address),
    ;

    fn cycles(&self) -> (cycles: u64)
        ensures
            cycles == Self::clock(self.model()),
    ;
}

/// Untimed byte memory without devices. A byte that was never written is a hole: execution
/// reads it as zero, inspection does not see it.
pub struct SparseBus {
    pub mem: HashMap<u32, u8>,
    pub cycles: u64,
}

/// The value of a [`SparseBus`].
#[verifier::ext_equal]
pub ghost struct SparseModel {
    pub mem: Map<u32, u8>,
    pub cycles: u64,
}

/// The byte that execution reads.
pub open spec fn sparse_byte(mem: Map<u32, u8>, address: u32) -> u8 {
    if mem.contains_key(address) {
        mem[address]
    } else {
        0
    }
}

/// The long word that execution reads.
pub open spec fn sparse_long(mem: Map<u32, u8>, address: u32) -> u32 {
    long_from_bytes(
        sparse_byte(mem, address),
        sparse_byte(mem, address.wrapping_add(1)),
        sparse_byte(mem, address.wrapping_add(2)),
        sparse_byte(mem, address.wrapping_add(3)),
    )
}

/// The memory after a long word has been stored.
pub open spec fn sparse_stored(mem: Map<u32, u8>, address: u32, value: u32) -> Map<u32, u8> {
    mem.insert(address, long_byte0(value)).insert(
        address.wrapping_add(1),
        long_byte1(value),
    ).insert(address.wrapping_add(2), long_byte2(value)).insert(
        address.wrapping_add(3),
        long_byte3(value),
    )
}

impl SparseBus {
    /// Memory that holds nothing.
    pub fn new() -> (bus: Self)
        ensures
            bus.model() == (SparseModel { mem: Map::empty(), cycles: 0 }),
    {
        SparseBus { mem: HashMap::new(), cycles: 0 }
    }

    fn byte(&self, address: u32) -> (byte: u8)
        ensures
            byte == sparse_byte(self.mem@, address),
    {
        match self.mem.get(&address) {
            Some(byte) => *byte,
            None => 0,
        }
    }
}

impl Bus for SparseBus {
    type Model = SparseModel;

    open spec fn model(&self) -> SparseModel {
        SparseModel { mem: self.mem@, cycles: self.cycles }
    }

    open spec fn long_read(machine: SparseModel, address: u32) -> (
        Result<u32, AccessErrorModel>,
        SparseModel,
    ) {
        (Ok(sparse_long(machine.mem, address)), machine)
    }

    open spec fn long_written(machine: SparseModel, address: u32, value: u32) -> (
        Result<(), AccessErrorModel>,
        SparseModel,
    ) {
        (Ok(()), SparseModel { mem: sparse_stored(machine.mem, address, value), ..machine })
    }

    open spec fn byte_inspected(machine: SparseModel, address: u32) -> Option<u8> {
        if machine.mem.contains_key(address) {
            Some(machine.mem[address])
        } else {
            None
        }
    }

    open spec fn clock(machine: SparseModel) -> u64 {
        machine.cycles
    }

    fn read_ticks_physical(&mut self, address: u32) -> (result: Result<u32, AccessError>) {
        Ok(
            long_from_bytes(
                self.byte(address),
                self.byte(address.wrapping_add(1)),
                self.byte(address.wrapping_add(2)),
                self.byte(address.wrapping_add(3)),
            ),
        )
    }

    fn write_ticks_physical(&mut self, address: u32, value: u32) -> (result: Result<
        (),
        AccessError,
    >) {
        self.mem.insert(address, long_byte0(value));
        self.mem.insert(address.wrapping_add(1), long_byte1(value));
        self.mem.insert(address.wrapping_add(2), long_byte2(value));
        self.mem.insert(address.wrapping_add(3), long_byte3(value));
        Ok(())
    }

    fn inspect_read(&self, address: u32) -> (byte: Option<u8>) {
        match self.mem.get(&address) {
            Some(byte) => Some(*byte),
            None => None,
        }
    }

    fn cycles(&self) -> (cycles: u64) {
        self.cycles
    }
}

} // verus!
