//! Injectable MMIO boundary of the MAC-pipe executors.
//!
//! Every executor in this crate reaches hardware only through `MacPipeMmio`.
//! The trait's contract records each access, in order, in a ghost trace, so
//! an executor's contract can state the exact access sequence it performs,
//! with every written value expressed in terms of the values it read.

use vstd::prelude::*;

verus! {

/// One MMIO access: its kind, address, width in bytes, and the value read
/// or written (zero-extended).
#[derive(Clone, Copy, Debug, PartialEq, Eq, Structural)]
pub enum MmioAccess {
    Read { address: u32, width: u8, value: u32 },
    Write { address: u32, width: u8, value: u32 },
}

pub open spec fn rd8(address: u32, value: u32) -> MmioAccess {
    MmioAccess::Read { address, width: 1, value }
}

pub open spec fn rd16(address: u32, value: u32) -> MmioAccess {
    MmioAccess::Read { address, width: 2, value }
}

pub open spec fn rd32(address: u32, value: u32) -> MmioAccess {
    MmioAccess::Read { address, width: 4, value }
}

pub open spec fn wr8(address: u32, value: u32) -> MmioAccess {
    MmioAccess::Write { address, width: 1, value }
}

pub open spec fn wr16(address: u32, value: u32) -> MmioAccess {
    MmioAccess::Write { address, width: 2, value }
}

pub open spec fn wr32(address: u32, value: u32) -> MmioAccess {
    MmioAccess::Write { address, width: 4, value }
}

/// The value carried by an access.
pub open spec fn value_of(access: MmioAccess) -> u32 {
    match access {
        MmioAccess::Read { value, .. } => value,
        MmioAccess::Write { value, .. } => value,
    }
}

/// The accesses made after the first `start` ones.
pub open spec fn trace_after(trace: Seq<MmioAccess>, start: int) -> Seq<MmioAccess> {
    trace.subrange(start, trace.len() as int)
}

/// Infallible MMIO access used by the MAC-pipe executors. Implementations
/// perform the access and record it in `accesses`.
pub trait MacPipeMmio {
    /// Every access performed so far, oldest first.
    /// A verified implementation defines it; the empty default only lets an
    /// implementation that Verus does not check leave it out.
    open spec fn accesses(&self) -> Seq<MmioAccess> {
        Seq::empty()
    }

    fn read_u8(&mut self, address: u32) -> (value: u8)
        ensures
            final(self).accesses() == old(self).accesses().push(rd8(address, value as u32)),
    ;

    fn read_u16(&mut self, address: u32) -> (value: u16)
        ensures
            final(self).accesses() == old(self).accesses().push(rd16(address, value as u32)),
    ;

    fn read_u32(&mut self, address: u32) -> (value: u32)
        ensures
            final(self).accesses() == old(self).accesses().push(rd32(address, value)),
    ;

    fn write_u8(&mut self, address: u32, value: u8)
        ensures
            final(self).accesses() == old(self).accesses().push(wr8(address, value as u32)),
    ;

    fn write_u16(&mut self, address: u32, value: u16)
        ensures
            final(self).accesses() == old(self).accesses().push(wr16(address, value as u32)),
    ;

    fn write_u32(&mut self, address: u32, value: u32)
        ensures
            final(self).accesses() == old(self).accesses().push(wr32(address, value)),
    ;
}


} // verus!
