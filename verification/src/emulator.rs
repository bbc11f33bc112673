//! The fetch/decode loop's state: an architecture description, a memory
//! image, and a program counter the decoder's reported lengths advance.

use vstd::prelude::*;
use crate::arch::Arch;
use crate::decoder::{DecodeError, DecodedInstruction, decode, decode_fuel, decode_view,
    lemma_decode_ok_bounds, spec_decode, widths_ok};

verus! {

/// One machine being emulated: the immutable architecture description, the
/// byte-addressable memory image, and the program counter. Decoding an
/// instruction name into executable behaviour is the caller's business: a
/// fetch hands the decoded instruction out for external dispatch.
#[derive(Debug)]
pub struct Emulator {
    pub arch: Arch,
    pub memory: Vec<u8>,
    pub pc: u64,
}

impl Emulator {
    /// A fresh machine over a description and a memory image, with the
    /// program counter at zero.
    pub fn new(arch: Arch, memory: Vec<u8>) -> (r: Emulator)
        ensures
            r.arch == arch,
            r.memory == memory,
            r.pc == 0,
    {
        Emulator { arch, memory, pc: 0 }
    }

    /// Decode one instruction at the program counter, starting from the
    /// named group. The result is exactly what `spec_decode` yields on the
    /// machine's description, memory and counter; on success the counter
    /// advances by the consumed bytes, on failure nothing changes.
    pub fn parse_group(&mut self, group: &str) -> (r: Result<DecodedInstruction, DecodeError>)
        requires
            widths_ok(old(self).arch.groups@),
            old(self).pc <= usize::MAX as u64,
        ensures
            final(self).arch == old(self).arch,
            final(self).memory == old(self).memory,
            decode_view(r) == spec_decode(
                old(self).arch.groups@,
                old(self).memory@,
                old(self).pc as int,
                group@,
                decode_fuel(old(self).arch.groups@),
            ),
            match r {
                Ok(d) => final(self).pc == old(self).pc + d.consumed_bits as u64 / 8,
                Err(_) => final(self).pc == old(self).pc,
            },
    {
        let cursor = self.pc as usize;
        let r = decode(&self.arch, &self.memory, cursor, group);
        match &r {
            Ok(d) => {
                let mlen = self.memory.len();
                proof {
                    lemma_decode_ok_bounds(
                        self.arch.groups@,
                        self.memory@,
                        cursor as int,
                        group@,
                        decode_fuel(self.arch.groups@),
                    );
                    assert(d@.consumed_bits == d.consumed_bits as nat);
                    assert(cursor as int + d@.consumed_bits / 8 <= mlen as int);
                }
                self.pc = self.pc + (d.consumed_bits / 8) as u64;
            },
            Err(_) => {},
        }
        r
    }

    /// One step of the fetch/decode loop: decode at the program counter from
    /// the entry group `main`, advance the counter by the consumed bytes on
    /// success, and hand the decoded instruction out for external dispatch.
    pub fn emulate(&mut self) -> (r: Result<DecodedInstruction, DecodeError>)
        requires
            widths_ok(old(self).arch.groups@),
            old(self).pc <= usize::MAX as u64,
        ensures
            final(self).arch == old(self).arch,
            final(self).memory == old(self).memory,
            decode_view(r) == spec_decode(
                old(self).arch.groups@,
                old(self).memory@,
                old(self).pc as int,
                "main"@,
                decode_fuel(old(self).arch.groups@),
            ),
            match r {
                Ok(d) => final(self).pc == old(self).pc + d.consumed_bits as u64 / 8,
                Err(_) => final(self).pc == old(self).pc,
            },
    {
        self.parse_group("main")
    }
}

} // verus!
