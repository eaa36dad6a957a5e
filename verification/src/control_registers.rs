//! Typed values of the supervisor CSRs: `sie`, `sstatus` and `satp`.
//! These model the 64-bit register contents; the privileged
//! instructions that move them in and out of the hardware live with
//! the platform glue, not here.
use vstd::prelude::*;
use crate::addressing::Ppn;
use crate::paging::{PagingType, spec_paging_type_from_usize};

verus! {

/// Supervisor-level external interrupt enable, bit 9 of `sie`.
pub const SIE_SEIE: u64 = 0x200;

/// Supervisor-level timer interrupt enable, bit 5 of `sie`.
pub const SIE_STIE: u64 = 0x20;

/// Supervisor-level software interrupt enable, bit 1 of `sie`.
pub const SIE_SSIE: u64 = 0x2;

/// Supervisor interrupt enable, bit 1 of `sstatus`.
pub const SSTATUS_SIE: u64 = 0x2;

/// The value of the `sie` CSR.
#[derive(Debug, Clone, Copy, PartialEq, Eq, Structural)]
pub struct Sie(pub u64);

/// The value of the `sstatus` CSR.
#[derive(Debug, Clone, Copy, PartialEq, Eq, Structural)]
pub struct Sstatus(pub u64);

/// The value of the `satp` CSR: mode in bits 60..64, ASID in bits
/// 44..60, root-table PPN in bits 0..44.
#[derive(Debug, Clone, Copy, PartialEq, Eq, Structural)]
pub struct Satp(pub u64);

impl Sie {
    /// All three supervisor-level interrupt classes: external, timer
    /// and software.
    pub fn supervisor_all() -> (r: Self)
        ensures
            r.0 == SIE_SEIE | SIE_STIE | SIE_SSIE,
            r.0 == 0x222,
    {
        proof {
            assert(0x200u64 | 0x20 | 0x2 == 0x222) by (bit_vector);
        }
        Sie(SIE_SEIE | SIE_STIE | SIE_SSIE)
    }
}

impl Sstatus {
    /// Set the supervisor interrupt-enable bit.
    pub fn with_interrupts_enabled(&self) -> (r: Self)
        ensures
            r.0 == self.0 | SSTATUS_SIE,
    {
        Sstatus(self.0 | SSTATUS_SIE)
    }
}

/// The three decoded fields of `satp`.
#[derive(Debug, Clone, Copy, PartialEq, Eq, Structural)]
pub struct SatpState {
    pub mode: PagingType,
    pub asid: u16,
    pub ppn: u64,
}

impl SatpState {
    pub fn new(mode: PagingType, asid: u16, ppn: Ppn) -> (r: Self)
        ensures
            r.mode == mode,
            r.asid == asid,
            r.ppn == ppn.0,
    {
        SatpState { mode, asid, ppn: ppn.0 }
    }
}

impl Satp {
    /// The translation mode held in bits 60..64.
    pub fn read_mode(&self) -> (r: PagingType)
        ensures
            r == spec_paging_type_from_usize((self.0 >> 60) as usize),
    {
        proof {
            let v = self.0;
            assert(v >> 60 <= 0xf) by (bit_vector);
        }
        PagingType::from_usize((self.0 >> 60) as usize)
    }

    /// Replace the mode field, keeping ASID and PPN.
    pub fn write_mode(&mut self, paging_mode: PagingType)
        ensures
            final(self).0 == (old(self).0 & 0x0fff_ffff_ffff_ffff) | ((
            paging_mode.spec_code() as u64) << 60),
    {
        let code: u64 = paging_mode.as_usize() as u64;
        self.0 = (self.0 & 0x0fff_ffff_ffff_ffff) | (code << 60);
    }

    /// Encode a decoded state into the register value:
    /// `mode << 60 | asid << 44 | ppn`.
    pub fn write_state(satp: SatpState) -> (r: Self)
        requires
            satp.ppn <= 0xfff_ffff_ffff,
        ensures
            r.0 == ((satp.mode.spec_code() as u64) << 60) | ((satp.asid as u64) << 44) | satp.ppn,
    {
        let code: u64 = satp.mode.as_usize() as u64;
        Satp((code << 60) | ((satp.asid as u64) << 44) | satp.ppn)
    }

    /// Decode the register value into its three fields.
    pub fn read_state(&self) -> (r: SatpState)
        ensures
            r.mode == spec_paging_type_from_usize((self.0 >> 60) as usize),
            r.asid == (self.0 >> 44) as u16,
            r.ppn == self.0 & 0xfff_ffff_ffff,
    {
        let mode = self.read_mode();
        let asid: u16 = (self.0 >> 44) as u16;
        let ppn: u64 = self.0 & 0xfff_ffff_ffff;
        SatpState { mode, asid, ppn }
    }
}

/// Encoding a state and decoding it back returns the same fields,
/// whenever the PPN fits its 44 bits.
pub proof fn lemma_satp_state_round_trip(satp: SatpState)
    requires
        satp.ppn <= 0xfff_ffff_ffff,
        satp.mode != PagingType::Bare,
    ensures
        ({
            let enc = ((satp.mode.spec_code() as u64) << 60) | ((satp.asid as u64) << 44)
                | satp.ppn;
            &&& spec_paging_type_from_usize((enc >> 60) as usize) == satp.mode
            &&& (enc >> 44) as u16 == satp.asid
            &&& enc & 0xfff_ffff_ffff == satp.ppn
        }),
{
    let c = satp.mode.spec_code() as u64;
    let a = satp.asid as u64;
    let p = satp.ppn;
    assert(c == 8 || c == 9 || c == 10);
    assert((((c << 60) | (a << 44) | p) >> 60) == c && (((c << 60) | (a << 44) | p) >> 44) == (a | (
    c << 16)) && ((((c << 60) | (a << 44) | p) >> 44) as u16) == a as u16 && (((c << 60) | (a
        << 44) | p) & 0xfff_ffff_ffff) == p) by (bit_vector)
        requires
            (c == 8 || c == 9 || c == 10) && a <= 0xffff && p <= 0xfff_ffff_ffff,
    ;
}

} // verus!
