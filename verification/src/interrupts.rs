//! Trap cause decoding, the dispatch decisions the handler takes, and
//! the trap frame's save/restore layout. The `stvec` stub itself is
//! target assembly and lives with the platform glue; the frame layout
//! and the decisions are its contract, and they are here.
use vstd::prelude::*;
use crate::plic::PlicRefer;
use crate::uart::{Uart16550, spec_echo};

verus! {

/// The 31 general-purpose registers a trap saves, in frame order.
#[derive(Debug, Clone, Copy, PartialEq, Eq, Structural)]
pub struct GeneralRegisters {
    pub ra: usize,
    pub gp: usize,
    pub sp: usize,
    pub tp: usize,
    pub t0: usize,
    pub t1: usize,
    pub t2: usize,
    pub s0: usize,
    pub s1: usize,
    pub a0: usize,
    pub a1: usize,
    pub a2: usize,
    pub a3: usize,
    pub a4: usize,
    pub a5: usize,
    pub a6: usize,
    pub a7: usize,
    pub s2: usize,
    pub s3: usize,
    pub s4: usize,
    pub s5: usize,
    pub s6: usize,
    pub s7: usize,
    pub s8: usize,
    pub s9: usize,
    pub s10: usize,
    pub s11: usize,
    pub t3: usize,
    pub t4: usize,
    pub t5: usize,
    pub t6: usize,
}

/// The all-zero register file.
pub open spec fn spec_null_registers() -> GeneralRegisters {
    GeneralRegisters {
        ra: 0,
        gp: 0,
        sp: 0,
        tp: 0,
        t0: 0,
        t1: 0,
        t2: 0,
        s0: 0,
        s1: 0,
        a0: 0,
        a1: 0,
        a2: 0,
        a3: 0,
        a4: 0,
        a5: 0,
        a6: 0,
        a7: 0,
        s2: 0,
        s3: 0,
        s4: 0,
        s5: 0,
        s6: 0,
        s7: 0,
        s8: 0,
        s9: 0,
        s10: 0,
        s11: 0,
        t3: 0,
        t4: 0,
        t5: 0,
        t6: 0,
    }
}

impl GeneralRegisters {
    pub fn null() -> (r: Self)
        ensures
            r == spec_null_registers(),
    {
        GeneralRegisters {
            ra: 0,
            gp: 0,
            sp: 0,
            tp: 0,
            t0: 0,
            t1: 0,
            t2: 0,
            s0: 0,
            s1: 0,
            a0: 0,
            a1: 0,
            a2: 0,
            a3: 0,
            a4: 0,
            a5: 0,
            a6: 0,
            a7: 0,
            s2: 0,
            s3: 0,
            s4: 0,
            s5: 0,
            s6: 0,
            s7: 0,
            s8: 0,
            s9: 0,
            s10: 0,
            s11: 0,
            t3: 0,
            t4: 0,
            t5: 0,
            t6: 0,
        }
    }
}

/// What the trap stub saves: the interrupted PC and the registers.
#[derive(Debug, Clone, Copy, PartialEq, Eq, Structural)]
pub struct TrapFrame {
    pub sepc: usize,
    pub registers: GeneralRegisters,
}

/// The per-hart block `sscratch` points at while the hart runs in the
/// kernel: where the interrupt stack and the kernel's `tp`/`gp` live,
/// and a slot for the interrupted stack pointer.
#[derive(Debug, Clone, Copy, PartialEq, Eq, Structural)]
pub struct Sscratch {
    pub kernel_stack_top: usize,
    pub kernel_thread_local: usize,
    pub kernel_global_ptr: usize,
    pub scratch_sp: usize,
}

/// The frame as 32 words at their save offsets: `sepc` first, then the
/// registers in declaration order, each one doubleword apart.
pub open spec fn spec_frame_words(f: TrapFrame) -> Seq<usize> {
    seq![
        f.sepc,
        f.registers.ra,
        f.registers.gp,
        f.registers.sp,
        f.registers.tp,
        f.registers.t0,
        f.registers.t1,
        f.registers.t2,
        f.registers.s0,
        f.registers.s1,
        f.registers.a0,
        f.registers.a1,
        f.registers.a2,
        f.registers.a3,
        f.registers.a4,
        f.registers.a5,
        f.registers.a6,
        f.registers.a7,
        f.registers.s2,
        f.registers.s3,
        f.registers.s4,
        f.registers.s5,
        f.registers.s6,
        f.registers.s7,
        f.registers.s8,
        f.registers.s9,
        f.registers.s10,
        f.registers.s11,
        f.registers.t3,
        f.registers.t4,
        f.registers.t5,
        f.registers.t6,
    ]
}

/// The frame read back from its 32 saved words.
pub open spec fn spec_frame_of_words(w: Seq<usize>) -> TrapFrame {
    TrapFrame {
        sepc: w[0],
        registers: GeneralRegisters {
            ra: w[1],
            gp: w[2],
            sp: w[3],
            tp: w[4],
            t0: w[5],
            t1: w[6],
            t2: w[7],
            s0: w[8],
            s1: w[9],
            a0: w[10],
            a1: w[11],
            a2: w[12],
            a3: w[13],
            a4: w[14],
            a5: w[15],
            a6: w[16],
            a7: w[17],
            s2: w[18],
            s3: w[19],
            s4: w[20],
            s5: w[21],
            s6: w[22],
            s7: w[23],
            s8: w[24],
            s9: w[25],
            s10: w[26],
            s11: w[27],
            t3: w[28],
            t4: w[29],
            t5: w[30],
            t6: w[31],
        },
    }
}

/// Saving a frame and restoring it reproduces the exact register
/// state and `sepc`.
pub proof fn lemma_frame_round_trip(f: TrapFrame)
    ensures
        spec_frame_of_words(spec_frame_words(f)) == f,
{
}

/// Write the frame out at its documented offsets: word `i` sits at
/// byte offset `8 * i`.
pub fn store_frame(frame: &TrapFrame) -> (r: Vec<usize>)
    ensures
        r@ == spec_frame_words(*frame),
{
    let mut v: Vec<usize> = Vec::new();
    v.push(frame.sepc);
    v.push(frame.registers.ra);
    v.push(frame.registers.gp);
    v.push(frame.registers.sp);
    v.push(frame.registers.tp);
    v.push(frame.registers.t0);
    v.push(frame.registers.t1);
    v.push(frame.registers.t2);
    v.push(frame.registers.s0);
    v.push(frame.registers.s1);
    v.push(frame.registers.a0);
    v.push(frame.registers.a1);
    v.push(frame.registers.a2);
    v.push(frame.registers.a3);
    v.push(frame.registers.a4);
    v.push(frame.registers.a5);
    v.push(frame.registers.a6);
    v.push(frame.registers.a7);
    v.push(frame.registers.s2);
    v.push(frame.registers.s3);
    v.push(frame.registers.s4);
    v.push(frame.registers.s5);
    v.push(frame.registers.s6);
    v.push(frame.registers.s7);
    v.push(frame.registers.s8);
    v.push(frame.registers.s9);
    v.push(frame.registers.s10);
    v.push(frame.registers.s11);
    v.push(frame.registers.t3);
    v.push(frame.registers.t4);
    v.push(frame.registers.t5);
    v.push(frame.registers.t6);
    proof {
        assert(v@ =~= spec_frame_words(*frame));
    }
    v
}

/// Read a frame back from its 32 saved words.
pub fn load_frame(words: &Vec<usize>) -> (r: TrapFrame)
    requires
        words@.len() == 32,
    ensures
        r == spec_frame_of_words(words@),
{
    TrapFrame {
        sepc: words[0],
        registers: GeneralRegisters {
            ra: words[1],
            gp: words[2],
            sp: words[3],
            tp: words[4],
            t0: words[5],
            t1: words[6],
            t2: words[7],
            s0: words[8],
            s1: words[9],
            a0: words[10],
            a1: words[11],
            a2: words[12],
            a3: words[13],
            a4: words[14],
            a5: words[15],
            a6: words[16],
            a7: words[17],
            s2: words[18],
            s3: words[19],
            s4: words[20],
            s5: words[21],
            s6: words[22],
            s7: words[23],
            s8: words[24],
            s9: words[25],
            s10: words[26],
            s11: words[27],
            t3: words[28],
            t4: words[29],
            t5: words[30],
            t6: words[31],
        },
    }
}

/// The floating-point state a trap saves when `sstatus.FS` is dirty:
/// the 32 registers' bit patterns and `fcsr`.
#[derive(Debug, Clone, PartialEq, Eq)]
pub struct FpState {
    pub regs: Vec<u64>,
    pub fcsr: u64,
}

/// The FP save area: the 32 register patterns, then `fcsr`.
pub open spec fn spec_fp_words(s: FpState) -> Seq<u64> {
    s.regs@.push(s.fcsr)
}

/// Write the FP state out in save-area order.
pub fn store_fp_frame(state: &FpState) -> (r: Vec<u64>)
    requires
        state.regs@.len() == 32,
    ensures
        r@ == spec_fp_words(*state),
        r@.len() == 33,
{
    let mut v: Vec<u64> = Vec::new();
    let mut i: usize = 0;
    while i < 32
        invariant
            i <= 32,
            state.regs@.len() == 32,
            v@ == state.regs@.take(i as int),
        decreases 32 - i,
    {
        v.push(state.regs[i]);
        proof {
            assert(state.regs@.take(i as int).push(state.regs@[i as int]) =~= state.regs@.take(
                i as int + 1,
            ));
        }
        i = i + 1;
    }
    v.push(state.fcsr);
    proof {
        assert(state.regs@.take(32) =~= state.regs@);
    }
    v
}

/// Read the FP state back from its save area.
pub fn load_fp_frame(words: &Vec<u64>) -> (r: FpState)
    requires
        words@.len() == 33,
    ensures
        r.regs@ == words@.take(32),
        r.fcsr == words@[32],
        spec_fp_words(r) == words@,
{
    let mut regs: Vec<u64> = Vec::new();
    let mut i: usize = 0;
    while i < 32
        invariant
            i <= 32,
            words@.len() == 33,
            regs@ == words@.take(i as int),
        decreases 32 - i,
    {
        regs.push(words[i]);
        proof {
            assert(words@.take(i as int).push(words@[i as int]) =~= words@.take(i as int + 1));
        }
        i = i + 1;
    }
    let fcsr = words[32];
    let r = FpState { regs, fcsr };
    proof {
        assert(spec_fp_words(r) =~= words@);
    }
    r
}

/// Split `scause`: the top bit tells exception (clear) from interrupt
/// (set); the rest is the cause code.
pub fn interrupt_vector(scause: u64) -> (r: (bool, u64))
    ensures
        r.0 == (scause & 0x8000_0000_0000_0000 == 0),
        r.1 == scause & 0x7fff_ffff_ffff_ffff,
{
    let mask: u64 = 0x7fff_ffff_ffff_ffff;
    proof {
        let x = scause;
        assert((x & !0x7fff_ffff_ffff_ffffu64) == (x & 0x8000_0000_0000_0000u64)) by (bit_vector);
    }
    ((scause & !mask) == 0, scause & mask)
}

/// What a synchronous exception was; every one of them is fatal on
/// this boot path.
#[derive(Debug, Clone, Copy, PartialEq, Eq, Structural)]
pub enum ExceptionCause {
    InstructionAddressMisaligned,
    InstructionAccessFault,
    IllegalInstruction,
    Breakpoint,
    LoadAddressMisaligned,
    LoadAccessFault,
    StoreAddressMisaligned,
    StoreAccessFault,
    StorePageFault,
    Unknown,
}

/// The exception table: codes 0..7 and 15, everything else unknown.
pub open spec fn spec_exception_of(code: u64) -> ExceptionCause {
    if code == 0 {
        ExceptionCause::InstructionAddressMisaligned
    } else if code == 1 {
        ExceptionCause::InstructionAccessFault
    } else if code == 2 {
        ExceptionCause::IllegalInstruction
    } else if code == 3 {
        ExceptionCause::Breakpoint
    } else if code == 4 {
        ExceptionCause::LoadAddressMisaligned
    } else if code == 5 {
        ExceptionCause::LoadAccessFault
    } else if code == 6 {
        ExceptionCause::StoreAddressMisaligned
    } else if code == 7 {
        ExceptionCause::StoreAccessFault
    } else if code == 15 {
        ExceptionCause::StorePageFault
    } else {
        ExceptionCause::Unknown
    }
}

/// Decode an exception code. The caller logs the description and
/// halts the hart: exceptions do not return on this boot path.
pub fn exception(code: u64) -> (r: ExceptionCause)
    ensures
        r == spec_exception_of(code),
{
    match code {
        0 => ExceptionCause::InstructionAddressMisaligned,
        1 => ExceptionCause::InstructionAccessFault,
        2 => ExceptionCause::IllegalInstruction,
        3 => ExceptionCause::Breakpoint,
        4 => ExceptionCause::LoadAddressMisaligned,
        5 => ExceptionCause::LoadAccessFault,
        6 => ExceptionCause::StoreAddressMisaligned,
        7 => ExceptionCause::StoreAccessFault,
        15 => ExceptionCause::StorePageFault,
        _ => ExceptionCause::Unknown,
    }
}

impl ExceptionCause {
    /// The log line the handler prints for this cause.
    pub fn description(&self) -> (r: String)
        ensures
            *self == ExceptionCause::StorePageFault ==> r@ == "Store page fault"@,
            *self == ExceptionCause::IllegalInstruction ==> r@ == "Illegal instruction"@,
            *self == ExceptionCause::Breakpoint ==> r@ == "Breakpoint"@,
            *self == ExceptionCause::InstructionAddressMisaligned ==> r@
                == "Instruction address misaligned"@,
            *self == ExceptionCause::InstructionAccessFault ==> r@
                == "Instruction access fault"@,
            *self == ExceptionCause::LoadAddressMisaligned ==> r@ == "Load address misaligned"@,
            *self == ExceptionCause::LoadAccessFault ==> r@ == "Load access fault"@,
            *self == ExceptionCause::StoreAddressMisaligned ==> r@
                == "Store/AMO address misaligned"@,
            *self == ExceptionCause::StoreAccessFault ==> r@ == "Store/AMO access fault"@,
            *self == ExceptionCause::Unknown ==> r@ == "Unknown exception"@,
    {
        match self {
            ExceptionCause::InstructionAddressMisaligned => String::from_str(
                "Instruction address misaligned",
            ),
            ExceptionCause::InstructionAccessFault => String::from_str("Instruction access fault"),
            ExceptionCause::IllegalInstruction => String::from_str("Illegal instruction"),
            ExceptionCause::Breakpoint => String::from_str("Breakpoint"),
            ExceptionCause::LoadAddressMisaligned => String::from_str("Load address misaligned"),
            ExceptionCause::LoadAccessFault => String::from_str("Load access fault"),
            ExceptionCause::StoreAddressMisaligned => String::from_str(
                "Store/AMO address misaligned",
            ),
            ExceptionCause::StoreAccessFault => String::from_str("Store/AMO access fault"),
            ExceptionCause::StorePageFault => String::from_str("Store page fault"),
            ExceptionCause::Unknown => String::from_str("Unknown exception"),
        }
    }
}

/// What the handler does for an interrupt code.
#[derive(Debug, Clone, Copy, PartialEq, Eq, Structural)]
pub enum InterruptAction {
    /// Supervisor software interrupt: clear this hart's IPI slot.
    ClearIpi,
    /// Supervisor timer interrupt: release `wait`.
    ReleaseWait,
    /// Supervisor external interrupt: run the PLIC claim loop.
    External,
    /// Anything else is logged and ignored.
    Unrecognized,
}

/// The interrupt table: 1 is software, 5 the timer, 9 external.
pub open spec fn spec_interrupt_of(code: u64) -> InterruptAction {
    if code == 1 {
        InterruptAction::ClearIpi
    } else if code == 5 {
        InterruptAction::ReleaseWait
    } else if code == 9 {
        InterruptAction::External
    } else {
        InterruptAction::Unrecognized
    }
}

/// Decode an interrupt code into the action the handler takes.
pub fn interrupt(code: u64) -> (r: InterruptAction)
    ensures
        r == spec_interrupt_of(code),
{
    match code {
        1 => InterruptAction::ClearIpi,
        5 => InterruptAction::ReleaseWait,
        9 => InterruptAction::External,
        _ => InterruptAction::Unrecognized,
    }
}

/// The handler's whole decision for a trap cause.
#[derive(Debug, Clone, Copy, PartialEq, Eq, Structural)]
pub enum TrapDecision {
    /// A fatal exception: log the cause and halt.
    Fatal(ExceptionCause),
    /// An interrupt: take its action and return.
    Interrupt(InterruptAction),
}

/// Decode `scause` and route it, as the trap vector's Rust half does.
pub fn handler(scause: u64) -> (r: TrapDecision)
    ensures
        scause & 0x8000_0000_0000_0000 == 0 ==> r == TrapDecision::Fatal(
            spec_exception_of(scause & 0x7fff_ffff_ffff_ffff),
        ),
        scause & 0x8000_0000_0000_0000 != 0 ==> r == TrapDecision::Interrupt(
            spec_interrupt_of(scause & 0x7fff_ffff_ffff_ffff),
        ),
    {
    let int_vec = interrupt_vector(scause);
    if int_vec.0 {
        TrapDecision::Fatal(exception(int_vec.1))
    } else {
        TrapDecision::Interrupt(interrupt(int_vec.1))
    }
}

/// What servicing one received byte pushes back on the line: a
/// backspace erases, a carriage return or line feed becomes a line
/// feed, anything else is echoed.
pub open spec fn spec_uart_echo(c: u8) -> Seq<u8> {
    if c == 8 {
        seq![8u8, 32, 8]
    } else if c == 10 || c == 13 {
        seq![10u8]
    } else {
        spec_echo(c)
    }
}

/// Service the UART: take the waiting byte and echo it per the rules
/// above.
pub fn uart(dev: &mut Uart16550)
    requires
        old(dev).rx_fifo@.len() > 0,
    ensures
        final(dev).rx_fifo@ == old(dev).rx_fifo@.drop_first(),
        final(dev).tx_log@ == old(dev).tx_log@ + spec_uart_echo(old(dev).rx_fifo@[0]),
{
    let character = dev.read();
    if character == 8 {
        dev.write(8);
        dev.write(32);
        dev.write(8);
        proof {
            assert(final(dev).tx_log@ =~= old(dev).tx_log@ + spec_uart_echo(
                old(dev).rx_fifo@[0],
            ));
        }
    } else if character == 10 || character == 13 {
        dev.write(10);
        proof {
            assert(final(dev).tx_log@ =~= old(dev).tx_log@ + spec_uart_echo(
                old(dev).rx_fifo@[0],
            ));
        }
    } else {
        dev.write(character);
        proof {
            assert(final(dev).tx_log@ =~= old(dev).tx_log@ + spec_uart_echo(
                old(dev).rx_fifo@[0],
            ));
        }
    }
}

/// The external-interrupt path: claim the highest-priority source, and
/// when it is the UART's line, service it; complete the claim either
/// way so the line does not latch. Returns what was claimed.
pub fn plic_int(plic: &mut PlicRefer, dev: &mut Uart16550, context: usize, uart_source: u32) -> (r:
    Option<u32>)
    requires
        old(plic).wf(),
        context < crate::plic::PLIC_MAX_CONTEXTS,
        old(dev).rx_fifo@.len() > 0,
    ensures
        final(plic).wf(),
        r == None::<u32> ==> *final(plic) == *old(plic) && *final(dev) == *old(dev) && (forall|
            s: int,
        | !(old(plic).is_candidate(context as int, s))),
        ({
            match r {
                None => true,
                Some(id) => {
                    &&& old(plic).is_candidate(context as int, id as int)
                    &&& forall|s: int|
                        old(plic).is_candidate(context as int, s) ==> old(plic).priorities@[s]
                            < old(plic).priorities@[id as int] || (old(plic).priorities@[s] == old(
                            plic,
                        ).priorities@[id as int] && id as int <= s)
                    &&& forall|s: int|
                        0 <= s < crate::plic::PLIC_MAX_SOURCES ==> final(plic).is_pending(s) == (
                        old(plic).is_pending(s) && s != id as int)
                    &&& final(plic).priorities == old(plic).priorities
                    &&& final(plic).enables == old(plic).enables
                    &&& final(plic).thresholds == old(plic).thresholds
                    &&& (id == uart_source ==> final(dev).rx_fifo@ == old(
                        dev,
                    ).rx_fifo@.drop_first() && final(dev).tx_log@ == old(dev).tx_log@
                        + spec_uart_echo(old(dev).rx_fifo@[0]))
                    &&& (id != uart_source ==> *final(dev) == *old(dev))
                },
            }
        }),
{
    let pot_int = plic.next(context);
    match pot_int {
        None => None,
        Some(int_claim) => {
            if int_claim == uart_source {
                uart(dev);
            }
            plic.claim(context, int_claim);
            Some(int_claim)
        },
    }
}

} // verus!
