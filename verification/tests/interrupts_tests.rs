use lsd::interrupts::{
    exception, handler, interrupt, interrupt_vector, load_fp_frame, load_frame, plic_int,
    store_fp_frame, store_frame, ExceptionCause, FpState, GeneralRegisters, InterruptAction,
    Sscratch, TrapDecision, TrapFrame,
};
use lsd::plic::plic_new;
use lsd::uart::Uart16550;

#[test]
fn scause_splits_into_kind_and_code() {
    // exceptions have the top bit clear
    assert_eq!(interrupt_vector(15), (true, 15));
    // interrupts have it set
    assert_eq!(interrupt_vector(0x8000_0000_0000_0009), (false, 9));
}

#[test]
fn exception_table_matches_the_codes() {
    assert_eq!(exception(0), ExceptionCause::InstructionAddressMisaligned);
    assert_eq!(exception(1), ExceptionCause::InstructionAccessFault);
    assert_eq!(exception(2), ExceptionCause::IllegalInstruction);
    assert_eq!(exception(3), ExceptionCause::Breakpoint);
    assert_eq!(exception(4), ExceptionCause::LoadAddressMisaligned);
    assert_eq!(exception(5), ExceptionCause::LoadAccessFault);
    assert_eq!(exception(6), ExceptionCause::StoreAddressMisaligned);
    assert_eq!(exception(7), ExceptionCause::StoreAccessFault);
    assert_eq!(exception(15), ExceptionCause::StorePageFault);
    assert_eq!(exception(11), ExceptionCause::Unknown);
}

#[test]
fn store_page_fault_is_fatal_with_its_log_line() {
    // a deliberate store to unmapped memory right after paging
    let decision = handler(15);
    assert_eq!(decision, TrapDecision::Fatal(ExceptionCause::StorePageFault));
    match decision {
        TrapDecision::Fatal(cause) => {
            assert_eq!(cause.description(), "Store page fault");
        }
        _ => unreachable!(),
    }
}

#[test]
fn interrupt_codes_route_to_their_actions() {
    assert_eq!(interrupt(1), InterruptAction::ClearIpi);
    assert_eq!(interrupt(5), InterruptAction::ReleaseWait);
    assert_eq!(interrupt(9), InterruptAction::External);
    assert_eq!(interrupt(2), InterruptAction::Unrecognized);
    assert_eq!(
        handler(0x8000_0000_0000_0005),
        TrapDecision::Interrupt(InterruptAction::ReleaseWait)
    );
}

#[test]
fn trap_frame_round_trips_through_its_save_area() {
    let mut regs = GeneralRegisters::null();
    regs.ra = 0x1111;
    regs.sp = 0x2222;
    regs.gp = 0x3333;
    regs.tp = 0x4444;
    regs.t0 = 5;
    regs.t6 = 0x66;
    regs.a0 = 0xaaaa;
    regs.a7 = 0xa7a7;
    regs.s11 = 0x5b5b;
    let frame = TrapFrame {
        sepc: 0x8020_1234,
        registers: regs,
    };
    let words = store_frame(&frame);
    assert_eq!(words.len(), 32);
    // the documented offsets: sepc at 0, ra at 8, gp at 16
    assert_eq!(words[0], 0x8020_1234);
    assert_eq!(words[1], 0x1111);
    assert_eq!(words[2], 0x3333);
    let back = load_frame(&words);
    assert_eq!(back, frame);
}

#[test]
fn fp_state_round_trips_when_dirty() {
    // a handler entered with sstatus.FS dirty saves all 32 registers
    let mut regs: Vec<u64> = Vec::new();
    for i in 0..32u64 {
        regs.push(0x4000_0000_0000_0000 + i);
    }
    let state = FpState { regs, fcsr: 0xa1 };
    let words = store_fp_frame(&state);
    assert_eq!(words.len(), 33);
    assert_eq!(words[32], 0xa1);
    let back = load_fp_frame(&words);
    assert_eq!(back, state);
}

#[test]
fn sscratch_holds_the_kernel_pointers() {
    let s = Sscratch {
        kernel_stack_top: 0x8031_0000,
        kernel_thread_local: 0x8040_0000,
        kernel_global_ptr: 0x8040_0800,
        scratch_sp: 0,
    };
    assert_eq!(s.kernel_stack_top, 0x8031_0000);
    let z = GeneralRegisters::null();
    assert_eq!(z.ra, 0);
    assert_eq!(z.t6, 0);
}

#[test]
fn keystroke_is_claimed_and_echoed() {
    // boot wiring: UART is source 10 at priority 7 on this context
    let ctx = 1;
    let mut plic = plic_new();
    plic.set_priority(10, 7);
    plic.enable_int(ctx, 10);
    plic.threshold_and_claim(ctx, 0);
    let mut uart_dev = Uart16550::new();
    uart_dev.init();
    uart_dev.set_int();
    // a keystroke arrives and raises the line
    uart_dev.receive(b'h');
    plic.set_pending(10);
    assert_eq!(
        handler(0x8000_0000_0000_0009),
        TrapDecision::Interrupt(InterruptAction::External)
    );
    let claimed = plic_int(&mut plic, &mut uart_dev, ctx, 10);
    assert_eq!(claimed, Some(10));
    // the byte came back out on the line
    assert_eq!(uart_dev.tx_log, vec![b'h']);
    assert!(!uart_dev.data_waiting());
    // completed: the source can fire again
    uart_dev.receive(b'\r');
    plic.set_pending(10);
    let claimed2 = plic_int(&mut plic, &mut uart_dev, ctx, 10);
    assert_eq!(claimed2, Some(10));
    assert_eq!(uart_dev.tx_log, vec![b'h', b'\n']);
}

#[test]
fn backspace_is_erased_on_echo() {
    let ctx = 1;
    let mut plic = plic_new();
    plic.set_priority(10, 7);
    plic.enable_int(ctx, 10);
    let mut uart_dev = Uart16550::new();
    uart_dev.receive(8);
    plic.set_pending(10);
    plic_int(&mut plic, &mut uart_dev, ctx, 10);
    assert_eq!(uart_dev.tx_log, vec![8, b' ', 8]);
}

#[test]
fn foreign_source_leaves_the_uart_alone() {
    let ctx = 1;
    let mut plic = plic_new();
    plic.set_priority(7, 3);
    plic.enable_int(ctx, 7);
    let mut uart_dev = Uart16550::new();
    uart_dev.receive(b'q');
    plic.set_pending(7);
    let claimed = plic_int(&mut plic, &mut uart_dev, ctx, 10);
    assert_eq!(claimed, Some(7));
    assert!(uart_dev.tx_log.is_empty());
    assert!(uart_dev.data_waiting());
}
