use lsd::uart::Uart16550;

#[test]
fn init_leaves_the_documented_register_state() {
    let mut u = Uart16550::new();
    u.init();
    assert_eq!(u.line_control, 0x03);
    assert_eq!(u.int_id_fifo_control, 0x01);
    assert_eq!(u.interrupt_enable, 0);
    assert_eq!(u.divisor_low, 1);
    assert_eq!(u.divisor_high, 0);
    assert_eq!(u.scratch, 0);
}

#[test]
fn interrupt_enable_toggles() {
    let mut u = Uart16550::new();
    u.set_int();
    assert_eq!(u.interrupt_enable, 1);
    u.clear_int();
    assert_eq!(u.interrupt_enable, 0);
}

#[test]
fn line_status_tracks_received_data() {
    let mut u = Uart16550::new();
    assert_eq!(u.line_status(), 0x20);
    assert!(!u.data_waiting());
    assert!(u.data_empty());
    u.receive(b'x');
    assert_eq!(u.line_status(), 0x21);
    assert!(u.data_waiting());
    assert!(u.data_empty());
}

#[test]
fn read_returns_bytes_in_arrival_order() {
    let mut u = Uart16550::new();
    u.receive(1);
    u.receive(2);
    assert_eq!(u.read(), 1);
    assert_eq!(u.read(), 2);
    assert!(!u.data_waiting());
}

#[test]
fn try_read_is_none_when_quiet() {
    let mut u = Uart16550::new();
    assert_eq!(u.try_read(), None);
    u.receive(9);
    assert_eq!(u.try_read(), Some(9));
    assert_eq!(u.try_read(), None);
}

#[test]
fn write_logs_the_byte() {
    let mut u = Uart16550::new();
    u.write(b'A');
    u.write(b'B');
    assert_eq!(u.tx_log, vec![b'A', b'B']);
    assert_eq!(u.data_register, b'B');
}

#[test]
fn delete_gets_the_backspace_erase_escape() {
    let mut u = Uart16550::new();
    u.write(127);
    assert_eq!(
        u.tx_log,
        vec![0x1b, 0x5b, 0x31, 0x44, 0x20, 0x1b, 0x5b, 0x31, 0x44, 127]
    );
}

#[test]
fn write_str_sends_every_byte() {
    let mut u = Uart16550::new();
    u.write_str("ok\n");
    assert_eq!(u.tx_log, vec![b'o', b'k', b'\n']);
}

#[test]
fn write_str_echoes_a_delete_inside_a_string() {
    let mut u = Uart16550::new();
    u.write_str("a\u{7f}");
    assert_eq!(
        u.tx_log,
        vec![b'a', 0x1b, 0x5b, 0x31, 0x44, 0x20, 0x1b, 0x5b, 0x31, 0x44, 127]
    );
}
