//! The 16550 UART, modelled over its registers plus the two byte
//! streams the line carries: `rx_fifo` holds what arrived and has not
//! been read, `tx_log` everything pushed out. The volatile MMIO
//! accesses live with the platform glue; the protocol is here.
use vstd::prelude::*;
use vstd::string::StringSliceAdditionalSpecFns;

verus! {

#[derive(Debug, Clone, PartialEq, Eq)]
pub struct Uart16550 {
    pub data_register: u8,
    pub interrupt_enable: u8,
    pub int_id_fifo_control: u8,
    pub line_control: u8,
    pub modem_control: u8,
    pub modem_status: u8,
    pub scratch: u8,
    pub divisor_low: u8,
    pub divisor_high: u8,
    pub rx_fifo: Vec<u8>,
    pub tx_log: Vec<u8>,
}

/// The line-status byte: bit 0 reports data waiting, bit 5 that the
/// transmit holding register is empty (always, in this model).
pub open spec fn spec_lsr(u: Uart16550) -> u8 {
    if u.rx_fifo@.len() > 0 {
        0x21
    } else {
        0x20
    }
}

/// What one call of `write` pushes on the line: a delete is preceded
/// by the terminal's backspace-erase escape.
pub open spec fn spec_echo(b: u8) -> Seq<u8> {
    if b == 127 {
        seq![0x1bu8, 0x5b, 0x31, 0x44, 0x20, 0x1b, 0x5b, 0x31, 0x44, 127]
    } else {
        seq![b]
    }
}

/// What writing a whole byte sequence pushes on the line.
pub open spec fn spec_echo_seq(bs: Seq<u8>) -> Seq<u8>
    decreases bs.len(),
{
    if bs.len() == 0 {
        Seq::empty()
    } else {
        spec_echo(bs[0]) + spec_echo_seq(bs.drop_first())
    }
}

/// `spec_echo_seq` grows one echo at a time from the front.
pub proof fn lemma_echo_seq_take(bs: Seq<u8>, i: int)
    requires
        0 <= i < bs.len(),
    ensures
        spec_echo_seq(bs.take(i + 1)) == spec_echo_seq(bs.take(i)) + spec_echo(bs[i]),
    decreases i,
{
    if i == 0 {
        assert(bs.take(1).drop_first() =~= bs.take(0));
        assert(spec_echo_seq(bs.take(0)) == Seq::<u8>::empty());
        assert(spec_echo_seq(bs.take(1)) == spec_echo(bs[0]) + Seq::<u8>::empty());
        assert(spec_echo(bs[0]) + Seq::<u8>::empty() =~= Seq::<u8>::empty() + spec_echo(bs[0]));
    } else {
        lemma_echo_seq_take(bs.drop_first(), i - 1);
        assert(bs.take(i + 1).drop_first() =~= bs.drop_first().take(i));
        assert(bs.take(i).drop_first() =~= bs.drop_first().take(i - 1));
        assert(bs.take(i + 1)[0] == bs[0]);
        assert(bs.take(i)[0] == bs[0]);
        assert(bs.drop_first()[i - 1] == bs[i]);
        assert(spec_echo(bs[0]) + (spec_echo_seq(bs.drop_first().take(i - 1)) + spec_echo(bs[i]))
            =~= (spec_echo(bs[0]) + spec_echo_seq(bs.drop_first().take(i - 1))) + spec_echo(
            bs[i],
        ));
    }
}

impl crate::Compat for Uart16550 {
    fn compatible() -> Vec<String> {
        let mut v: Vec<String> = Vec::new();
        v.push(String::from_str("ns16550"));
        v.push(String::from_str("ns16550a"));
        v
    }
}

impl Uart16550 {
    /// A quiet device: registers clear, nothing received or sent.
    pub fn new() -> (r: Self)
        ensures
            r.data_register == 0,
            r.interrupt_enable == 0,
            r.int_id_fifo_control == 0,
            r.line_control == 0,
            r.modem_control == 0,
            r.modem_status == 0,
            r.scratch == 0,
            r.divisor_low == 0,
            r.divisor_high == 0,
            r.rx_fifo@ == Seq::<u8>::empty(),
            r.tx_log@ == Seq::<u8>::empty(),
    {
        Uart16550 {
            data_register: 0,
            interrupt_enable: 0,
            int_id_fifo_control: 0,
            line_control: 0,
            modem_control: 0,
            modem_status: 0,
            scratch: 0,
            divisor_low: 0,
            divisor_high: 0,
            rx_fifo: Vec::new(),
            tx_log: Vec::new(),
        }
    }

    /// The line delivers a byte: it queues up behind earlier arrivals.
    pub fn receive(&mut self, byte: u8)
        ensures
            final(self).rx_fifo@ == old(self).rx_fifo@.push(byte),
            final(self).tx_log == old(self).tx_log,
            final(self).interrupt_enable == old(self).interrupt_enable,
    {
        self.rx_fifo.push(byte);
    }

    /// Enable the received-data interrupt.
    pub fn set_int(&mut self)
        ensures
            final(self).interrupt_enable == 1,
            final(self).rx_fifo == old(self).rx_fifo,
            final(self).tx_log == old(self).tx_log,
    {
        self.interrupt_enable = 0x1;
    }

    /// Mask the received-data interrupt.
    pub fn clear_int(&mut self)
        ensures
            final(self).interrupt_enable == 0,
            final(self).rx_fifo == old(self).rx_fifo,
            final(self).tx_log == old(self).tx_log,
    {
        self.interrupt_enable = 0x0;
    }

    /// Bring the port up: 8N1 framing, FIFO on, divisor 1 written
    /// through the divisor latch, interrupts left masked.
    pub fn init(&mut self)
        ensures
            final(self).line_control == 0x03,
            final(self).int_id_fifo_control == 0x01,
            final(self).interrupt_enable == 0,
            final(self).divisor_low == 1,
            final(self).divisor_high == 0,
            final(self).scratch == 0,
            final(self).rx_fifo == old(self).rx_fifo,
            final(self).tx_log == old(self).tx_log,
    {
        self.line_control = 0x03;
        self.int_id_fifo_control = 0x01;
        self.interrupt_enable = 0x01;
        // open the divisor latch, set full speed, close it again
        self.line_control = 0x03 | 0x80;
        self.divisor_low = 1;
        self.divisor_high = 0;
        self.line_control = 0x03;
        self.interrupt_enable = 0x0;
        self.scratch = 0;
    }

    /// The line-status byte.
    pub fn line_status(&self) -> (r: u8)
        ensures
            r == spec_lsr(*self),
    {
        if self.rx_fifo.len() > 0 {
            0x21
        } else {
            0x20
        }
    }

    /// Whether a received byte is waiting.
    pub fn data_waiting(&self) -> (r: bool)
        ensures
            r == (self.rx_fifo@.len() > 0),
    {
        proof {
            assert(0x21u8 & 1 == 1 && 0x20u8 & 1 == 0) by (bit_vector);
        }
        let value = self.line_status() & 1;
        value == 1
    }

    /// Take the oldest received byte; the caller has checked one waits.
    pub fn read(&mut self) -> (r: u8)
        requires
            old(self).rx_fifo@.len() > 0,
        ensures
            r == old(self).rx_fifo@[0],
            final(self).rx_fifo@ == old(self).rx_fifo@.drop_first(),
            final(self).tx_log == old(self).tx_log,
    {
        proof {
            assert(old(self).rx_fifo@.remove(0) =~= old(self).rx_fifo@.drop_first());
        }
        self.rx_fifo.remove(0)
    }

    /// Take the oldest received byte if one waits.
    pub fn try_read(&mut self) -> (r: Option<u8>)
        ensures
            old(self).rx_fifo@.len() == 0 ==> r == None::<u8> && *final(self) == *old(self),
            old(self).rx_fifo@.len() > 0 ==> r == Some(old(self).rx_fifo@[0])
                && final(self).rx_fifo@ == old(self).rx_fifo@.drop_first()
                && final(self).tx_log == old(self).tx_log,
    {
        if !self.data_waiting() {
            return None;
        }
        Some(self.read())
    }

    /// Whether the transmitter can take a byte (always, here).
    pub fn data_empty(&self) -> (r: bool)
        ensures
            r == (spec_lsr(*self) & 0x20 == 0x20),
            r == true,
    {
        proof {
            assert(0x21u8 & 0x20 == 0x20 && 0x20u8 & 0x20 == 0x20) by (bit_vector);
        }
        let value = self.line_status() & (1 << 5);
        proof {
            assert((1u8 << 5) == 0x20) by (bit_vector);
        }
        value == (1 << 5)
    }

    /// Push a byte out; a delete first gets the backspace-erase escape.
    pub fn write(&mut self, data: u8)
        ensures
            final(self).tx_log@ == old(self).tx_log@ + spec_echo(data),
            final(self).rx_fifo == old(self).rx_fifo,
            final(self).data_register == data,
            final(self).interrupt_enable == old(self).interrupt_enable,
    {
        if data == 127 {
            self.tx_log.push(0x1b);
            self.tx_log.push(0x5b);
            self.tx_log.push(0x31);
            self.tx_log.push(0x44);
            self.tx_log.push(0x20);
            self.tx_log.push(0x1b);
            self.tx_log.push(0x5b);
            self.tx_log.push(0x31);
            self.tx_log.push(0x44);
        }
        self.tx_log.push(data);
        self.data_register = data;
        proof {
            if data == 127 {
                assert(final(self).tx_log@ =~= old(self).tx_log@ + spec_echo(data));
            } else {
                assert(final(self).tx_log@ =~= old(self).tx_log@ + spec_echo(data));
            }
        }
    }

    /// Push a whole string out, byte by byte.
    pub fn write_str(&mut self, s: &str)
        ensures
            final(self).tx_log@ == old(self).tx_log@ + spec_echo_seq(s.spec_bytes()),
            final(self).rx_fifo == old(self).rx_fifo,
    {
        let bytes = s.as_bytes();
        let mut i: usize = 0;
        proof {
            assert(bytes@.take(0) =~= Seq::<u8>::empty());
        }
        while i < bytes.len()
            invariant
                i <= bytes.len(),
                bytes@ == s.spec_bytes(),
                self.tx_log@ == old(self).tx_log@ + spec_echo_seq(bytes@.take(i as int)),
                self.rx_fifo == old(self).rx_fifo,
            decreases bytes.len() - i,
        {
            self.write(bytes[i]);
            proof {
                lemma_echo_seq_take(bytes@, i as int);
                assert((old(self).tx_log@ + spec_echo_seq(bytes@.take(i as int))) + spec_echo(
                    bytes@[i as int],
                ) =~= old(self).tx_log@ + (spec_echo_seq(bytes@.take(i as int)) + spec_echo(
                    bytes@[i as int],
                )));
            }
            i = i + 1;
        }
        proof {
            assert(bytes@.take(bytes@.len() as int) =~= bytes@);
        }
    }
}

} // verus!
