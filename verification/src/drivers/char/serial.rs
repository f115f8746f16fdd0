//! The 16550 UART serial port.
use vstd::prelude::*;
use crate::arch::types::Port;

verus! {

/// I/O base of the first serial port, COM1.
pub const COM1: u16 = 0x3F8;

/// Line-status bit that is set when the transmitter can take a byte.
pub const TRANSMIT_EMPTY: u8 = 0x20;

/// A UART's registers, at consecutive ports from its base.
pub struct SerialPort {
    data_port: Port,
    int_en_port: Port,
    fifo_ctrl_port: Port,
    line_ctrl_port: Port,
    modem_ctrl_port: Port,
    line_sts_port: Port,
}

impl SerialPort {
    /// Base port of the UART.
    pub closed spec fn base(&self) -> u16 {
        self.data_port.port
    }

    /// The registers are at `base` .. `base + 5`.
    pub closed spec fn wf(&self) -> bool {
        &&& self.base() + 5 <= u16::MAX
        &&& self.int_en_port.port == self.base() + 1
        &&& self.fifo_ctrl_port.port == self.base() + 2
        &&& self.line_ctrl_port.port == self.base() + 3
        &&& self.modem_ctrl_port.port == self.base() + 4
        &&& self.line_sts_port.port == self.base() + 5
    }

    /// The UART whose registers start at `base_port`.
    pub fn new(base_port: u16) -> (s: Self)
        requires
            base_port + 5 <= u16::MAX,
        ensures
            s.wf(),
            s.base() == base_port,
    {
        SerialPort {
            data_port: Port::new(base_port),
            int_en_port: Port::new(base_port + 1),
            fifo_ctrl_port: Port::new(base_port + 2),
            line_ctrl_port: Port::new(base_port + 3),
            modem_ctrl_port: Port::new(base_port + 4),
            line_sts_port: Port::new(base_port + 5),
        }
    }

    /// The data register.
    pub fn data_port(&self) -> (p: Port)
        ensures
            p.port == self.base(),
    {
        self.data_port
    }

    /// The line-status register.
    pub fn line_status_port(&self) -> (p: Port)
        requires
            self.wf(),
        ensures
            p.port == self.base() + 5,
    {
        self.line_sts_port
    }

    /// The register writes that set the UART up, in order: interrupts off,
    /// divisor latch on, divisor 1 (115200 baud), 8 bits no parity one stop
    /// bit, FIFOs on and cleared with a 14-byte threshold, IRQs on with RTS
    /// and DSR set.
    pub fn init(&self) -> (writes: Vec<(Port, u8)>)
        requires
            self.wf(),
        ensures
            writes@ == seq![
                (Port { port: (self.base() + 1) as u16 }, 0x00u8),
                (Port { port: (self.base() + 3) as u16 }, 0x80u8),
                (Port { port: self.base() }, 0x01u8),
                (Port { port: (self.base() + 1) as u16 }, 0x00u8),
                (Port { port: (self.base() + 3) as u16 }, 0x03u8),
                (Port { port: (self.base() + 2) as u16 }, 0xC7u8),
                (Port { port: (self.base() + 4) as u16 }, 0x0Bu8),
            ],
    {
        let mut w: Vec<(Port, u8)> = Vec::new();
        w.push((self.int_en_port, 0x00));
        w.push((self.line_ctrl_port, 0x80));
        w.push((self.data_port, 0x01));
        w.push((self.int_en_port, 0x00));
        w.push((self.line_ctrl_port, 0x03));
        w.push((self.fifo_ctrl_port, 0xC7));
        w.push((self.modem_ctrl_port, 0x0B));
        proof {
            assert(w@ =~= seq![
                (Port { port: (self.base() + 1) as u16 }, 0x00u8),
                (Port { port: (self.base() + 3) as u16 }, 0x80u8),
                (Port { port: self.base() }, 0x01u8),
                (Port { port: (self.base() + 1) as u16 }, 0x00u8),
                (Port { port: (self.base() + 3) as u16 }, 0x03u8),
                (Port { port: (self.base() + 2) as u16 }, 0xC7u8),
                (Port { port: (self.base() + 4) as u16 }, 0x0Bu8),
            ]);
        }
        w
    }
}

/// Whether a line-status value says the transmitter can take a byte.
pub fn is_transmit_empty(line_status: u8) -> (r: bool)
    ensures
        r == (line_status & TRANSMIT_EMPTY != 0),
{
    line_status & TRANSMIT_EMPTY != 0
}

/// The bytes sent for `s`: each line feed goes out as carriage return and
/// line feed.
pub open spec fn serial_bytes(s: Seq<u8>) -> Seq<u8>
    decreases s.len(),
{
    if s.len() == 0 {
        Seq::empty()
    } else {
        let head = if s.last() == 0x0Au8 { seq![0x0Du8, 0x0Au8] } else { seq![s.last()] };
        serial_bytes(s.drop_last()) + head
    }
}

/// The bytes to send for text `s`.
pub fn write_str(s: &[u8]) -> (out: Vec<u8>)
    ensures
        out@ == serial_bytes(s@),
{
    let mut out: Vec<u8> = Vec::new();
    let mut i: usize = 0;
    while i < s.len()
        invariant
            i <= s@.len(),
            out@ == serial_bytes(s@.take(i as int)),
        decreases s@.len() - i,
    {
        let byte = s[i];
        proof {
            assert(s@.take(i + 1).drop_last() =~= s@.take(i as int));
        }
        if byte == 0x0A {
            out.push(0x0D);
            out.push(0x0A);
            proof {
                assert(out@ =~= serial_bytes(s@.take(i as int)) + seq![0x0Du8, 0x0Au8]);
            }
        } else {
            out.push(byte);
            proof {
                assert(out@ =~= serial_bytes(s@.take(i as int)) + seq![byte]);
            }
        }
        i = i + 1;
    }
    proof {
        assert(s@.take(s@.len() as int) =~= s@);
    }
    out
}

} // verus!
