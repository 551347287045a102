//! The 16550 serial port.
use vstd::prelude::*;
use crate::port::{Port, PortWrite};

verus! {

/// A serial port: seven consecutive I/O ports from its base.
pub struct SerialPort {
    data: Port<u8>,
    int_en: Port<u8>,
    fifo_ctrl: Port<u8>,
    line_ctrl: Port<u8>,
    modem_ctrl: Port<u8>,
    line_stat: Port<u8>,
    mode_stat: Port<u8>,
}

/// Line status: the data register holds a received byte.
pub const LINE_STATUS_DATA_READY: u8 = 1;

/// Line status: the transmitter holding register can take a byte.
pub const LINE_STATUS_TRANSMITTER_EMPTY: u8 = 0x20;

impl SerialPort {
    /// The port number of the base (data) register.
    pub closed spec fn base(&self) -> u16 {
        self.data.address_spec()
    }

    /// The registers are the seven ports from the base on.
    pub closed spec fn wf(&self) -> bool {
        &&& self.int_en.address_spec() == self.data.address_spec() + 1
        &&& self.fifo_ctrl.address_spec() == self.data.address_spec() + 2
        &&& self.line_ctrl.address_spec() == self.data.address_spec() + 3
        &&& self.modem_ctrl.address_spec() == self.data.address_spec() + 4
        &&& self.line_stat.address_spec() == self.data.address_spec() + 5
        &&& self.mode_stat.address_spec() == self.data.address_spec() + 6
    }

    /// The serial port whose registers start at port `base`.
    pub fn new(base: u16) -> (r: Self)
        requires
            base + 6 <= u16::MAX,
        ensures
            r.wf(),
            r.base() == base,
    {
        SerialPort {
            data: Port::new(base),
            int_en: Port::new(base + 1),
            fifo_ctrl: Port::new(base + 2),
            line_ctrl: Port::new(base + 3),
            modem_ctrl: Port::new(base + 4),
            line_stat: Port::new(base + 5),
            mode_stat: Port::new(base + 6),
        }
    }

    /// The port the line status is read from.
    pub fn line_status_port(&self) -> (r: u16)
        requires
            self.wf(),
        ensures
            r == self.base() + 5,
    {
        self.line_stat.address()
    }

    /// The port bytes are sent to and received from.
    pub fn data_port(&self) -> (r: u16)
        ensures
            r == self.base(),
    {
        self.data.address()
    }

    /// The writes that set the port up: interrupts off, 38400 baud (divisor
    /// 3), 8 bits without parity and one stop bit, FIFOs on and cleared with a
    /// 14-byte threshold, IRQs on with RTS/DSR set, then the receive interrupt on.
    pub fn init(&self) -> (r: Vec<PortWrite>)
        requires
            self.wf(),
        ensures
            r@ == seq![
                PortWrite { port: (self.base() + 1) as u16, value: 0x00 },
                PortWrite { port: (self.base() + 3) as u16, value: 0x80 },
                PortWrite { port: self.base(), value: 0x03 },
                PortWrite { port: (self.base() + 1) as u16, value: 0x00 },
                PortWrite { port: (self.base() + 3) as u16, value: 0x03 },
                PortWrite { port: (self.base() + 2) as u16, value: 0xC7 },
                PortWrite { port: (self.base() + 4) as u16, value: 0x0B },
                PortWrite { port: (self.base() + 1) as u16, value: 0x01 },
            ],
    {
        let mut r: Vec<PortWrite> = Vec::new();
        r.push(self.int_en.write(0x0));
        r.push(self.line_ctrl.write(0x80));
        r.push(self.data.write(0x3));
        r.push(self.int_en.write(0x0));
        r.push(self.line_ctrl.write(0x3));
        r.push(self.fifo_ctrl.write(0xC7));
        r.push(self.modem_ctrl.write(0x0B));
        r.push(self.int_en.write(0x01));
        r
    }

    /// Whether a line status lets a byte be sent.
    pub fn can_send(status: u8) -> (r: bool)
        ensures
            r == (status & LINE_STATUS_TRANSMITTER_EMPTY != 0),
    {
        status & LINE_STATUS_TRANSMITTER_EMPTY != 0
    }

    /// Whether a line status says a byte was received.
    pub fn can_receive(status: u8) -> (r: bool)
        ensures
            r == (status & LINE_STATUS_DATA_READY != 0),
    {
        status & LINE_STATUS_DATA_READY != 0
    }

    /// The byte sent for a character: itself if ASCII, else `.`.
    pub fn byte_for(c: char) -> (r: u8)
        ensures
            (c as u32) < 128 ==> r == c as u8,
            (c as u32) >= 128 ==> r == 0x2e,
    {
        let v: u32 = c as u32;
        if v < 128 {
            v as u8
        } else {
            0x2e
        }
    }
}

} // verus!
