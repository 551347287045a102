//! The 8254 programmable interval timer.
use vstd::prelude::*;
use crate::port::{Port, PortWrite};

verus! {

/// Input clock of the timer, in Hz.
pub const PIT_FREQUENCY: u64 = 1_193_182;

/// Command: select channel 0.
pub const CHANNEL0: u8 = 0;

/// Command: access mode low byte then high byte.
pub const ACCESS_MODE_LOBYTE_HIBYTE: u8 = 0x30;

/// Command: operating mode 0, interrupt on terminal count.
pub const OPERATING_MODE0: u8 = 0;

/// Command: read back.
pub const READ_BACK_COMMAND: u8 = 0xC0;

/// Read-back command for channel 0.
pub const READ_BACK_TIMER_CHANNEL0: u8 = 0xC2;

/// Read-back command flag: latch the count.
pub const LATCH_COUNT_FLAG: u8 = 0xC0;

/// Read-back status: the state of the output pin.
pub const OUTPUT_PIN_STATE: u8 = 0x80;

/// The timer: three channel data ports and a command port.
pub struct Pit {
    data0: Port<u8>,
    data1: Port<u8>,
    data2: Port<u8>,
    command: Port<u8>,
}

impl Pit {
    /// The timer's ports are the standard ones, `0x40` to `0x43`.
    pub closed spec fn wf(&self) -> bool {
        &&& self.data0.address_spec() == 0x40
        &&& self.data1.address_spec() == 0x41
        &&& self.data2.address_spec() == 0x42
        &&& self.command.address_spec() == 0x43
    }

    pub fn new() -> (r: Self)
        ensures
            r.wf(),
    {
        Self { data0: Port::new(0x40), data1: Port::new(0x41), data2: Port::new(0x42), command: Port::new(0x43) }
    }

    /// The port a read of channel 0 goes to; the caller performs the read.
    pub fn read_data0(&self) -> (r: u16)
        requires
            self.wf(),
        ensures
            r == 0x40,
    {
        self.data0.address()
    }

    /// The port a read of channel 1 goes to; the caller performs the read.
    pub fn read_data1(&self) -> (r: u16)
        requires
            self.wf(),
        ensures
            r == 0x41,
    {
        self.data1.address()
    }

    /// The port a read of channel 2 goes to; the caller performs the read.
    pub fn read_data2(&self) -> (r: u16)
        requires
            self.wf(),
        ensures
            r == 0x42,
    {
        self.data2.address()
    }

    pub fn write_data0(&self, data: u8) -> (r: PortWrite)
        requires
            self.wf(),
        ensures
            r == (PortWrite { port: 0x40, value: data }),
    {
        self.data0.write(data)
    }

    pub fn write_data1(&self, data: u8) -> (r: PortWrite)
        requires
            self.wf(),
        ensures
            r == (PortWrite { port: 0x41, value: data }),
    {
        self.data1.write(data)
    }

    pub fn write_data2(&self, data: u8) -> (r: PortWrite)
        requires
            self.wf(),
        ensures
            r == (PortWrite { port: 0x42, value: data }),
    {
        self.data2.write(data)
    }

    pub fn write_command(&self, command: u8) -> (r: PortWrite)
        requires
            self.wf(),
        ensures
            r == (PortWrite { port: 0x43, value: command }),
    {
        self.command.write(command)
    }
}

} // verus!
