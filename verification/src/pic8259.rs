//! The two chained 8259 programmable interrupt controllers.
use vstd::prelude::*;
use crate::port::{io_wait, Port, PortWrite};

verus! {

/// Port of the command register of the master controller; its data
/// register is the next port.
pub const MASTER_PIC_BASE: u16 = 0x20;

/// Port of the command register of the slave controller; its data register
/// is the next port.
pub const SLAVE_PIC_BASE: u16 = 0xa0;

/// Initialisation word 1: start initialisation, an ICW4 follows.
pub const ICW1_INIT_WITH_ICW4: u8 = 0x11;

/// Initialisation word 4: 8086 mode.
pub const ICW4_MODE_8086: u8 = 0x1;

/// Command: end of interrupt.
pub const END_OF_INTERRUPT: u8 = 0x20;

/// One controller: a command port and a data port.
pub struct Pic {
    command: Port<u8>,
    data: Port<u8>,
}

impl Pic {
    pub closed spec fn command_port(&self) -> u16 {
        self.command.address_spec()
    }

    pub closed spec fn data_port(&self) -> u16 {
        self.data.address_spec()
    }

    pub fn new(command: Port<u8>, data: Port<u8>) -> (r: Self)
        ensures
            r.command_port() == command.address_spec(),
            r.data_port() == data.address_spec(),
    {
        Self { command, data }
    }

    /// The port a read of the command register goes to; the caller
    /// performs the read.
    pub fn read_command(&self) -> (r: u16)
        ensures
            r == self.command_port(),
    {
        self.command.address()
    }

    /// The port a read of the data register (the interrupt mask) goes to;
    /// the caller performs the read.
    pub fn read_data(&self) -> (r: u16)
        ensures
            r == self.data_port(),
    {
        self.data.address()
    }

    /// The write of `command` to the command port.
    pub fn write_command(&self, command: u8) -> (r: PortWrite)
        ensures
            r == (PortWrite { port: self.command_port(), value: command }),
    {
        self.command.write(command)
    }

    /// The write of `data` to the data port.
    pub fn write_data(&self, data: u8) -> (r: PortWrite)
        ensures
            r == (PortWrite { port: self.data_port(), value: data }),
    {
        self.data.write(data)
    }
}

/// A master controller with a slave on its line 2.
pub struct ChainedPics {
    master: Pic,
    slave: Pic,
}

/// `w`, then the settling write.
pub open spec fn then_wait(w: PortWrite) -> Seq<PortWrite> {
    seq![w, PortWrite { port: 0x80, value: 0 }]
}

impl ChainedPics {
    /// The controllers sit at their standard ports.
    pub closed spec fn wf(&self) -> bool {
        &&& self.master.command_port() == MASTER_PIC_BASE
        &&& self.master.data_port() == MASTER_PIC_BASE + 1
        &&& self.slave.command_port() == SLAVE_PIC_BASE
        &&& self.slave.data_port() == SLAVE_PIC_BASE + 1
    }

    pub fn new() -> (r: Self)
        ensures
            r.wf(),
    {
        Self {
            master: Pic::new(Port::new(MASTER_PIC_BASE), Port::new(MASTER_PIC_BASE + 1)),
            slave: Pic::new(Port::new(SLAVE_PIC_BASE), Port::new(SLAVE_PIC_BASE + 1)),
        }
    }

    /// The writes that mask every line of both controllers.
    pub fn disable(&self) -> (r: Vec<PortWrite>)
        requires
            self.wf(),
        ensures
            r@ == seq![PortWrite { port: 0x21, value: 0xff }, PortWrite { port: 0xa1, value: 0xff }],
    {
        let mut r: Vec<PortWrite> = Vec::new();
        r.push(self.master.write_data(0xff));
        r.push(self.slave.write_data(0xff));
        r
    }

    /// The writes that remap the controllers to the vector offsets given,
    /// wire the slave to line 2 of the master, select 8086 mode and restore
    /// the masks read before (`master_mask`, `slave_mask`).
    pub fn init(&mut self, master_offset: u8, slave_offset: u8, master_mask: u8, slave_mask: u8) -> (r: Vec<PortWrite>)
        requires
            old(self).wf(),
        ensures
            final(self).wf(),
            r@ == then_wait(PortWrite { port: 0x20, value: ICW1_INIT_WITH_ICW4 })
                + then_wait(PortWrite { port: 0xa0, value: ICW1_INIT_WITH_ICW4 })
                + then_wait(PortWrite { port: 0x21, value: master_offset })
                + then_wait(PortWrite { port: 0xa1, value: slave_offset })
                + then_wait(PortWrite { port: 0x21, value: 0x4 })
                + then_wait(PortWrite { port: 0xa1, value: 0x2 })
                + then_wait(PortWrite { port: 0x21, value: ICW4_MODE_8086 })
                + then_wait(PortWrite { port: 0xa1, value: ICW4_MODE_8086 })
                + seq![PortWrite { port: 0x21, value: master_mask }, PortWrite { port: 0xa1, value: slave_mask }],
    {
        let mut r: Vec<PortWrite> = Vec::new();
        r.push(self.master.write_command(ICW1_INIT_WITH_ICW4));
        r.push(io_wait());
        r.push(self.slave.write_command(ICW1_INIT_WITH_ICW4));
        r.push(io_wait());
        r.push(self.master.write_data(master_offset));
        r.push(io_wait());
        r.push(self.slave.write_data(slave_offset));
        r.push(io_wait());
        r.push(self.master.write_data(0x4));
        r.push(io_wait());
        r.push(self.slave.write_data(0x2));
        r.push(io_wait());
        r.push(self.master.write_data(ICW4_MODE_8086));
        r.push(io_wait());
        r.push(self.slave.write_data(ICW4_MODE_8086));
        r.push(io_wait());
        r.push(self.master.write_data(master_mask));
        r.push(self.slave.write_data(slave_mask));
        assert(r@ =~= then_wait(PortWrite { port: 0x20, value: ICW1_INIT_WITH_ICW4 })
                + then_wait(PortWrite { port: 0xa0, value: ICW1_INIT_WITH_ICW4 })
                + then_wait(PortWrite { port: 0x21, value: master_offset })
                + then_wait(PortWrite { port: 0xa1, value: slave_offset })
                + then_wait(PortWrite { port: 0x21, value: 0x4 })
                + then_wait(PortWrite { port: 0xa1, value: 0x2 })
                + then_wait(PortWrite { port: 0x21, value: ICW4_MODE_8086 })
                + then_wait(PortWrite { port: 0xa1, value: ICW4_MODE_8086 })
                + seq![PortWrite { port: 0x21, value: master_mask }, PortWrite { port: 0xa1, value: slave_mask }]);
        r
    }

    /// The writes that acknowledge interrupt line `irq_number`: lines 8 and
    /// up come from the slave, which is told first, then the master.
    pub fn notify_end_of_interrupt(&self, irq_number: u8) -> (r: Vec<PortWrite>)
        requires
            self.wf(),
        ensures
            irq_number >= 8 ==> r@ == seq![
                PortWrite { port: 0xa0, value: END_OF_INTERRUPT },
                PortWrite { port: 0x20, value: END_OF_INTERRUPT },
            ],
            irq_number < 8 ==> r@ == seq![PortWrite { port: 0x20, value: END_OF_INTERRUPT }],
    {
        let mut r: Vec<PortWrite> = Vec::new();
        if irq_number >= 8 {
            r.push(self.slave.write_command(END_OF_INTERRUPT));
        }
        r.push(self.master.write_command(END_OF_INTERRUPT));
        r
    }

    /// The port the master's mask is read from.
    pub fn master_data_port(&self) -> (r: u16)
        requires
            self.wf(),
        ensures
            r == MASTER_PIC_BASE + 1,
    {
        self.master.data.address()
    }

    /// The port the slave's mask is read from.
    pub fn slave_data_port(&self) -> (r: u16)
        requires
            self.wf(),
        ensures
            r == SLAVE_PIC_BASE + 1,
    {
        self.slave.data.address()
    }
}

} // verus!
