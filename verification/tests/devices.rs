use miniature_os::error::{KernelError, MemoryError};
use miniature_os::gdt::{GlobalDescriptorTable, GlobalDescriptorTableDescriptor, PrivilegeLevel, SegmentDescriptor, SegmentSelector};
use miniature_os::idt::{InterruptDescriptorTable, PageFaultErrorCode};
use miniature_os::interrupts::{InterruptIndex, MASTER_PIC_OFFSET, SLAVE_PIC_OFFSET};
use miniature_os::memory::VirtualAddress;
use miniature_os::paging::MappingError;
use miniature_os::pic8259::{ChainedPics, Pic};
use miniature_os::pit8254::Pit;
use miniature_os::port::{io_wait, Port, PortWrite};
use miniature_os::qemu::QemuExitCode;
use miniature_os::register::{msr_halves, msr_value, RFlags, RFlagsReg};
use miniature_os::time::Time;
use miniature_os::uart::SerialPort;

fn w(port: u16, value: u8) -> PortWrite {
    PortWrite { port, value }
}

#[test]
fn port_writes_carry_their_address() {
    let p: Port<u8> = Port::new(0x3f8);
    assert_eq!(p.address(), 0x3f8);
    assert_eq!(p.write(7), w(0x3f8, 7));
    assert_eq!(io_wait(), w(0x80, 0));
}

#[test]
fn serial_port_setup_sequence() {
    let serial = SerialPort::new(0x3f8);
    assert_eq!(
        serial.init(),
        vec![w(0x3f9, 0), w(0x3fb, 0x80), w(0x3f8, 3), w(0x3f9, 0), w(0x3fb, 3), w(0x3fa, 0xc7), w(0x3fc, 0x0b), w(0x3f9, 1)]
    );
    assert_eq!(serial.line_status_port(), 0x3fd);
    assert_eq!(serial.data_port(), 0x3f8);
    assert!(SerialPort::can_send(0x20));
    assert!(!SerialPort::can_send(0x01));
    assert!(SerialPort::can_receive(0x01));
    assert!(!SerialPort::can_receive(0x20));
}

#[test]
fn pics_are_remapped_and_acknowledged() {
    let mut pics = ChainedPics::new();
    let writes = pics.init(MASTER_PIC_OFFSET, SLAVE_PIC_OFFSET, 0xb8, 0x8e);
    assert_eq!(writes.len(), 18);
    assert_eq!(writes[0], w(0x20, 0x11));
    assert_eq!(writes[1], w(0x80, 0));
    assert_eq!(writes[4], w(0x21, 0x20));
    assert_eq!(writes[6], w(0xa1, 0x28));
    assert_eq!(writes[16], w(0x21, 0xb8));
    assert_eq!(writes[17], w(0xa1, 0x8e));
    assert_eq!(pics.notify_end_of_interrupt(1), vec![w(0x20, 0x20)]);
    assert_eq!(pics.notify_end_of_interrupt(12), vec![w(0xa0, 0x20), w(0x20, 0x20)]);
    assert_eq!(pics.disable(), vec![w(0x21, 0xff), w(0xa1, 0xff)]);
    assert_eq!((pics.master_data_port(), pics.slave_data_port()), (0x21, 0xa1));
}

#[test]
fn interrupt_lines_and_vectors() {
    assert_eq!(InterruptIndex::Timer.as_u8(), 0);
    assert_eq!(InterruptIndex::Keyboard.as_usize(), 1);
    assert_eq!(InterruptIndex::Keyboard.as_remapped_idt_number(), 0x21);
}

#[test]
fn pit_writes_go_to_its_ports() {
    let pit = Pit::new();
    assert_eq!(pit.write_data0(0xff), w(0x40, 0xff));
    assert_eq!(pit.write_data1(1), w(0x41, 1));
    assert_eq!(pit.write_data2(2), w(0x42, 2));
    assert_eq!(pit.write_command(0x30), w(0x43, 0x30));
}

#[test]
fn time_from_the_counter() {
    let mut time = Time::new();
    assert_eq!(time.rdtsc_mhz(), 0);
    time.rdtsc_mhz = 3000;
    time.rdtsc_start = 5_000_000;
    assert_eq!(time.future_s(10, 2), 10 + 2 * 1_000_000 * 3000);
    assert_eq!(time.uptime_us(), 5_000_000);
    assert_eq!(time.uptime_ms(), 5_000);
    assert_eq!(time.uptime_s(), 5);
}

#[test]
fn flags_registers_keep_reserved_bits() {
    let flags = RFlagsReg::read(0xffff_ffff_ffff_ffff);
    assert_eq!(flags.bits(), 0x3f7fd5);
    assert_eq!(RFlagsReg::write(0xffff_0000_0000_0002, RFlags::empty()), 0xffff_0000_0000_0002);
    assert_eq!(msr_value(0x1234, 0x5678), 0x1234_0000_5678);
    assert_eq!(msr_halves(0x1234_0000_5678), (0x1234, 0x5678));
}

#[test]
fn descriptor_table_hands_out_selectors() {
    let mut gdt = GlobalDescriptorTable::new();
    let tss = gdt.add_entry(SegmentDescriptor::new_tss_segment(VirtualAddress::new(0x1000)));
    assert_eq!(tss.raw(), 0x8);
    let code = gdt.add_entry(SegmentDescriptor::kernel_code_segment());
    assert_eq!(code.raw(), 0x18);
    let data = gdt.add_entry(SegmentDescriptor::kernel_data_segment());
    assert_eq!(data.raw(), 0x20);
    assert_eq!(SegmentSelector::new(3, PrivilegeLevel::Ring3).raw(), 0x1b);
}

#[test]
fn page_fault_error_codes() {
    let e = PageFaultErrorCode::from_bits_truncate(0x2);
    assert!(e.is_non_present_fault());
    assert!(e.is_write_fault());
    assert!(!PageFaultErrorCode::from_bits_truncate(0x1).is_non_present_fault());
}

#[test]
fn errors_convert() {
    assert!(matches!(KernelError::from(MemoryError::InvalidSize), KernelError::MemoryError(MemoryError::InvalidSize)));
    assert!(matches!(KernelError::from(MappingError::PageAlreadyMapped), KernelError::PagingMappingError(MappingError::PageAlreadyMapped)));
}

#[test]
fn qemu_exit_codes() {
    assert_eq!(QemuExitCode::Success.value(), 0x10);
    assert_eq!(QemuExitCode::Failed.value(), 0x11);
}

#[test]
fn reads_go_to_the_device_ports() {
    let pic = Pic::new(Port::<u8>::new(0x20), Port::<u8>::new(0x21));
    assert_eq!(pic.read_command(), 0x20);
    assert_eq!(pic.read_data(), 0x21);
    let pit = Pit::new();
    assert_eq!(pit.read_data0(), 0x40);
    assert_eq!(pit.read_data1(), 0x41);
    assert_eq!(pit.read_data2(), 0x42);
}

#[test]
fn gdt_descriptor_gives_size_less_one() {
    let mut gdt = GlobalDescriptorTable::new();
    let d = GlobalDescriptorTableDescriptor::new(&gdt, 0x1000);
    assert_eq!(d.size, 7);
    assert_eq!(d.base, 0x1000);
    gdt.add_entry(SegmentDescriptor::kernel_code_segment());
    let d = GlobalDescriptorTableDescriptor::new(&gdt, 0x2000);
    assert_eq!(d.size, 15);
    assert_eq!(gdt.entries()[0], 0);
}

#[test]
fn default_idt_has_only_missing_entries() {
    let idt = InterruptDescriptorTable::default();
    assert_eq!(idt.interrupts.len(), 224);
    assert_eq!(idt.breakpoint.pointer_low, 0);
    assert_eq!(idt.page_fault.segment_selector.0, 0);
    assert!(idt.interrupts.iter().all(|d| d.pointer_low == 0 && d.pointer_high == 0 && d.options.0 == idt.divide_error.options.0));
}
