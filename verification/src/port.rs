//! I/O ports and the writes the device drivers issue to them.
use vstd::prelude::*;
use core::marker::PhantomData;
use vstd::std_specs::cmp::PartialEqSpecImpl;

verus! {

/// An I/O port carrying values of type `T`.
pub struct Port<T> {
    address: u16,
    phantom: PhantomData<T>,
}

impl<T> Clone for Port<T> {
    fn clone(&self) -> (r: Self)
        ensures
            r == *self,
    {
        *self
    }
}

impl<T> Copy for Port<T> {

}

impl<T> Port<T> {
    /// The port's number.
    pub closed spec fn address_spec(&self) -> u16 {
        self.address
    }

    /// The port with number `address`.
    pub fn new(address: u16) -> (r: Self)
        ensures
            r.address_spec() == address,
    {
        Port { address, phantom: PhantomData }
    }

    /// The port's number.
    pub fn address(&self) -> (r: u16)
        ensures
            r == self.address_spec(),
    {
        self.address
    }

    /// The write of `value` to this port.
    pub fn write(&self, value: u8) -> (r: PortWrite)
        ensures
            r == (PortWrite { port: self.address_spec(), value }),
    {
        PortWrite { port: self.address, value }
    }
}

impl<T> PartialEq for Port<T> {
    fn eq(&self, other: &Self) -> (r: bool) {
        self.address == other.address
    }
}

impl<T> PartialEqSpecImpl for Port<T> {
    open spec fn obeys_eq_spec() -> bool {
        true
    }

    open spec fn eq_spec(&self, other: &Self) -> bool {
        self.address_spec() == other.address_spec()
    }
}

/// A byte written to an I/O port; drivers hand out the writes they mean,
/// in order, and the caller performs them.
#[derive(Clone, Copy, Debug, PartialEq, Eq, Structural)]
pub struct PortWrite {
    pub port: u16,
    pub value: u8,
}

/// The write that gives a device time to settle: a zero to the unused
/// port `0x80`.
pub fn io_wait() -> (r: PortWrite)
    ensures
        r == (PortWrite { port: 0x80, value: 0 }),
{
    PortWrite { port: 0x80, value: 0 }
}

} // verus!
