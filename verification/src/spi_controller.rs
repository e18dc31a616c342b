//! The byte sink behind the display driver: a blocking SPI device or a
//! DMA transfer engine, reduced to one write operation.

use vstd::prelude::*;

verus! {

/// Writes a buffer of bytes out over the display link. An implementation
/// names in `write_allowed` what it asks of its callers; a plain device
/// asks nothing.
pub trait SpiController {
    spec fn write_allowed(&self, buffer: &[u8]) -> bool;

    fn write(&mut self, buffer: &[u8])
        requires
            old(self).write_allowed(buffer),
    ;
}

/// A controller that hands each buffer to a caller-supplied transfer
/// routine, for hosts that drive the link by DMA.
pub struct DmaTransferSpiController<F> where F: FnMut(&[u8]) {
    do_write: F,
}

impl<F> DmaTransferSpiController<F> where F: FnMut(&[u8]) {
    pub fn new(do_write: F) -> (r: Self)
        ensures
            r.transfer() == do_write,
    {
        Self { do_write }
    }

    /// The transfer routine this controller hands buffers to.
    pub closed spec fn transfer(&self) -> F {
        self.do_write
    }
}

impl<F> SpiController for DmaTransferSpiController<F> where F: FnMut(&[u8]) {
    /// A write is allowed whenever the transfer routine accepts the buffer.
    open spec fn write_allowed(&self, buffer: &[u8]) -> bool {
        call_requires(self.transfer(), (buffer,))
    }

    fn write(&mut self, buffer: &[u8]) {
        (self.do_write)(buffer);
    }
}

} // verus!
