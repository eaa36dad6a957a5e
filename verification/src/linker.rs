//! Addresses the linker script exports: `KERNEL_START`, `KERNEL_END`,
//! the BSS and TLS bounds. The platform glue reads the real symbols;
//! here a symbol is the address it resolved to.
use vstd::prelude::*;

verus! {

/// One linker-script symbol, carried as its resolved address.
#[derive(Debug, Clone, Copy, PartialEq, Eq, Structural)]
pub struct LinkerSymbol {
    pub addr: usize,
}

impl LinkerSymbol {
    pub fn new(addr: usize) -> (r: Self)
        ensures
            r.addr == addr,
    {
        LinkerSymbol { addr }
    }

    /// The symbol's address as a plain integer.
    pub fn as_usize(&self) -> (r: usize)
        ensures
            r == self.addr,
    {
        self.addr
    }
}

} // verus!
