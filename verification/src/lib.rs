//! Core of a supervisor-mode RISC-V kernel, modelled over plain data so that
//! its boot-time logic — memory layout, page-table mapping, trap dispatch,
//! PLIC and UART protocol — can be verified.
use vstd::prelude::*;
use vstd::string::StringSliceAdditionalSpecFns;

pub mod addressing;
pub mod bitmap;
pub mod control_registers;
pub mod entries;
pub mod interrupts;
pub mod pagetable;
pub mod mapping;
pub mod mem;
pub mod linker;
pub mod paging;
pub mod plic;
pub mod timing;
pub mod uart;

verus! {

/// The supervisor context index of a hart on the `virt` platform:
/// context `1 + 2 * hart`.
pub fn context(id: usize) -> (r: usize)
    requires
        id < usize::MAX / 2,
    ensures
        r == 1 + 2 * id,
{
    1 + 2 * id
}

/// The supervisor context of the current hart on the `virt` platform.
pub fn current_context(hart_id: usize) -> (r: usize)
    requires
        hart_id < usize::MAX / 2,
    ensures
        r == 1 + 2 * hart_id,
{
    1 + 2 * hart_id
}

/// A device driver names the `compatible` strings it matches in the
/// device tree.
pub trait Compat {
    fn compatible() -> Vec<String>;
}

/// One cell of the boot-time list of named regions.
#[derive(Debug)]
pub struct LLVecEntry<T> {
    pub data: T,
}

/// The boot-time vector of named memory regions: a list written once
/// during early boot and then read by name.
#[derive(Debug)]
pub struct LLVec<T> {
    pub entries: Vec<LLVecEntry<T>>,
}

impl<T> LLVecEntry<T> {
    pub fn new(data: T) -> (r: Self)
        ensures
            r.data == data,
    {
        LLVecEntry { data }
    }

    pub fn read(&self) -> (r: &T)
        ensures
            *r == self.data,
    {
        &self.data
    }

    pub fn write(&mut self, data: T)
        ensures
            final(self).data == data,
    {
        self.data = data;
    }
}

impl<T> LLVec<T> {
    pub fn new() -> (r: Self)
        ensures
            r.entries@.len() == 0,
    {
        LLVec { entries: Vec::new() }
    }

    pub fn len(&self) -> (r: usize)
        ensures
            r == self.entries@.len(),
    {
        self.entries.len()
    }

    /// Install the first element; the list must still be empty.
    pub fn initialize(&mut self, data: T)
        requires
            old(self).entries@.len() == 0,
        ensures
            final(self).entries@.len() == 1,
            final(self).entries@[0].data == data,
    {
        self.entries.push(LLVecEntry::new(data));
    }

    /// Append behind the existing elements; the list must have been
    /// initialized.
    pub fn push(&mut self, data: T)
        requires
            old(self).entries@.len() >= 1,
            old(self).entries@.len() < usize::MAX,
        ensures
            final(self).entries@.len() == old(self).entries@.len() + 1,
            final(self).entries@[old(self).entries@.len() as int].data == data,
            forall|i: int|
                0 <= i < old(self).entries@.len() ==> final(self).entries@[i] == old(
                    self,
                ).entries@[i],
    {
        self.entries.push(LLVecEntry::new(data));
    }

    /// Drop an interior element: neither the first nor the last can go.
    pub fn remove(&mut self, index: usize)
        requires
            1 <= index,
            index + 1 < old(self).entries@.len(),
        ensures
            final(self).entries@ == old(self).entries@.remove(index as int),
    {
        self.entries.remove(index);
    }

    /// The element at `index`.
    pub fn get(&self, index: usize) -> (r: &LLVecEntry<T>)
        requires
            index < self.entries@.len(),
        ensures
            *r == self.entries@[index as int],
    {
        &self.entries[index]
    }

    /// The element at `index`, writable in place.
    pub fn get_mut(&mut self, index: usize) -> (r: &mut LLVecEntry<T>)
        requires
            index < old(self).entries@.len(),
        ensures
            *r == old(self).entries@[index as int],
            final(self).entries@ == old(self).entries@.update(index as int, *final(r)),
    {
        &mut self.entries[index]
    }
}

impl LLVec<mem::IDedMemRange> {
    /// Look a region up by its name: the first entry carrying it.
    pub fn find_id(&self, id: &str) -> (r: Option<&LLVecEntry<mem::IDedMemRange>>)
        ensures
            (r is Some) <==> (exists|i: int|
                0 <= i < self.entries@.len() && (#[trigger] self.entries@[i]).data.spec_id()
                    == id@),
            match r {
                Some(e) => {
                    &&& exists|i: int|
                        0 <= i < self.entries@.len() && *e == #[trigger] self.entries@[i] && (
                        forall|j: int|
                            0 <= j < i ==> (#[trigger] self.entries@[j]).data.spec_id() != id@)
                    &&& e.data.spec_id() == id@
                },
                None => true,
            },
    {
        let mut entry_num: usize = 0;
        while entry_num < self.entries.len()
            invariant
                entry_num <= self.entries@.len(),
                forall|i: int|
                    0 <= i < entry_num ==> (#[trigger] self.entries@[i]).data.spec_id() != id@,
            decreases self.entries@.len() - entry_num,
        {
            if self.get(entry_num).read().has_id(id) {
                return Some(self.get(entry_num));
            }
            entry_num = entry_num + 1;
        }
        None
    }
}

/// Byte-wise string equality, which coincides with equality of the
/// character views.
pub fn str_eq(a: &str, b: &str) -> (r: bool)
    ensures
        r == (a@ == b@),
{
    proof {
        broadcast use vstd::utf8::encode_utf8_decode_utf8;

    }
    let ab = a.as_bytes();
    let bb = b.as_bytes();
    if ab.len() != bb.len() {
        return false;
    }
    let mut i: usize = 0;
    while i < ab.len()
        invariant
            i <= ab.len(),
            ab.len() == bb.len(),
            ab@ == a.spec_bytes(),
            bb@ == b.spec_bytes(),
            forall|j: int| 0 <= j < i ==> ab@[j] == bb@[j],
        decreases ab.len() - i,
    {
        if ab[i] != bb[i] {
            proof {
                assert(a.spec_bytes() != b.spec_bytes());
            }
            return false;
        }
        i = i + 1;
    }
    proof {
        assert(a.spec_bytes() =~= b.spec_bytes());
        assert(vstd::utf8::decode_utf8(vstd::utf8::encode_utf8(a@)) == a@);
        assert(vstd::utf8::decode_utf8(vstd::utf8::encode_utf8(b@)) == b@);
    }
    true
}

} // verus!
