//! Backing stores.

use vstd::prelude::*;

verus! {

/// An owned growable byte buffer backing a region.
pub type VecU8 = Vec<u8>;

/// An anonymous memory mapping supplied by the host: a base address and a
/// length.  Acquisition and release are the host's business; this crate only
/// carries the pair and never touches the mapped bytes itself.
#[derive(Debug)]
pub struct AnonMmap {
    pub addr: usize,
    pub len: usize,
}

/// One physical backing store, shared by every view over it.
#[derive(Debug)]
pub enum Vmem {
    VecU8(VecU8),
    AnonMmap(AnonMmap),
}

impl Vmem {
    /// The length of the region in bytes.
    pub open spec fn spec_len(&self) -> nat {
        match self {
            Vmem::VecU8(v) => v@.len(),
            Vmem::AnonMmap(m) => m.len as nat,
        }
    }

    /// Whether the region is backed by an owned buffer whose bytes this
    /// crate can read and write; a mapped region's bytes live outside it.
    pub open spec fn spec_is_buffer(&self) -> bool {
        self is VecU8
    }

    /// The bytes of a buffer-backed region.
    pub open spec fn spec_bytes(&self) -> Seq<u8>
        recommends
            self.spec_is_buffer(),
    {
        match self {
            Vmem::VecU8(v) => v@,
            Vmem::AnonMmap(m) => Seq::empty(),
        }
    }

    /// A region over a fresh zero-filled buffer of `len` bytes.
    pub fn new_vec_u8(len: usize) -> (r: Self)
        ensures
            r.spec_is_buffer(),
            r.spec_len() == len,
            r.spec_bytes() == Seq::new(len as nat, |i: int| 0u8),
    {
        let mut v: Vec<u8> = Vec::new();
        while v.len() < len
            invariant
                v@.len() <= len,
                v@ == Seq::new(v@.len(), |i: int| 0u8),
            decreases len - v.len(),
        {
            v.push(0u8);
            proof {
                assert(v@ =~= Seq::new(v@.len(), |i: int| 0u8));
            }
        }
        proof {
            assert(v@ =~= Seq::new(len as nat, |i: int| 0u8));
        }
        Vmem::VecU8(v)
    }

    /// A region over a caller-supplied buffer.
    pub fn from_vec_u8(vec: VecU8) -> (r: Self)
        ensures
            r.spec_is_buffer(),
            r.spec_bytes() == vec@,
            r.spec_len() == vec@.len(),
    {
        Vmem::VecU8(vec)
    }

    /// A region over a host-supplied anonymous mapping.
    pub fn from_anon_mmap(anon_mmap: AnonMmap) -> (r: Self)
        ensures
            !r.spec_is_buffer(),
            r.spec_len() == anon_mmap.len,
            (r matches Vmem::AnonMmap(m) && m.addr == anon_mmap.addr),
    {
        Vmem::AnonMmap(anon_mmap)
    }

    /// The length of the region in bytes.
    pub fn len(&self) -> (r: usize)
        ensures
            r == self.spec_len(),
    {
        match self {
            Vmem::VecU8(v) => v.len(),
            Vmem::AnonMmap(m) => m.len,
        }
    }
}

} // verus!
