//! The mini stream and the mini FAT: small streams kept in 64-byte sectors.
use std::rc::Rc;
use vstd::prelude::*;

use crate::cfcore::CfCore;
use crate::control::CfControlStream;
use crate::error::{CfErrorInfo, CfResult};
use crate::pod::Pod;
use crate::sector::CfAnyCore;

verus! {

/// Number of a mini sector in the mini stream (zero-based).
pub type CfMiniSectorId = u32;

/// The stream that holds the mini FAT: one 32-bit entry per mini sector,
/// the next mini sector of its chain.
pub type CfMiniFat = CfControlStream<u32>;

/// The stream that holds the mini sectors, 64 bytes each.
pub type CfMiniStream = CfControlStream<[u8; 64]>;

/// The mini stream and the mini FAT together: a core of 64-byte sectors
/// inside the file, read like the file itself.
pub struct CfMiniCore {
    mini_stream: CfMiniStream,
    mini_fat: CfMiniFat,
}

impl CfMiniCore {
    pub closed spec fn spec_mini_stream(&self) -> CfMiniStream {
        self.mini_stream
    }

    pub closed spec fn spec_mini_fat(&self) -> CfMiniFat {
        self.mini_fat
    }

    /// The core of the file that holds the mini stream.
    pub fn cf_core(&self) -> (r: Rc<CfCore>)
        ensures
            *r == self.spec_mini_stream().spec_core(),
    {
        self.mini_stream.cf_core()
    }

    pub fn new(mini_stream: CfMiniStream, mini_fat: CfMiniFat) -> (r: Self)
        ensures
            r.spec_mini_stream() == mini_stream,
            r.spec_mini_fat() == mini_fat,
    {
        CfMiniCore { mini_stream, mini_fat }
    }
}

impl CfAnyCore for CfMiniCore {
    open spec fn spec_sector_size(&self) -> nat {
        64
    }

    open spec fn spec_next(&self, id: u32) -> Option<u32> {
        match self.spec_mini_fat().spec_element(id as nat) {
            Some(b) => Some(u32::spec_decode(b)),
            None => None,
        }
    }

    open spec fn spec_sector(&self, id: u32) -> Option<Seq<u8>> {
        self.spec_mini_stream().spec_element(id as nat)
    }

    open spec fn spec_next_error(&self, id: u32, kind: CfErrorInfo) -> bool {
        self.spec_mini_fat().spec_error(id as nat, kind)
    }

    open spec fn spec_sector_error(&self, id: u32, kind: CfErrorInfo) -> bool {
        self.spec_mini_stream().spec_error(id as nat, kind)
    }

    fn sector_size(&self) -> (r: usize) {
        64
    }

    /// The mini FAT entry of mini sector `sector_id`.
    fn next_sector_id(&self, sector_id: u32) -> (r: CfResult<u32>) {
        proof {
            crate::cfcore::lemma_core_sector_size(self.mini_fat.spec_core());
            self.mini_fat.lemma_index_ok(sector_id as nat);
        }
        self.mini_fat.nth_element(sector_id as usize)
    }

    /// The bytes of mini sector `sector_id` of the mini stream.
    fn locate_sector(&self, sector_id: u32) -> (r: CfResult<&[u8]>) {
        proof {
            crate::cfcore::lemma_core_sector_size(self.mini_stream.spec_core());
            self.mini_stream.lemma_index_ok(sector_id as nat);
        }
        self.mini_stream.element_bytes(sector_id as usize)
    }
}

} // verus!
