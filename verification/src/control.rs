//! Streams of fixed-size elements that the file keeps for its own use.
use std::marker::PhantomData;
use std::rc::Rc;
use vstd::cell::invcell::InvCell;
use vstd::prelude::*;
use vstd::slice::slice_subrange;

use crate::cache::CfContiguousCache;
use crate::cfcore::CfCore;
use crate::error::{CfErrorInfo, CfResult};
use crate::pod::Pod;
use crate::sector::{chain_error, chain_nth, chain_stop, CfAnyCore, CfAnySectorIdChain};

verus! {

/// The bytes of the `index`-th element of size `size` in the stream whose
/// chain starts at `first`: elements fill the sectors of the chain one after
/// the other, as many per sector as fit.
pub open spec fn spec_element_bytes(core: CfCore, first: u32, size: nat, index: nat) -> Option<
    Seq<u8>,
> {
    let eps = core.spec_sector_size() / size;
    match chain_nth(core, first, index / eps) {
        None => None,
        Some(id) => match core.spec_sector(id) {
            None => None,
            Some(s) => Some(s.subrange(((index % eps) * size) as int, ((index % eps) * size + size) as int)),
        },
    }
}

/// May reading the `index`-th element of size `size` of the stream whose
/// chain starts at `first` fail with an error of kind `kind`? Where the chain
/// does not reach the element's sector: `OutOfRange` with the sector's
/// position, or the error met walking the chain (a walk that failed once is
/// over, so later reads past it get `OutOfRange`). Else the error met looking
/// up the sector.
pub open spec fn spec_element_error(
    core: CfCore,
    first: u32,
    size: nat,
    index: nat,
    kind: CfErrorInfo,
) -> bool {
    let eps = core.spec_sector_size() / size;
    match chain_nth(core, first, index / eps) {
        None => kind == CfErrorInfo::OutOfRange((index / eps) as usize) || chain_error(
            core,
            first,
            index / eps,
            kind,
        ),
        Some(id) => core.spec_sector_error(id, kind),
    }
}

/// Two cores that hold the same file with the same version have the same
/// chains.
pub proof fn lemma_chain_congruent(c1: CfCore, c2: CfCore, first: u32, k: nat)
    requires
        c1.spec_file() == c2.spec_file(),
        c1.spec_version() == c2.spec_version(),
    ensures
        chain_nth(c1, first, k) == chain_nth(c2, first, k),
        chain_stop(c1, first, k) == chain_stop(c2, first, k),
    decreases k,
{
    if k > 0 {
        lemma_chain_congruent(c1, c2, first, (k - 1) as nat);
    }
}

/// Two cores that hold the same file with the same version hold the same
/// elements.
pub proof fn lemma_element_bytes_congruent(
    c1: CfCore,
    c2: CfCore,
    first: u32,
    size: nat,
    index: nat,
)
    requires
        c1.spec_file() == c2.spec_file(),
        c1.spec_version() == c2.spec_version(),
    ensures
        spec_element_bytes(c1, first, size, index) == spec_element_bytes(c2, first, size, index),
        forall|kind: CfErrorInfo|
            spec_element_error(c1, first, size, index, kind) == spec_element_error(
                c2,
                first,
                size,
                index,
                kind,
            ),
{
    let eps = c1.spec_sector_size() / size;
    lemma_chain_congruent(c1, c2, first, index / eps);
}

/// A stream that the file keeps for its own use (the directory, the mini FAT
/// and the mini stream), read as an array of elements of type `T`.
///
/// The sector numbers of its chain are cached as they are met; the cache sits
/// in a cell, so that reading takes a shared reference. A walk that fails is
/// over: later reads past that point get `OutOfRange` (see
/// `spec_element_error`).
pub struct CfControlStream<T: Pod> {
    _marker: PhantomData<T>,
    cache: InvCell<
        Option<CfContiguousCache<CfCore>>,
        spec_fn(Option<CfContiguousCache<CfCore>>) -> bool,
    >,
    element_per_sector: usize,
    core: Rc<CfCore>,
    first_sector_id: u32,
}

impl<T: Pod> CfControlStream<T> {
    /// What the cache cell may hold: nothing, or a cache of the stream's own
    /// chain.
    pub closed spec fn cache_pred(core: &CfCore, first: u32) -> spec_fn(
        Option<CfContiguousCache<CfCore>>,
    ) -> bool {
        |c: Option<CfContiguousCache<CfCore>>|
            c matches Some(cache) ==> cache.wf() && cache.spec_core() == *core && cache.spec_first()
                == first
    }

    #[verifier::type_invariant]
    spec fn inv(self) -> bool {
        &&& self.cache.predicate() == Self::cache_pred(&*self.core, self.first_sector_id)
        &&& T::spec_size_of() > 0
        &&& T::spec_size_of() <= self.core.spec_sector_size()
        &&& self.element_per_sector == self.core.spec_sector_size() / T::spec_size_of()
    }

    /// The core that holds the stream.
    pub closed spec fn spec_core(&self) -> CfCore {
        *self.core
    }

    /// The first sector of the stream's chain.
    pub closed spec fn spec_first(&self) -> u32 {
        self.first_sector_id
    }

    /// The bytes of the `index`-th element.
    pub open spec fn spec_element(&self, index: nat) -> Option<Seq<u8>> {
        spec_element_bytes(self.spec_core(), self.spec_first(), T::spec_size_of(), index)
    }

    /// Reading the `index`-th element does not overflow the count of the
    /// cache: its sector's position is below `usize::MAX`, or the chain ends
    /// before it.
    pub open spec fn spec_index_ok(&self, index: nat) -> bool {
        let eps = self.spec_core().spec_sector_size() / T::spec_size_of();
        index / eps < usize::MAX || chain_nth(self.spec_core(), self.spec_first(), index / eps)
            is None
    }

    /// Any `u32` index of a stream whose elements fit twice in a sector is
    /// fine.
    pub proof fn lemma_index_ok(&self, index: nat)
        requires
            index <= u32::MAX,
            T::spec_size_of() > 0,
            2 * T::spec_size_of() <= self.spec_core().spec_sector_size(),
        ensures
            self.spec_index_ok(index),
    {
        let eps = self.spec_core().spec_sector_size() / T::spec_size_of();
        assert(eps >= 2) by (nonlinear_arith)
            requires
                eps == self.spec_core().spec_sector_size() / T::spec_size_of(),
                2 * T::spec_size_of() <= self.spec_core().spec_sector_size(),
                T::spec_size_of() > 0,
        ;
        assert(index / eps < u32::MAX) by (nonlinear_arith)
            requires
                eps >= 2,
                index <= u32::MAX,
        ;
    }

    /// May reading the `index`-th element fail with an error of kind `kind`?
    pub open spec fn spec_error(&self, index: nat, kind: CfErrorInfo) -> bool {
        spec_element_error(self.spec_core(), self.spec_first(), T::spec_size_of(), index, kind)
    }

    /// The core that holds the stream.
    pub fn cf_core(&self) -> (r: Rc<CfCore>)
        ensures
            *r == self.spec_core(),
    {
        self.core.clone()
    }

    /// The stream whose chain starts at `sector_id`.
    pub fn new(sector_id: u32, core: Rc<CfCore>) -> (r: Self)
        requires
            T::spec_size_of() > 0,
            T::spec_size_of() <= core.spec_sector_size(),
        ensures
            r.spec_core() == *core,
            r.spec_first() == sector_id,
    {
        let size = T::size_of();
        let chain = CfAnySectorIdChain::new(sector_id, core.clone());
        let cache = CfContiguousCache::new(chain);
        let element_per_sector = core.sector_size() / size;
        CfControlStream {
            _marker: PhantomData,
            cache: InvCell::new(Some(cache), Ghost(Self::cache_pred(&*core, sector_id))),
            element_per_sector,
            core,
            first_sector_id: sector_id,
        }
    }

    /// The bytes of the `index`-th element of the stream; the error is
    /// `OutOfRange` with the position of the sector in the chain where the
    /// chain is shorter, else the error met walking the chain or looking up
    /// the sector.
    pub fn element_bytes(&self, index: usize) -> (r: CfResult<&[u8]>)
        requires
            self.spec_index_ok(index as nat),
        ensures
            r is Ok <==> self.spec_element(index as nat) is Some,
            r matches Ok(s) ==> self.spec_element(index as nat) == Some(s@),
            r matches Ok(s) ==> s@.len() == T::spec_size_of(),
            r matches Err(e) ==> self.spec_error(index as nat, e.kind),
    {
        proof {
            use_type_invariant(self);
        }
        let size = T::size_of();
        let eps = self.element_per_sector;
        assert(eps >= 1) by (nonlinear_arith)
            requires
                eps == self.core.spec_sector_size() / T::spec_size_of(),
                T::spec_size_of() <= self.core.spec_sector_size(),
                T::spec_size_of() > 0,
        ;
        let nth_sector = index / eps;
        let mut cache = match self.cache.replace(None) {
            Some(cache) => cache,
            None => CfContiguousCache::new(
                CfAnySectorIdChain::new(self.first_sector_id, self.core.clone()),
            ),
        };
        let sector_id = cache.nth_sector_id(nth_sector);
        self.cache.set(Some(cache));
        let sector_id = sector_id?;
        let sector = self.core.locate_sector(sector_id)?;
        assert((index % eps) * size + size <= eps * size <= sector@.len()) by (nonlinear_arith)
            requires
                eps == sector@.len() as int / (size as int),
                size > 0,
                index % eps < eps,
        ;
        let offset = (index % eps) * size;
        Ok(slice_subrange(sector, offset, offset + size))
    }

    /// The `index`-th element of the stream, decoded from its bytes.
    pub fn nth_element(&self, index: usize) -> (r: CfResult<T>)
        requires
            self.spec_index_ok(index as nat),
        ensures
            r is Ok <==> self.spec_element(index as nat) is Some,
            r matches Ok(v) ==> self.spec_element(index as nat) matches Some(b) && v
                == T::spec_decode(b),
            r matches Err(e) ==> self.spec_error(index as nat, e.kind),
    {
        proof {
            use_type_invariant(self);
        }
        let bytes = self.element_bytes(index)?;
        Ok(T::decode(bytes))
    }
}

} // verus!
