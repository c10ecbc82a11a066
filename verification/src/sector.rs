//! Chains of sectors: the sector numbers a chain visits and the bytes it holds.
use std::rc::Rc;
use vstd::prelude::*;

use crate::cfcore::CfCore;
use crate::error::{CfError, CfErrorInfo, CfResult};
use crate::mini::CfMiniCore;
use vstd::arithmetic::div_mod::lemma_fundamental_div_mod_converse;

verus! {

/// The sector numbers of a chain of the file.
pub type CfSectorIdChain = CfAnySectorIdChain<CfCore>;

/// The bytes of a chain of the file.
pub type CfSectorChain = CfAnySectorChain<CfCore>;

/// The mini sector numbers of a chain of the mini stream.
pub type CfMiniSectorIdChain = CfAnySectorIdChain<CfMiniCore>;

/// The bytes of a chain of the mini stream.
pub type CfMiniSectorChain = CfAnySectorChain<CfMiniCore>;

/// The first reserved sector number: every number from it on ends a chain.
pub const CF_MAXREGSECT: u32 = 0xFFFFFFFA;

/// The FAT entry of the last sector of a chain.
pub const CF_ENDOFCHAIN: u32 = 0xFFFFFFFE;

/// Number of a sector (zero-based, sector `#0` follows the header).
pub type CfSectorId = u32;

/// What the file core and the mini core have in common: sectors of a fixed
/// size, and a table that chains them.
pub trait CfAnyCore {
    /// The size of a sector, in bytes.
    spec fn spec_sector_size(&self) -> nat;

    /// The sector that follows `id` in its chain, or `None` where looking it
    /// up fails.
    spec fn spec_next(&self, id: u32) -> Option<u32>;

    /// The bytes of sector `id`, or `None` where it cannot be found.
    spec fn spec_sector(&self, id: u32) -> Option<Seq<u8>>;

    /// May looking up the successor of `id` fail with an error of kind
    /// `kind`? (Where `spec_next(id)` is `None`.)
    spec fn spec_next_error(&self, id: u32, kind: CfErrorInfo) -> bool;

    /// May looking up sector `id` fail with an error of kind `kind`?
    /// (Where `spec_sector(id)` is `None`.)
    spec fn spec_sector_error(&self, id: u32, kind: CfErrorInfo) -> bool;

    fn sector_size(&self) -> (r: usize)
        ensures
            r == self.spec_sector_size(),
            r > 0,
    ;

    fn next_sector_id(&self, sector_id: u32) -> (r: CfResult<u32>)
        ensures
            r is Ok <==> self.spec_next(sector_id) is Some,
            r matches Ok(n) ==> self.spec_next(sector_id) == Some(n),
            r matches Err(e) ==> self.spec_next_error(sector_id, e.kind),
    ;

    fn locate_sector(&self, sector_id: u32) -> (r: CfResult<&[u8]>)
        ensures
            r is Ok <==> self.spec_sector(sector_id) is Some,
            r matches Ok(s) ==> self.spec_sector(sector_id) == Some(s@),
            r matches Ok(s) ==> s@.len() == self.spec_sector_size(),
            r matches Err(e) ==> self.spec_sector_error(sector_id, e.kind),
    ;
}


/// The `k`-th sector number (from 0) of the chain that starts at `first`:
/// the chain follows `spec_next` and ends at the first number that is
/// reserved (from `CF_MAXREGSECT` on) or whose successor cannot be read.
pub open spec fn chain_nth<C: CfAnyCore>(core: C, first: u32, k: nat) -> Option<u32>
    decreases k,
{
    if k == 0 {
        if first < CF_MAXREGSECT {
            Some(first)
        } else {
            None
        }
    } else {
        match chain_nth(core, first, (k - 1) as nat) {
            Some(id) => match core.spec_next(id) {
                Some(n) => if n < CF_MAXREGSECT {
                    Some(n)
                } else {
                    None
                },
                None => None,
            },
            None => None,
        }
    }
}

/// How the chain that starts at `first` stops before position `k`, where
/// it has fewer than `k + 1` sectors: `None` where it ends regularly (a
/// reserved number), else the sector whose successor could not be looked up.
pub open spec fn chain_stop<C: CfAnyCore>(core: C, first: u32, k: nat) -> Option<u32>
    decreases k,
{
    if k == 0 {
        None
    } else {
        match chain_nth(core, first, (k - 1) as nat) {
            None => chain_stop(core, first, (k - 1) as nat),
            Some(id) => match core.spec_next(id) {
                None => Some(id),
                Some(_) => None,
            },
        }
    }
}

/// The stop of a chain is the same from every position after its end.
pub proof fn lemma_chain_stop_stays<C: CfAnyCore>(core: C, first: u32, k: nat, j: nat)
    requires
        chain_nth(core, first, k) is None,
        k <= j,
    ensures
        chain_stop(core, first, j) == chain_stop(core, first, k),
    decreases j - k,
{
    if k < j {
        lemma_chain_ended(core, first, k, (j - 1) as nat);
        lemma_chain_stop_stays(core, first, k, (j - 1) as nat);
    }
}

/// May asking for position `k` of a chain that has fewer sectors fail with
/// an error of kind `kind`: the error met walking it, or `OutOfRange(k)`
/// where it ends regularly?
pub open spec fn chain_error<C: CfAnyCore>(core: C, first: u32, k: nat, kind: CfErrorInfo) -> bool {
    match chain_stop(core, first, k) {
        Some(id) => core.spec_next_error(id, kind),
        None => kind == CfErrorInfo::OutOfRange(k as usize),
    }
}

/// Once a chain has ended, it stays ended.
pub proof fn lemma_chain_ended<C: CfAnyCore>(core: C, first: u32, k: nat, j: nat)
    requires
        chain_nth(core, first, k) is None,
        k <= j,
    ensures
        chain_nth(core, first, j) is None,
    decreases j - k,
{
    if k < j {
        lemma_chain_ended(core, first, k, (j - 1) as nat);
    }
}

/// Where a walk along a chain stands.
#[derive(Debug, PartialEq, Eq, Structural)]
pub enum CfState<T> {
    /// Nothing was produced yet.
    Start,
    /// The last sector number produced.
    Current(T),
    /// The chain is over.
    End,
}

/// The sector numbers of a chain, produced one at a time by `next`.
pub struct CfAnySectorIdChain<C: CfAnyCore> {
    state: CfState<CfSectorId>,
    first_sector_id: CfSectorId,
    core: Rc<C>,
}

impl<C: CfAnyCore> CfAnySectorIdChain<C> {
    /// The walk only stands on regular sector numbers.
    #[verifier::type_invariant]
    spec fn inv(self) -> bool {
        self.state matches CfState::Current(id) ==> id < CF_MAXREGSECT
    }

    pub closed spec fn spec_state(&self) -> CfState<u32> {
        self.state
    }

    pub closed spec fn spec_first(&self) -> u32 {
        self.first_sector_id
    }

    pub closed spec fn spec_core(&self) -> C {
        *self.core
    }

    /// The walk has produced exactly the first `k` numbers of its chain.
    pub open spec fn produced(&self, k: nat) -> bool {
        match self.spec_state() {
            CfState::Start => k == 0,
            CfState::Current(id) => k > 0 && chain_nth(self.spec_core(), self.spec_first(), (k - 1) as nat)
                == Some(id),
            CfState::End => chain_nth(self.spec_core(), self.spec_first(), k) is None,
        }
    }

    /// One step: the walk reached sector number `n`.
    pub open spec fn spec_step(n: u32, r: Option<CfResult<u32>>, state: CfState<u32>) -> bool {
        if n < CF_MAXREGSECT {
            (r matches Some(Ok(m)) && m == n) && state == CfState::Current(n)
        } else {
            r is None && state == CfState::<u32>::End
        }
    }

    /// A walk of the chain that starts at `sector_id`.
    pub fn new(sector_id: CfSectorId, core: Rc<C>) -> (r: Self)
        ensures
            r.spec_state() == CfState::<u32>::Start,
            r.spec_first() == sector_id,
            r.spec_core() == *core,
            r.produced(0),
    {
        CfAnySectorIdChain { state: CfState::Start, first_sector_id: sector_id, core }
    }

    /// The next sector number of the chain; `None` once the chain is over;
    /// an error, after which the chain is over, where the successor of a
    /// sector cannot be read.
    pub fn next(&mut self) -> (r: Option<CfResult<CfSectorId>>)
        ensures
            final(self).spec_first() == old(self).spec_first(),
            final(self).spec_core() == old(self).spec_core(),
            match old(self).spec_state() {
                CfState::End => r is None && final(self).spec_state() == CfState::<u32>::End,
                CfState::Start => Self::spec_step(old(self).spec_first(), r, final(self).spec_state()),
                CfState::Current(id) => match old(self).spec_core().spec_next(id) {
                    None => (r matches Some(Err(e)) && old(self).spec_core().spec_next_error(
                        id,
                        e.kind,
                    )) && final(self).spec_state() == CfState::<u32>::End,
                    Some(n) => Self::spec_step(n, r, final(self).spec_state()),
                },
            },
            forall|k: nat|
                #[trigger] old(self).produced(k) ==> match r {
                    Some(Ok(n)) => chain_nth(old(self).spec_core(), old(self).spec_first(), k)
                        == Some(n) && final(self).produced(k + 1),
                    Some(Err(e)) => chain_nth(old(self).spec_core(), old(self).spec_first(), k) is None
                        && final(self).produced(k) && chain_error(
                        old(self).spec_core(),
                        old(self).spec_first(),
                        k,
                        e.kind,
                    ) && chain_stop(old(self).spec_core(), old(self).spec_first(), k) is Some,
                    None => chain_nth(old(self).spec_core(), old(self).spec_first(), k) is None
                        && final(self).produced(k) && (old(self).spec_state() != CfState::<u32>::End
                        ==> chain_stop(old(self).spec_core(), old(self).spec_first(), k) is None),
                },
    {
        proof {
            use_type_invariant(&*self);
        }
        let next_sector_id = match self.state {
            CfState::Start => self.first_sector_id,
            CfState::Current(sector_id) => {
                match self.core.next_sector_id(sector_id) {
                    Ok(next_sector_id) => next_sector_id,
                    Err(error) => {
                        self.state = CfState::End;
                        return Some(Err(error));
                    },
                }
            },
            CfState::End => return None,
        };
        if next_sector_id < CF_MAXREGSECT {
            self.state = CfState::Current(next_sector_id);
            return Some(Ok(next_sector_id));
        }
        self.state = CfState::End;
        None
    }
}


/// The chain that starts at `first` has exactly `k` sectors and ends
/// regularly: its last sector is followed by a reserved number (or, for
/// `k == 0`, `first` itself is reserved).
pub open spec fn chain_ends_at<C: CfAnyCore>(core: C, first: u32, k: nat) -> bool {
    if k == 0 {
        first >= CF_MAXREGSECT
    } else {
        chain_nth(core, first, (k - 1) as nat) matches Some(id) && core.spec_next(id) matches Some(
            n,
        ) && n >= CF_MAXREGSECT
    }
}

/// The byte at position `p` of the stream that the chain starting at
/// `first` holds: the sectors of the chain, one after the other.
pub open spec fn stream_byte<C: CfAnyCore>(core: C, first: u32, p: nat) -> Option<u8> {
    let ss = core.spec_sector_size();
    match chain_nth(core, first, p / ss) {
        Some(id) => match core.spec_sector(id) {
            Some(s) => Some(s[(p % ss) as int]),
            None => None,
        },
        None => None,
    }
}

/// May reading position `p` of the stream fail with an error of kind
/// `kind`: the error of the walk of the chain where the chain does not reach
/// it (`OutOfRange` with the sector's position where the chain ends first),
/// else the error met looking up its sector?
pub open spec fn stream_error<C: CfAnyCore>(core: C, first: u32, p: nat, kind: CfErrorInfo) -> bool {
    let k = p / core.spec_sector_size();
    match chain_nth(core, first, k) {
        None => chain_error(core, first, k, kind),
        Some(id) => core.spec_sector_error(id, kind),
    }
}

/// The byte at position `base + i` of the stream.
pub open spec fn stream_byte_from<C: CfAnyCore>(core: C, first: u32, base: nat, i: int) -> Option<
    u8,
> {
    stream_byte(core, first, (base + i) as nat)
}

/// The stream ends regularly at position `b`, a sector boundary.
pub open spec fn stream_ends_at<C: CfAnyCore>(core: C, first: u32, b: nat) -> bool {
    let ss = core.spec_sector_size();
    b % ss == 0 && chain_ends_at(core, first, b / ss)
}

/// Position `p` of the stream is in sector `k` at offset `off`.
pub proof fn lemma_position(k: nat, off: nat, ss: nat)
    requires
        ss > 0,
        off < ss,
    ensures
        (k * ss + off) / ss == k,
        (k * ss + off) % ss == off,
{
    lemma_fundamental_div_mod_converse((k * ss + off) as int, ss as int, k as int, off as int);
}

/// The bytes of a chain of sectors (a stream), read in order.
pub struct CfAnySectorChain<C: CfAnyCore> {
    chain: CfAnySectorIdChain<C>,
    /// The sector being read and how many of its bytes were read already.
    remaining: Option<(CfSectorId, usize)>,
    core: Rc<C>,
    taken: Ghost<nat>,
    position: Ghost<nat>,
}

impl<C: CfAnyCore> CfAnySectorChain<C> {
    pub closed spec fn spec_core(&self) -> C {
        *self.core
    }

    pub closed spec fn spec_first(&self) -> u32 {
        self.chain.spec_first()
    }

    /// How many bytes of the stream were read so far.
    pub closed spec fn spec_position(&self) -> nat {
        self.position@
    }

    pub closed spec fn wf(&self) -> bool {
        let ss = self.core.spec_sector_size();
        let k = self.taken@;
        &&& self.chain.spec_core() == *self.core
        &&& self.chain.produced(k)
        &&& self.chain.spec_state() == CfState::<u32>::End ==> chain_ends_at(
            *self.core,
            self.chain.spec_first(),
            k,
        )
        &&& match self.remaining {
            Some((id, off)) => {
                &&& k > 0
                &&& chain_nth(*self.core, self.chain.spec_first(), (k - 1) as nat) == Some(id)
                &&& 0 < off < ss
                &&& self.core.spec_sector(id) matches Some(s) && s.len() == ss
                &&& self.position@ == (k - 1) * ss + off
            },
            None => self.position@ == k * ss,
        }
    }

    /// A reader of the stream whose chain starts at `sector_id`.
    pub fn new(sector_id: CfSectorId, core: Rc<C>) -> (r: Self)
        ensures
            r.wf(),
            r.spec_core() == *core,
            r.spec_first() == sector_id,
            r.spec_position() == 0,
    {
        let chain = CfAnySectorIdChain::new(sector_id, core.clone());
        let r = CfAnySectorChain { chain, remaining: None, core, taken: Ghost(0), position: Ghost(0) };
        assert(r.chain.spec_core() == *r.core);
        assert(r.chain.produced(0));
        assert(0 * r.core.spec_sector_size() == 0);
        r
    }

    /// Reads the next bytes of the stream into the front of `buffer`: `max`
    /// of them, or fewer where the stream ends regularly. The error comes
    /// where the next byte to read cannot be found and the stream does not end
    /// there.
    #[verifier::rlimit(60)]
    #[verifier::spinoff_prover]
    pub fn read_up_to(&mut self, buffer: &mut [u8], max: usize) -> (r: CfResult<usize>)
        requires
            old(self).wf(),
            max <= old(buffer)@.len(),
        ensures
            final(self).spec_core() == old(self).spec_core(),
            final(self).spec_first() == old(self).spec_first(),
            final(buffer)@.len() == old(buffer)@.len(),
            match r {
                Ok(n) => {
                    &&& final(self).wf()
                    &&& n <= max
                    &&& final(self).spec_position() == old(self).spec_position() + n
                    &&& forall|i: int|
                        0 <= i < n ==> stream_byte_from(
                            old(self).spec_core(),
                            old(self).spec_first(),
                            old(self).spec_position(),
                            i,
                        ) == Some(#[trigger] final(buffer)@[i])
                    &&& forall|i: int|
                        n <= i < old(buffer)@.len() ==> #[trigger] final(buffer)@[i] == old(
                            buffer,
                        )@[i]
                    &&& n < max ==> stream_ends_at(
                        old(self).spec_core(),
                        old(self).spec_first(),
                        (old(self).spec_position() + n) as nat,
                    )
                },
                Err(e) => exists|i: int|
                    #![trigger stream_byte_from(old(self).spec_core(), old(self).spec_first(), old(self).spec_position(), i)]
                    0 <= i < max && stream_byte_from(
                        old(self).spec_core(),
                        old(self).spec_first(),
                        old(self).spec_position(),
                        i,
                    ) is None && !stream_ends_at(
                        old(self).spec_core(),
                        old(self).spec_first(),
                        (old(self).spec_position() + i) as nat,
                    ) && stream_error(
                        old(self).spec_core(),
                        old(self).spec_first(),
                        (old(self).spec_position() + i) as nat,
                        e.kind,
                    ) && forall|j: int|
                        0 <= j < i ==> (#[trigger] stream_byte_from(
                            old(self).spec_core(),
                            old(self).spec_first(),
                            old(self).spec_position(),
                            j,
                        )) is Some,
            },
    {
        let ss = self.core.sector_size();
        let ghost core = self.spec_core();
        let ghost first = self.chain.spec_first();
        let ghost pos0 = self.position@;
        let mut total_written: usize = 0;
        while total_written < max
            invariant
                max <= buffer@.len(),
                ss == core.spec_sector_size(),
                ss > 0,
                core == *self.core,
                first == self.chain.spec_first(),
                core == old(self).spec_core(),
                first == old(self).spec_first(),
                pos0 == old(self).spec_position(),
                buffer.len() == buffer@.len(),
                self.wf(),
                total_written <= max,
                buffer@.len() == old(buffer)@.len(),
                self.position@ == pos0 + total_written,
                forall|i: int|
                    #![trigger buffer@[i]]
                    #![trigger stream_byte_from(core, first, pos0, i)]
                    0 <= i < total_written ==> stream_byte_from(core, first, pos0, i) == Some(
                        buffer@[i],
                    ),
                forall|i: int|
                    total_written <= i < buffer@.len() ==> #[trigger] buffer@[i] == old(
                        buffer,
                    )@[i],
            decreases max - total_written,
        {
            let ghost k = self.taken@;
            let (sector_id, offset) = match self.remaining {
                Some((sector_id, offset)) => {
                    self.remaining = None;
                    (sector_id, offset)
                },
                None => {
                    let ghost old_chain = self.chain;
                    let next = self.chain.next();
                    proof {
                        assert(old_chain.produced(k));
                    }
                    match next {
                        Some(Ok(sector_id)) => {
                            self.taken = Ghost(k + 1);
                            (sector_id, 0)
                        },
                        Some(Err(error)) => {
                            proof {
                                let p = (pos0 + total_written) as nat;
                                lemma_position(k, 0, ss as nat);
                                assert(p == k * ss + 0);
                                assert(stream_byte_from(core, first, pos0, total_written as int) is None);
                                match old_chain.spec_state() {
                                    CfState::Current(id) => {
                                        assert(chain_nth(core, first, (k - 1) as nat) == Some(id));
                                        assert(core.spec_next(id) is None);
                                    },
                                    _ => {},
                                }
                                assert(!chain_ends_at(core, first, k));
                                assert(!stream_ends_at(core, first, p));
                                assert(stream_error(core, first, p, error.kind));
                            }
                            return Err(error);
                        },
                        None => {
                            proof {
                                lemma_position(k, 0, ss as nat);
                                let p = (pos0 + total_written) as nat;
                                assert(p == k * ss + 0);
                            }
                            return Ok(total_written);
                        },
                    }
                },
            };
            let ghost kk = self.taken@;
            let sector = match self.core.locate_sector(sector_id) {
                Ok(sector) => sector,
                Err(error) => {
                    proof {
                        let p = (pos0 + total_written) as nat;
                        lemma_position((kk - 1) as nat, 0, ss as nat);
                        assert(p == (kk - 1) * ss + 0);
                        assert(stream_byte_from(core, first, pos0, total_written as int) is None);
                        assert(!chain_ends_at(core, first, (kk - 1) as nat));
                        assert(!stream_ends_at(core, first, p));
                        assert(stream_error(core, first, p, error.kind));
                    }
                    return Err(error);
                },
            };
            let available = sector.len() - offset;
            let wanted = max - total_written;
            let written = if available < wanted {
                available
            } else {
                wanted
            };
            let mut i: usize = 0;
            while i < written
                invariant
                    i <= written,
                    written <= available,
                    available == sector@.len() - offset,
                    offset < sector@.len(),
                    sector@.len() == ss,
                    total_written + written <= max,
                    max <= buffer@.len(),
                    buffer.len() == buffer@.len(),
                    buffer@.len() == old(buffer)@.len(),
                    kk > 0,
                    ss > 0,
                    core.spec_sector_size() == ss,
                    chain_nth(core, first, (kk - 1) as nat) == Some(sector_id),
                    core.spec_sector(sector_id) == Some(sector@),
                    pos0 + total_written == (kk - 1) * ss + offset,
                    forall|j: int|
                        0 <= j < total_written + i ==> stream_byte_from(core, first, pos0, j)
                            == Some(#[trigger] buffer@[j]),
                    forall|j: int|
                        total_written + i <= j < buffer@.len() ==> #[trigger] buffer@[j] == old(
                            buffer,
                        )@[j],
                decreases written - i,
            {
                proof {
                    lemma_position((kk - 1) as nat, (offset + i) as nat, ss as nat);
                    assert(pos0 + total_written + i == (kk - 1) * ss + (offset + i));
                }
                buffer[total_written + i] = sector[offset + i];
                i = i + 1;
            }
            total_written = total_written + written;
            assert((kk - 1) * ss + ss == kk * ss) by (nonlinear_arith)
                requires
                    kk > 0,
            ;
            if offset + written < sector.len() {
                self.remaining = Some((sector_id, offset + written));
                self.position = Ghost((pos0 + total_written) as nat);
                return Ok(total_written);
            }
            self.position = Ghost((pos0 + total_written) as nat);
        }
        Ok(total_written)
    }

    /// Reads the next bytes of the stream into `buffer`: as many as fit, or
    /// fewer where the stream ends regularly.
    pub fn read(&mut self, buffer: &mut [u8]) -> (r: CfResult<usize>)
        requires
            old(self).wf(),
        ensures
            final(self).spec_core() == old(self).spec_core(),
            final(self).spec_first() == old(self).spec_first(),
            final(buffer)@.len() == old(buffer)@.len(),
            match r {
                Ok(n) => {
                    &&& final(self).wf()
                    &&& n <= old(buffer)@.len()
                    &&& final(self).spec_position() == old(self).spec_position() + n
                    &&& forall|i: int|
                        0 <= i < n ==> stream_byte_from(
                            old(self).spec_core(),
                            old(self).spec_first(),
                            old(self).spec_position(),
                            i,
                        ) == Some(#[trigger] final(buffer)@[i])
                    &&& n < old(buffer)@.len() ==> stream_ends_at(
                        old(self).spec_core(),
                        old(self).spec_first(),
                        (old(self).spec_position() + n) as nat,
                    )
                    &&& forall|i: int|
                        n <= i < old(buffer)@.len() ==> #[trigger] final(buffer)@[i] == old(
                            buffer,
                        )@[i]
                    &&& read_delivered(*old(self), *final(self), final(buffer)@, n as nat)
                },
                Err(e) => exists|i: int|
                    #![trigger stream_byte_from(old(self).spec_core(), old(self).spec_first(), old(self).spec_position(), i)]
                    0 <= i < old(buffer)@.len() && stream_byte_from(
                        old(self).spec_core(),
                        old(self).spec_first(),
                        old(self).spec_position(),
                        i,
                    ) is None && !stream_ends_at(
                        old(self).spec_core(),
                        old(self).spec_first(),
                        (old(self).spec_position() + i) as nat,
                    ) && stream_error(
                        old(self).spec_core(),
                        old(self).spec_first(),
                        (old(self).spec_position() + i) as nat,
                        e.kind,
                    ) && forall|j: int|
                        0 <= j < i ==> (#[trigger] stream_byte_from(
                            old(self).spec_core(),
                            old(self).spec_first(),
                            old(self).spec_position(),
                            j,
                        )) is Some,
            },
    {
        let max = buffer.len();
        self.read_up_to(buffer, max)
    }
}


/// A read of `n` bytes moved the reader from `old_chain` to `new_chain`:
/// the position moved on by `n`, and `buf` starts with the `n` bytes of the
/// stream that followed the old position.
pub open spec fn read_delivered<C: CfAnyCore>(
    old_chain: CfAnySectorChain<C>,
    new_chain: CfAnySectorChain<C>,
    buf: Seq<u8>,
    n: nat,
) -> bool {
    &&& new_chain.spec_core() == old_chain.spec_core()
    &&& new_chain.spec_first() == old_chain.spec_first()
    &&& new_chain.spec_position() == old_chain.spec_position() + n
    &&& n <= buf.len()
    &&& forall|i: int|
        0 <= i < n ==> stream_byte_from(
            old_chain.spec_core(),
            old_chain.spec_first(),
            old_chain.spec_position(),
            i,
        ) == Some(#[trigger] buf[i])
}

/// Reads resume where the last one stopped: what two reads deliver, one
/// after the other, is what one read of both would deliver.
pub proof fn lemma_reads_resume<C: CfAnyCore>(
    c0: CfAnySectorChain<C>,
    c1: CfAnySectorChain<C>,
    c2: CfAnySectorChain<C>,
    b1: Seq<u8>,
    n1: nat,
    b2: Seq<u8>,
    n2: nat,
)
    requires
        read_delivered(c0, c1, b1, n1),
        read_delivered(c1, c2, b2, n2),
    ensures
        read_delivered(c0, c2, b1.take(n1 as int) + b2.take(n2 as int), n1 + n2),
{
    let both = b1.take(n1 as int) + b2.take(n2 as int);
    assert forall|i: int| 0 <= i < n1 + n2 implies stream_byte_from(
        c0.spec_core(),
        c0.spec_first(),
        c0.spec_position(),
        i,
    ) == Some(#[trigger] both[i]) by {
        if i < n1 {
            assert(both[i] == b1[i]);
        } else {
            assert(both[i] == b2[i - n1]);
            assert(stream_byte_from(c1.spec_core(), c1.spec_first(), c1.spec_position(), i - n1)
                == Some(b2[i - n1]));
        }
    }
}

/// A stream of user data never delivers more than is left of its size:
/// two reads deliver at most the size left before them, and leave the rest.
pub proof fn lemma_limited_reads_bounded<C: CfAnyCore>(
    c0: CfAnySectorChain<C>,
    c1: CfAnySectorChain<C>,
    c2: CfAnySectorChain<C>,
    l0: u64,
    l1: u64,
    l2: u64,
    o1: Seq<u8>,
    b1: Seq<u8>,
    o2: Seq<u8>,
    b2: Seq<u8>,
    n1: usize,
    n2: usize,
)
    requires
        limited_read_post(c0, c1, l0, l1, o1, b1, Ok(n1)),
        limited_read_post(c1, c2, l1, l2, o2, b2, Ok(n2)),
    ensures
        n1 + n2 <= l0,
        l2 == l0 - n1 - n2,
        read_delivered(c0, c2, b1.take(n1 as int) + b2.take(n2 as int), (n1 + n2) as nat),
{
    lemma_reads_resume(c0, c1, c2, b1, n1 as nat, b2, n2 as nat);
}

/// What a read of at most `old_limit` more bytes of a stream guarantees.
pub open spec fn limited_read_post<C: CfAnyCore>(
    old_chain: CfAnySectorChain<C>,
    new_chain: CfAnySectorChain<C>,
    old_limit: u64,
    new_limit: u64,
    old_buf: Seq<u8>,
    new_buf: Seq<u8>,
    r: CfResult<usize>,
) -> bool {
    let max = if old_buf.len() < old_limit {
        old_buf.len() as int
    } else {
        old_limit as int
    };
    let core = old_chain.spec_core();
    let first = old_chain.spec_first();
    let pos = old_chain.spec_position();
    &&& old_limit == 0 ==> new_chain == old_chain && new_limit == 0 && new_buf == old_buf
    &&& new_chain.spec_core() == core
    &&& new_chain.spec_first() == first
    &&& new_buf.len() == old_buf.len()
    &&& match r {
        Ok(n) => {
            &&& new_chain.wf()
            &&& n <= max
            &&& new_limit == old_limit - n
            &&& new_chain.spec_position() == pos + n
            &&& forall|i: int|
                0 <= i < n ==> stream_byte_from(core, first, pos, i) == Some(#[trigger] new_buf[i])
            &&& n < max ==> stream_ends_at(core, first, (pos + n) as nat)
            &&& forall|i: int| n <= i < new_buf.len() ==> #[trigger] new_buf[i] == old_buf[i]
            &&& read_delivered(old_chain, new_chain, new_buf, n as nat)
        },
        Err(e) => exists|i: int|
            #![trigger stream_byte_from(core, first, pos, i)]
            0 <= i < max && stream_byte_from(core, first, pos, i) is None && !stream_ends_at(
                core,
                first,
                (pos + i) as nat,
            ) && stream_error(core, first, (pos + i) as nat, e.kind) && forall|j: int|
                0 <= j < i ==> (#[trigger] stream_byte_from(core, first, pos, j)) is Some,
    }
}

/// Reads at most `*limit` more bytes of the stream that `chain` reads.
fn read_limited<C: CfAnyCore>(
    chain: &mut CfAnySectorChain<C>,
    limit: &mut u64,
    buffer: &mut [u8],
) -> (r: CfResult<usize>)
    requires
        old(chain).wf(),
    ensures
        limited_read_post(*old(chain), *final(chain), *old(limit), *final(limit), old(buffer)@, final(buffer)@, r),
{
    if *limit == 0 {
        return Ok(0);
    }
    let max: usize = if (buffer.len() as u64) < *limit {
        buffer.len()
    } else {
        *limit as usize
    };
    let n = chain.read_up_to(buffer, max)?;
    *limit = *limit - n as u64;
    Ok(n)
}

/// The number of bytes left to read of a stream of user data.
pub open spec fn user_limit(u: CfUserDataStream) -> u64 {
    match u {
        CfUserDataStream::MiniStream(_, l) => l,
        CfUserDataStream::Stream(_, l) => l,
    }
}

/// What a read of a stream of user data from `u0` to `u1`, from buffer
/// `ob` to buffer `nb`, with result `r`, guarantees: the stream keeps its
/// kind and its chain reads as `limited_read_post` says.
pub open spec fn user_read_post(
    u0: CfUserDataStream,
    u1: CfUserDataStream,
    ob: Seq<u8>,
    nb: Seq<u8>,
    r: CfResult<usize>,
) -> bool {
    match (u0, u1) {
        (CfUserDataStream::MiniStream(c0, l0), CfUserDataStream::MiniStream(c1, l1)) => limited_read_post(
            c0,
            c1,
            l0,
            l1,
            ob,
            nb,
            r,
        ),
        (CfUserDataStream::Stream(c0, l0), CfUserDataStream::Stream(c1, l1)) => limited_read_post(
            c0,
            c1,
            l0,
            l1,
            ob,
            nb,
            r,
        ),
        _ => false,
    }
}

/// The sum of the counts `ns`.
pub open spec fn total_read(ns: Seq<usize>) -> nat
    decreases ns.len(),
{
    if ns.len() == 0 {
        0
    } else {
        total_read(ns.drop_last()) + ns.last() as nat
    }
}

/// A stream of user data never delivers more than its size: over any
/// number of successful reads, one after the other, the counts add up to at
/// most what was left before the first, and what is left after the last is
/// the difference.
pub proof fn lemma_user_reads_bounded(
    us: Seq<CfUserDataStream>,
    ns: Seq<usize>,
    olds: Seq<Seq<u8>>,
    news: Seq<Seq<u8>>,
)
    requires
        us.len() == ns.len() + 1,
        olds.len() == ns.len(),
        news.len() == ns.len(),
        forall|i: int|
            0 <= i < ns.len() ==> user_read_post(
                #[trigger] us[i],
                us[i + 1],
                olds[i],
                news[i],
                Ok(ns[i]),
            ),
    ensures
        total_read(ns) <= user_limit(us[0]),
        user_limit(us.last()) == user_limit(us[0]) - total_read(ns),
    decreases ns.len(),
{
    if ns.len() > 0 {
        let k = ns.len() - 1;
        lemma_user_reads_bounded(us.drop_last(), ns.drop_last(), olds.drop_last(), news.drop_last());
        assert(us.drop_last()[0] == us[0]);
        assert(us.drop_last().last() == us[k]);
        assert(user_read_post(us[k], us[k + 1], olds[k], news[k], Ok(ns[k])));
    }
}

/// Once all of it was delivered, a stream of user data reads nothing more
/// and stays as it is.
pub proof fn lemma_user_read_at_end(
    u0: CfUserDataStream,
    u1: CfUserDataStream,
    ob: Seq<u8>,
    nb: Seq<u8>,
    r: CfResult<usize>,
)
    requires
        user_limit(u0) == 0,
        user_read_post(u0, u1, ob, nb, r),
    ensures
        r matches Ok(n) && n == 0,
        u1 == u0,
{
}

/// A stream of user data: the chain of a stream object, in the mini stream
/// or in the file, cut at the size that the object declares.
pub enum CfUserDataStream {
    /// A stream in the mini stream, with the number of bytes left to read.
    MiniStream(CfMiniSectorChain, u64),
    /// A stream in the file, with the number of bytes left to read.
    Stream(CfSectorChain, u64),
}

impl CfUserDataStream {
    pub open spec fn wf(&self) -> bool {
        match self {
            CfUserDataStream::MiniStream(chain, _) => chain.wf(),
            CfUserDataStream::Stream(chain, _) => chain.wf(),
        }
    }

    /// The stream of `stream_size` bytes that `chain` holds in the file.
    pub fn from(stream_size: u64, chain: CfSectorChain) -> (r: Self)
        ensures
            r == CfUserDataStream::Stream(chain, stream_size),
    {
        CfUserDataStream::Stream(chain, stream_size)
    }

    /// The stream of `stream_size` bytes that `chain` holds in the mini
    /// stream.
    pub fn from_mini(stream_size: u64, chain: CfMiniSectorChain) -> (r: Self)
        ensures
            r == CfUserDataStream::MiniStream(chain, stream_size),
    {
        CfUserDataStream::MiniStream(chain, stream_size)
    }

    /// Reads the next bytes of the stream into `buffer`: as many as fit and
    /// are left, or fewer where the chain ends regularly.
    pub fn read(&mut self, buffer: &mut [u8]) -> (r: CfResult<usize>)
        requires
            old(self).wf(),
        ensures
            user_read_post(*old(self), *final(self), old(buffer)@, final(buffer)@, r),
    {
        match self {
            CfUserDataStream::MiniStream(chain, limit) => read_limited(chain, limit, buffer),
            CfUserDataStream::Stream(chain, limit) => read_limited(chain, limit, buffer),
        }
    }
}

} // verus!
