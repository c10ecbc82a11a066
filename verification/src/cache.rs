//! Caches of the sector numbers of a chain already walked.
use vstd::prelude::*;

use crate::error::{CfError, CfErrorInfo, CfResult};
use crate::text::{digits, push_digits, push_str};
use crate::sector::{
    chain_error, chain_nth, chain_stop, lemma_chain_stop_stays, CfAnyCore, CfAnySectorIdChain, CfState,
    CF_MAXREGSECT,
};

verus! {

/// A value of `chain_nth` is never a reserved sector number.
pub proof fn lemma_chain_nth_regular<C: CfAnyCore>(core: C, first: u32, k: nat)
    ensures
        chain_nth(core, first, k) matches Some(id) ==> id < CF_MAXREGSECT,
    decreases k,
{
    if k > 0 {
        lemma_chain_nth_regular(core, first, (k - 1) as nat);
    }
}

/// The maximal runs of consecutive numbers in `s` (a run goes on while each
/// number is the one before plus one), each as its first position, first
/// number, last position and last number.
pub open spec fn runs_of(s: Seq<u32>) -> Seq<(int, u32, int, u32)>
    decreases s.len(),
{
    if s.len() == 0 {
        seq![]
    } else {
        let before = runs_of(s.drop_last());
        let k = s.len() - 1;
        if s.len() >= 2 && s.last() as int == s[k - 1] + 1 {
            let r = before.last();
            before.update(before.len() - 1, (r.0, r.1, k, s.last()))
        } else {
            before.push((k, s.last(), k, s.last()))
        }
    }
}

/// The runs of a sequence are maximal: a run never ends just before the
/// number that starts the next one; and the last run ends with the last
/// number.
pub proof fn lemma_runs_maximal(s: Seq<u32>)
    ensures
        s.len() > 0 ==> runs_of(s).len() > 0 && runs_of(s).last().3 == s.last() && runs_of(s).last().2
            == s.len() - 1,
        forall|i: int|
            0 <= i < runs_of(s).len() - 1 ==> (#[trigger] runs_of(s)[i]).3 as int + 1 != runs_of(
                s,
            )[i + 1].1 as int,
    decreases s.len(),
{
    if s.len() > 0 {
        let d = s.drop_last();
        lemma_runs_maximal(d);
        let before = runs_of(d);
        let k = s.len() - 1;
        if s.len() >= 2 && s.last() as int == s[k - 1] + 1 {
            assert forall|i: int| 0 <= i < runs_of(s).len() - 1 implies (#[trigger] runs_of(
                s,
            )[i]).3 as int + 1 != runs_of(s)[i + 1].1 as int by {
                assert(runs_of(s)[i] == before[i]);
                assert(runs_of(s)[i + 1].1 == before[i + 1].1);
            }
        } else {
            assert forall|i: int| 0 <= i < runs_of(s).len() - 1 implies (#[trigger] runs_of(
                s,
            )[i]).3 as int + 1 != runs_of(s)[i + 1].1 as int by {
                assert(runs_of(s)[i] == before[i]);
                if i + 1 < before.len() {
                    assert(runs_of(s)[i + 1] == before[i + 1]);
                } else {
                    assert(d.last() == s[k - 1]);
                }
            }
        }
    }
}

/// The number of maximal runs of consecutive numbers in `s`.
pub open spec fn run_count(s: Seq<u32>) -> nat {
    runs_of(s).len()
}

/// Cache of the sector numbers of a chain, one entry per sector.
///
/// Each number met is stored on its own: random access to a number already
/// met takes constant time.
#[derive(Debug)]
pub struct CfLinearCache {
    cache: Vec<u32>,
}

impl View for CfLinearCache {
    type V = Seq<u32>;

    closed spec fn view(&self) -> Seq<u32> {
        self.cache@
    }
}

impl CfLinearCache {
    /// The cache holds the first numbers of the chain that `chain` walks, and
    /// `chain` has produced exactly those.
    pub open spec fn consistent_with<C: CfAnyCore>(&self, chain: &CfAnySectorIdChain<C>) -> bool {
        &&& chain.produced(self@.len())
        &&& forall|i: int|
            0 <= i < self@.len() ==> chain_nth(chain.spec_core(), chain.spec_first(), i as nat)
                == Some(#[trigger] self@[i])
    }

    /// An empty cache.
    pub fn new() -> (r: Self)
        ensures
            r@.len() == 0,
    {
        CfLinearCache { cache: Vec::new() }
    }

    /// The `index`-th sector number of the chain that `chain` walks; numbers
    /// not yet cached are taken from `chain`. The error is `OutOfRange(index)`,
    /// or the error met while walking, where the chain is shorter.
    pub fn nth_sector_id<C: CfAnyCore>(
        &mut self,
        index: usize,
        chain: &mut CfAnySectorIdChain<C>,
    ) -> (r: CfResult<u32>)
        requires
            old(self).consistent_with(old(chain)),
            index < usize::MAX || chain_nth(old(chain).spec_core(), old(chain).spec_first(), index as nat)
                is None,
        ensures
            final(self).consistent_with(final(chain)),
            final(chain).spec_core() == old(chain).spec_core(),
            final(chain).spec_first() == old(chain).spec_first(),
            old(self)@.len() <= final(self)@.len(),
            old(self)@ == final(self)@.take(old(self)@.len() as int),
            r is Ok ==> final(self)@.len() == if index < old(self)@.len() {
                old(self)@.len() as int
            } else {
                index + 1
            },
            r is Err ==> chain_nth(old(chain).spec_core(), old(chain).spec_first(), final(self)@.len())
                is None,
            r matches Err(e) ==> final(chain).spec_state() == CfState::<u32>::End && if old(
                chain,
            ).spec_state() == CfState::<u32>::End {
                e.kind == CfErrorInfo::OutOfRange(index)
            } else {
                chain_error(old(chain).spec_core(), old(chain).spec_first(), index as nat, e.kind)
            },
            r is Ok <==> chain_nth(old(chain).spec_core(), old(chain).spec_first(), index as nat) is Some,
            r matches Ok(id) ==> chain_nth(old(chain).spec_core(), old(chain).spec_first(), index as nat)
                == Some(id),
    {
        if index < self.cache.len() {
            return Ok(self.cache[index]);
        }
        let ghost old_cache = self.cache@;
        let ghost was_exhausted = chain.spec_state() == CfState::<u32>::End;
        while index >= self.cache.len()
            invariant_except_break
                index < usize::MAX || chain_nth(chain.spec_core(), chain.spec_first(), index as nat)
                    is None,
                old_cache == old(self)@,
                was_exhausted == (old(chain).spec_state() == CfState::<u32>::End),
                (chain.spec_state() == CfState::<u32>::End) == was_exhausted,
                self.consistent_with(chain),
                chain.spec_core() == old(chain).spec_core(),
                chain.spec_first() == old(chain).spec_first(),
                old_cache.len() <= self.cache@.len() <= index + 1,
                old_cache == self.cache@.take(old_cache.len() as int),
            ensures
                old_cache == old(self)@,
                self.consistent_with(chain),
                chain.spec_core() == old(chain).spec_core(),
                chain.spec_first() == old(chain).spec_first(),
                old_cache.len() <= self.cache@.len() <= index + 1,
                old_cache == self.cache@.take(old_cache.len() as int),
                was_exhausted == (old(chain).spec_state() == CfState::<u32>::End),
                index >= self.cache@.len() ==> chain_nth(
                    chain.spec_core(),
                    chain.spec_first(),
                    self.cache@.len() as nat,
                ) is None && chain.spec_state() == CfState::<u32>::End && (!was_exhausted
                    ==> chain_stop(chain.spec_core(), chain.spec_first(), self.cache@.len() as nat)
                    is None),
            decreases index + 1 - self.cache@.len(),
        {
            let ghost before = *chain;
            let next = chain.next();
            proof {
                assert(before.produced(self.cache@.len() as nat));
            }
            match next {
                Some(Ok(sector_id)) => {
                    self.cache.push(sector_id);
                    assert(old_cache == self.cache@.take(old_cache.len() as int));
                },
                Some(Err(error)) => {
                    proof {
                        crate::sector::lemma_chain_ended(
                            chain.spec_core(),
                            chain.spec_first(),
                            self.cache@.len() as nat,
                            index as nat,
                        );
                        lemma_chain_stop_stays(
                            chain.spec_core(),
                            chain.spec_first(),
                            self.cache@.len() as nat,
                            index as nat,
                        );
                    }
                    return Err(error);
                },
                None => break,
            }
        }
        if index < self.cache.len() {
            Ok(self.cache[index])
        } else {
            proof {
                crate::sector::lemma_chain_ended(
                    chain.spec_core(),
                    chain.spec_first(),
                    self.cache@.len() as nat,
                    index as nat,
                );
                lemma_chain_stop_stays(
                    chain.spec_core(),
                    chain.spec_first(),
                    self.cache@.len() as nat,
                    index as nat,
                );
            }
            Err(CfError::from_kind(CfErrorInfo::OutOfRange(index)))
        }
    }
}


/// Interval of consecutive sector numbers, with their positions in the chain.
#[derive(Debug, Copy, Clone)]
struct CfRangeInclusive {
    start_index: usize,
    end_index: usize,
    start_sector_id: u32,
    end_sector_id: u32,
}

impl CfRangeInclusive {
    /// The interval is non-empty and holds as many positions as numbers.
    spec fn ok(self) -> bool {
        &&& self.start_index <= self.end_index
        &&& self.end_sector_id - self.start_sector_id == self.end_index - self.start_index
    }

    /// The sector numbers of the interval, in chain order.
    spec fn expand(self) -> Seq<u32> {
        Seq::new(
            (self.end_index - self.start_index + 1) as nat,
            |j: int| (self.start_sector_id + j) as u32,
        )
    }

    fn new(index: usize, sector_id: u32) -> (r: Self)
        ensures
            r.ok(),
            r.start_index == index && r.end_index == index,
            r.start_sector_id == sector_id && r.end_sector_id == sector_id,
    {
        CfRangeInclusive {
            start_index: index,
            end_index: index,
            start_sector_id: sector_id,
            end_sector_id: sector_id,
        }
    }

    fn extend_range(&mut self)
        requires
            old(self).end_sector_id < u32::MAX,
            old(self).end_index < usize::MAX,
        ensures
            final(self).start_index == old(self).start_index,
            final(self).start_sector_id == old(self).start_sector_id,
            final(self).end_index == old(self).end_index + 1,
            final(self).end_sector_id == old(self).end_sector_id + 1,
    {
        self.end_sector_id += 1;
        self.end_index += 1;
    }
}

/// The intervals cover the positions `0..total` one after the other.
spec fn ranges_wf(rs: Seq<CfRangeInclusive>, total: nat) -> bool {
    &&& (rs.len() == 0) == (total == 0)
    &&& rs.len() > 0 ==> rs[0].start_index == 0 && rs.last().end_index + 1 == total
    &&& forall|i: int| 0 <= i < rs.len() ==> (#[trigger] rs[i]).ok()
    &&& forall|i: int|
        #![trigger rs[i]]
        0 < i < rs.len() ==> rs[i].start_index == rs[i - 1].end_index + 1
    &&& forall|i: int, j: int|
        #![trigger rs[i], rs[j]]
        0 <= i < j < rs.len() ==> rs[i].end_index < rs[j].start_index
}

/// The intervals as runs: first position, first number, last position and
/// last number.
spec fn runs_view(rs: Seq<CfRangeInclusive>) -> Seq<(int, u32, int, u32)> {
    rs.map_values(
        |r: CfRangeInclusive| (r.start_index as int, r.start_sector_id, r.end_index as int, r.end_sector_id),
    )
}

/// The sector numbers that the intervals hold, in chain order.
spec fn flatten(rs: Seq<CfRangeInclusive>) -> Seq<u32>
    decreases rs.len(),
{
    if rs.len() == 0 {
        Seq::empty()
    } else {
        flatten(rs.drop_last()) + rs.last().expand()
    }
}

proof fn lemma_ranges_drop_last(rs: Seq<CfRangeInclusive>, total: nat)
    requires
        ranges_wf(rs, total),
        rs.len() > 0,
    ensures
        ranges_wf(rs.drop_last(), rs.last().start_index as nat),
{
    let d = rs.drop_last();
    if d.len() > 0 {
        assert(rs[rs.len() - 1].start_index == rs[rs.len() - 2].end_index + 1);
    }
    assert forall|i: int, j: int|
        #![trigger d[i], d[j]]
        0 <= i < j < d.len() implies d[i].end_index < d[j].start_index by {
        assert(rs[i] == d[i] && rs[j] == d[j]);
    }
    assert forall|i: int| #![trigger d[i]] 0 < i < d.len() implies d[i].start_index == d[i
        - 1].end_index + 1 by {
        assert(rs[i] == d[i]);
    }
}

proof fn lemma_flatten_len(rs: Seq<CfRangeInclusive>, total: nat)
    requires
        ranges_wf(rs, total),
    ensures
        flatten(rs).len() == total,
    decreases rs.len(),
{
    if rs.len() > 0 {
        lemma_ranges_drop_last(rs, total);
        lemma_flatten_len(rs.drop_last(), rs.last().start_index as nat);
        assert(rs[rs.len() - 1].ok());
    }
}

proof fn lemma_flatten_index(rs: Seq<CfRangeInclusive>, total: nat, j: int, i: int)
    requires
        ranges_wf(rs, total),
        0 <= j < rs.len(),
        rs[j].start_index <= i <= rs[j].end_index,
    ensures
        flatten(rs)[i] == (rs[j].start_sector_id + (i - rs[j].start_index)) as u32,
    decreases rs.len(),
{
    lemma_ranges_drop_last(rs, total);
    lemma_flatten_len(rs.drop_last(), rs.last().start_index as nat);
    let last = rs.len() - 1;
    assert(rs[last].ok());
    if j < last {
        assert(rs[j].end_index < rs[last].start_index);
        lemma_flatten_index(rs.drop_last(), rs.last().start_index as nat, j, i);
    }
}

proof fn lemma_ranges_cover(rs: Seq<CfRangeInclusive>, total: nat, i: int)
    requires
        ranges_wf(rs, total),
        0 <= i < total,
    ensures
        exists|j: int| #![trigger rs[j]] 0 <= j < rs.len() && rs[j].start_index <= i <= rs[j].end_index,
    decreases rs.len(),
{
    let last = rs.len() - 1;
    if i >= rs[last].start_index {
        assert(rs[last].start_index <= i <= rs[last].end_index);
    } else {
        lemma_ranges_drop_last(rs, total);
        lemma_ranges_cover(rs.drop_last(), rs.last().start_index as nat, i);
        let j = choose|j: int|
            #![trigger rs.drop_last()[j]]
            0 <= j < rs.drop_last().len() && rs.drop_last()[j].start_index <= i
                <= rs.drop_last()[j].end_index;
        assert(rs[j] == rs.drop_last()[j]);
    }
}

proof fn lemma_last(rs: Seq<CfRangeInclusive>, total: nat)
    requires
        ranges_wf(rs, total),
        rs.len() > 0,
    ensures
        flatten(rs).len() == total,
        flatten(rs)[total - 1] == rs.last().end_sector_id,
        rs.last().end_index == total - 1,
{
    lemma_flatten_len(rs, total);
    lemma_flatten_index(rs, total, rs.len() - 1, total - 1);
    assert(rs[rs.len() - 1].ok());
}

proof fn lemma_extend_last(rs: Seq<CfRangeInclusive>, total: nat, r: CfRangeInclusive)
    requires
        ranges_wf(rs, total),
        rs.len() > 0,
        r.start_index == rs.last().start_index,
        r.start_sector_id == rs.last().start_sector_id,
        r.end_index == rs.last().end_index + 1,
        r.end_sector_id == rs.last().end_sector_id + 1,
    ensures
        ranges_wf(rs.update(rs.len() - 1, r), total + 1),
        flatten(rs.update(rs.len() - 1, r)) == flatten(rs).push(r.end_sector_id),
{
    let n = rs.update(rs.len() - 1, r);
    let last = rs.len() - 1;
    assert(rs[last].ok());
    assert(n.drop_last() =~= rs.drop_last());
    assert(n.last().expand() =~= rs.last().expand().push(r.end_sector_id));
    assert(flatten(n) =~= flatten(rs).push(r.end_sector_id));
    assert forall|i: int, j: int|
        #![trigger n[i], n[j]]
        0 <= i < j < n.len() implies n[i].end_index < n[j].start_index by {
        assert(rs[i].end_index < rs[j].start_index);
    }
    assert forall|i: int| #![trigger n[i]] 0 < i < n.len() implies n[i].start_index == n[i
        - 1].end_index + 1 by {
        assert(rs[i].start_index == rs[i - 1].end_index + 1);
    }
    assert forall|i: int| 0 <= i < n.len() implies (#[trigger] n[i]).ok() by {
        assert(rs[i].ok());
    }
}

proof fn lemma_push_range(rs: Seq<CfRangeInclusive>, total: nat, r: CfRangeInclusive)
    requires
        ranges_wf(rs, total),
        r.ok(),
        r.start_index == total,
        r.end_index == total,
    ensures
        ranges_wf(rs.push(r), total + 1),
        flatten(rs.push(r)) == flatten(rs).push(r.start_sector_id),
{
    let n = rs.push(r);
    assert(n.drop_last() =~= rs);
    assert(r.expand() =~= seq![r.start_sector_id]);
    if rs.len() > 0 {
        lemma_last(rs, total);
    }
    assert forall|i: int, j: int|
        #![trigger n[i], n[j]]
        0 <= i < j < n.len() implies n[i].end_index < n[j].start_index by {
        if j < n.len() - 1 {
            assert(rs[i].end_index < rs[j].start_index);
        } else if i < rs.len() - 1 {
            assert(rs[i].end_index < rs[rs.len() - 1].start_index);
            assert(rs[rs.len() - 1].ok());
        } else {
            assert(rs[i].ok());
        }
    }
    assert forall|i: int| #![trigger n[i]] 0 < i < n.len() implies n[i].start_index == n[i
        - 1].end_index + 1 by {
        if i < rs.len() {
            assert(rs[i].start_index == rs[i - 1].end_index + 1);
        }
    }
    assert forall|i: int| 0 <= i < n.len() implies (#[trigger] n[i]).ok() by {
        if i < rs.len() {
            assert(rs[i].ok());
        }
    }
}

/// What a cache of `length` sector numbers in `runs` runs takes in memory,
/// and what it addresses.
#[derive(Debug, Clone, Copy, PartialEq, Eq, Structural)]
pub struct CfCacheFootprint {
    /// The number of sector numbers cached.
    pub linear_length: usize,
    /// The bytes they would take one by one (4 each).
    pub linear_total: usize,
    /// The number of runs that hold them.
    pub contiguous_length: usize,
    /// The bytes the runs take (24 each).
    pub contiguous_total: usize,
    /// The bytes the sectors cover in a version 3 file (512 each).
    pub addressable_v3: usize,
    /// The bytes the sectors cover in a version 4 file (4096 each).
    pub addressable_v4: usize,
    /// The bytes the sectors cover in the mini stream (64 each).
    pub addressable_mini: usize,
}

/// The text of a number of bytes: the number, then ` bytes`.
pub open spec fn bytes_text(n: usize) -> Seq<char> {
    digits(n as nat, 10) + " bytes"@
}

/// The report of a cache footprint.
pub open spec fn footprint_text(f: CfCacheFootprint) -> Seq<char> {
    "Cache { CfLinearCache: Estimed { type: \"Vec<CfSectorId>\", length: "@ + digits(
        f.linear_length as nat,
        10,
    ) + ", element: "@ + bytes_text(4) + ", total: "@ + bytes_text(f.linear_total)
        + " }, CfContiguousCache: Estimed { type: \"Vec<CfRangeInclusive>\", length: "@ + digits(
        f.contiguous_length as nat,
        10,
    ) + ", element: "@ + bytes_text(24) + ", total: "@ + bytes_text(f.contiguous_total)
        + " }, _: Addressable { V3: "@ + bytes_text(f.addressable_v3) + ", V4: "@ + bytes_text(
        f.addressable_v4,
    ) + ", mini: "@ + bytes_text(f.addressable_mini) + " } }"@
}

/// The debugging text of a run: `first/id..=last/id[count]`.
pub open spec fn run_text(r: (int, u32, int, u32)) -> Seq<char> {
    digits(r.0 as nat, 10) + "/"@ + digits(r.1 as nat, 10) + "..="@ + digits(r.2 as nat, 10) + "/"@
        + digits(r.3 as nat, 10) + "["@ + digits((r.2 - r.0 + 1) as nat, 10) + "]"@
}

/// The debugging texts of runs, separated by `, `.
pub open spec fn runs_text(rs: Seq<(int, u32, int, u32)>) -> Seq<char>
    decreases rs.len(),
{
    if rs.len() == 0 {
        seq![]
    } else if rs.len() == 1 {
        run_text(rs[0])
    } else {
        runs_text(rs.drop_last()) + ", "@ + run_text(rs.last())
    }
}

/// The debugging text of a contiguous cache of `total` numbers in the runs
/// `rs`.
pub open spec fn cache_debug_text(total: nat, rs: Seq<(int, u32, int, u32)>) -> Seq<char> {
    "CfContiguousCache { total_index: "@ + digits(total, 10) + ", cache: ["@ + runs_text(rs)
        + "] }"@
}

/// Appends the debugging text of run `r` to `s`.
fn push_run(s: &mut String, r: CfRangeInclusive)
    requires
        r.ok(),
    ensures
        final(s)@ == old(s)@ + run_text(
            (r.start_index as int, r.start_sector_id, r.end_index as int, r.end_sector_id),
        ),
{
    let ghost s0 = s@;
    push_digits(s, r.start_index as u64, 10);
    push_str(s, "/");
    push_digits(s, r.start_sector_id as u64, 10);
    push_str(s, "..=");
    push_digits(s, r.end_index as u64, 10);
    push_str(s, "/");
    push_digits(s, r.end_sector_id as u64, 10);
    push_str(s, "[");
    push_digits(s, (r.end_index - r.start_index) as u64 + 1, 10);
    push_str(s, "]");
    assert(s@ =~= s0 + run_text(
        (r.start_index as int, r.start_sector_id, r.end_index as int, r.end_sector_id),
    ));
}

/// Appends the text of `n` bytes to `s`.
fn push_bytes(s: &mut String, n: usize)
    ensures
        final(s)@ == old(s)@ + bytes_text(n),
{
    push_digits(s, n as u64, 10);
    push_str(s, " bytes");
}

/// Cache of the sector numbers of a chain that stores runs of consecutive
/// numbers as intervals.
///
/// Chains are mostly made of consecutive sectors: one interval stands for a
/// whole run, which saves memory; a number already met is found by binary
/// search over the intervals.
pub struct CfContiguousCache<C: CfAnyCore> {
    cache: Vec<CfRangeInclusive>,
    total_index: usize,
    sector_ids: CfAnySectorIdChain<C>,
}

impl<C: CfAnyCore> CfContiguousCache<C> {
    /// The sector numbers cached so far, in chain order.
    pub closed spec fn view(&self) -> Seq<u32> {
        flatten(self.cache@)
    }

    /// The core of the chain that the cache walks.
    pub closed spec fn spec_core(&self) -> C {
        self.sector_ids.spec_core()
    }

    /// The first sector number of the chain that the cache walks.
    pub closed spec fn spec_first(&self) -> u32 {
        self.sector_ids.spec_first()
    }

    /// The cache holds the first numbers of its chain, and its walk has
    /// produced exactly those.
    pub closed spec fn wf(&self) -> bool {
        &&& ranges_wf(self.cache@, self.total_index as nat)
        &&& runs_view(self.cache@) == runs_of(self.view())
        &&& self.sector_ids.produced(self.total_index as nat)
        &&& forall|i: int|
            0 <= i < self.total_index ==> chain_nth(self.spec_core(), self.spec_first(), i as nat)
                == Some(#[trigger] self.view()[i])
    }

    proof fn lemma_wf_regular(&self)
        requires
            self.wf(),
        ensures
            forall|i: int| 0 <= i < self.total_index ==> #[trigger] self.view()[i] < CF_MAXREGSECT,
    {
        assert forall|i: int| 0 <= i < self.total_index implies #[trigger] self.view()[i]
            < CF_MAXREGSECT by {
            lemma_chain_nth_regular(self.spec_core(), self.spec_first(), i as nat);
        }
    }

    /// A linear cache and a contiguous cache of the same chain hold the same
    /// number at every position that both hold.
    pub proof fn lemma_agrees_with_linear(&self, linear: CfLinearCache, chain: CfAnySectorIdChain<C>, i: int)
        requires
            self.wf(),
            linear.consistent_with(&chain),
            chain.spec_core() == self.spec_core(),
            chain.spec_first() == self.spec_first(),
            0 <= i < linear@.len(),
            i < self@.len(),
        ensures
            linear@[i] == self@[i],
    {
        lemma_flatten_len(self.cache@, self.total_index as nat);
    }

    /// The walk of the chain is over: every number it can give is cached.
    pub closed spec fn spec_exhausted(&self) -> bool {
        self.sector_ids.spec_state() == CfState::<u32>::End
    }

    /// The debugging text of the cache: the number of numbers cached and
    /// the runs that hold them (see `cache_debug_text`).
    pub fn to_debug_string(&self) -> (r: String)
        requires
            self.wf(),
        ensures
            r@ == cache_debug_text(self@.len(), runs_of(self@)),
    {
        proof {
            lemma_flatten_len(self.cache@, self.total_index as nat);
        }
        let ghost rs = runs_view(self.cache@);
        let mut s = String::new();
        push_str(&mut s, "CfContiguousCache { total_index: ");
        push_digits(&mut s, self.total_index as u64, 10);
        push_str(&mut s, ", cache: [");
        let ghost prefix = s@;
        let mut i: usize = 0;
        while i < self.cache.len()
            invariant
                i <= self.cache@.len(),
                rs == runs_view(self.cache@),
                forall|j: int| 0 <= j < self.cache@.len() ==> (#[trigger] self.cache@[j]).ok(),
                s@ == prefix + runs_text(rs.take(i as int)),
            decreases self.cache@.len() - i,
        {
            let range = self.cache[i];
            if i > 0 {
                push_str(&mut s, ", ");
            }
            push_run(&mut s, range);
            proof {
                let t = rs.take(i + 1);
                assert(t.drop_last() =~= rs.take(i as int));
                assert(t.last() == rs[i as int]);
                if i == 0 {
                    assert(rs.take(0) =~= Seq::<(int, u32, int, u32)>::empty());
                }
            }
            i = i + 1;
            assert(s@ =~= prefix + runs_text(rs.take(i as int)));
        }
        assert(rs.take(rs.len() as int) =~= rs);
        push_str(&mut s, "] }");
        assert(s@ =~= cache_debug_text(self@.len(), runs_of(self@)));
        s
    }

    /// What the cache takes in memory and what it addresses.
    pub fn footprint(&self) -> (r: CfCacheFootprint)
        requires
            self.wf(),
            self@.len() * 4096 <= usize::MAX,
            run_count(self@) * 24 <= usize::MAX,
        ensures
            r.linear_length == self@.len(),
            r.linear_total == self@.len() * 4,
            r.contiguous_length == run_count(self@),
            r.contiguous_total == run_count(self@) * 24,
            r.addressable_v3 == self@.len() * 512,
            r.addressable_v4 == self@.len() * 4096,
            r.addressable_mini == self@.len() * 64,
    {
        proof {
            lemma_flatten_len(self.cache@, self.total_index as nat);
        }
        let total = self.total_index;
        let runs = self.cache.len();
        assert(runs == run_count(self@));
        CfCacheFootprint {
            linear_length: total,
            linear_total: total * 4,
            contiguous_length: runs,
            contiguous_total: runs * 24,
            addressable_v3: total * 512,
            addressable_v4: total * 4096,
            addressable_mini: total * 64,
        }
    }

    /// The report of the cache's footprint (see `footprint_text`).
    pub fn report(&self) -> (r: String)
        requires
            self.wf(),
            self@.len() * 4096 <= usize::MAX,
            run_count(self@) * 24 <= usize::MAX,
        ensures
            exists|f: CfCacheFootprint|
                f.linear_length == self@.len() && f.contiguous_length == run_count(self@)
                    && f.linear_total == self@.len() * 4 && f.contiguous_total
                    == run_count(self@) * 24 && f.addressable_v3 == self@.len() * 512
                    && f.addressable_v4 == self@.len() * 4096 && f.addressable_mini == self@.len()
                    * 64 && r@ == footprint_text(f),
    {
        let f = self.footprint();
        let mut s = String::new();
        push_str(&mut s, "Cache { CfLinearCache: Estimed { type: \"Vec<CfSectorId>\", length: ");
        push_digits(&mut s, f.linear_length as u64, 10);
        push_str(&mut s, ", element: ");
        push_bytes(&mut s, 4);
        push_str(&mut s, ", total: ");
        push_bytes(&mut s, f.linear_total);
        push_str(
            &mut s,
            " }, CfContiguousCache: Estimed { type: \"Vec<CfRangeInclusive>\", length: ",
        );
        push_digits(&mut s, f.contiguous_length as u64, 10);
        push_str(&mut s, ", element: ");
        push_bytes(&mut s, 24);
        push_str(&mut s, ", total: ");
        push_bytes(&mut s, f.contiguous_total);
        push_str(&mut s, " }, _: Addressable { V3: ");
        push_bytes(&mut s, f.addressable_v3);
        push_str(&mut s, ", V4: ");
        push_bytes(&mut s, f.addressable_v4);
        push_str(&mut s, ", mini: ");
        push_bytes(&mut s, f.addressable_mini);
        push_str(&mut s, " } }");
        assert(s@ =~= footprint_text(f));
        s
    }

    /// A cache of the chain that `iterator` walks, which must not have
    /// produced anything yet.
    pub fn new(iterator: CfAnySectorIdChain<C>) -> (r: Self)
        requires
            iterator.produced(0),
        ensures
            r.wf(),
            r.spec_core() == iterator.spec_core(),
            r.spec_first() == iterator.spec_first(),
            r@.len() == 0,
            r.spec_exhausted() == (iterator.spec_state() == CfState::<u32>::End),
    {
        let r = CfContiguousCache { sector_ids: iterator, total_index: 0, cache: Vec::new() };
        assert(r.view() =~= Seq::<u32>::empty());
        assert(runs_view(r.cache@) =~= runs_of(r.view()));
        r
    }

    /// The `index`-th cached sector number, if it is cached.
    fn nth_cache(&self, index: usize) -> (r: Option<u32>)
        requires
            self.wf(),
        ensures
            r == if index < self.total_index {
                Some(self.view()[index as int])
            } else {
                None::<u32>
            },
    {
        if index >= self.total_index || self.cache.len() == 0 {
            return None;
        }
        proof {
            lemma_ranges_cover(self.cache@, self.total_index as nat, index as int);
        }
        let ghost t = choose|j: int|
            #![trigger self.cache@[j]]
            0 <= j < self.cache@.len() && self.cache@[j].start_index <= index
                <= self.cache@[j].end_index;
        let mut left: usize = 0;
        let mut right: usize = self.cache.len() - 1;
        while left <= right
            invariant
                self.wf(),
                index < self.total_index,
                0 <= t < self.cache@.len(),
                self.cache@[t].start_index <= index <= self.cache@[t].end_index,
                left <= t <= right < self.cache@.len(),
            decreases right - left,
        {
            let middle = left + (right - left) / 2;
            let range = self.cache[middle];
            if range.end_index < index {
                proof {
                    if t < middle {
                        assert(self.cache@[t].end_index < self.cache@[middle as int].start_index);
                    }
                    if t == middle {
                        assert(false);
                    }
                }
                left = middle + 1;
            } else if index < range.start_index {
                proof {
                    if middle < t {
                        assert(self.cache@[middle as int].end_index < self.cache@[t].start_index);
                    }
                    if t == middle {
                        assert(false);
                    }
                }
                right = middle - 1;
            } else {
                proof {
                    if middle < t {
                        assert(self.cache@[middle as int].end_index < self.cache@[t].start_index);
                    }
                    if t < middle {
                        assert(self.cache@[t].end_index < self.cache@[middle as int].start_index);
                    }
                    lemma_flatten_index(self.cache@, self.total_index as nat, t, index as int);
                    assert(self.cache@[t].ok());
                }
                let position = index - range.start_index;
                return Some(range.start_sector_id + position as u32);
            }
        }
        None
    }

    /// Appends sector number `new_sector_id`, found at position
    /// `total_index` of the chain.
    #[verifier::rlimit(40)]
    #[verifier::spinoff_prover]
    fn extend_cache(&mut self, new_sector_id: u32)
        requires
            ranges_wf(old(self).cache@, old(self).total_index as nat),
            forall|i: int|
                0 <= i < old(self).total_index ==> #[trigger] old(self).view()[i] < CF_MAXREGSECT,
            new_sector_id < CF_MAXREGSECT,
            old(self).total_index < usize::MAX,
        ensures
            ranges_wf(final(self).cache@, final(self).total_index as nat),
            runs_view(old(self).cache@) == runs_of(old(self).view()) ==> runs_view(
                final(self).cache@,
            ) == runs_of(final(self).view()),
            final(self).total_index == old(self).total_index + 1,
            final(self).view() == old(self).view().push(new_sector_id),
            final(self).sector_ids == old(self).sector_ids,
    {
        let len = self.cache.len();
        if len > 0 {
            let mut last_range = self.cache[len - 1];
            proof {
                lemma_last(self.cache@, self.total_index as nat);
                assert(self.view()[self.total_index - 1] < CF_MAXREGSECT);
            }
            if last_range.end_sector_id + 1 == new_sector_id {
                let ghost old_cache = self.cache@;
                last_range.extend_range();
                self.cache.set(len - 1, last_range);
                self.total_index += 1;
                proof {
                    lemma_extend_last(old_cache, (self.total_index - 1) as nat, last_range);
                    assert(self.cache@ == old_cache.update(len - 1, last_range));
                    let v = self.view();
                    assert(v.drop_last() =~= flatten(old_cache));
                    assert(v[v.len() - 2] == flatten(old_cache)[(self.total_index - 2) as int]);
                    assert(runs_view(self.cache@) =~= runs_view(old_cache).update(
                        len - 1,
                        (
                            last_range.start_index as int,
                            last_range.start_sector_id,
                            last_range.end_index as int,
                            last_range.end_sector_id,
                        ),
                    ));
                }
                return;
            }
        }
        let ghost old_cache = self.cache@;
        let new_range = CfRangeInclusive::new(self.total_index, new_sector_id);
        self.cache.push(new_range);
        self.total_index += 1;
        proof {
            lemma_push_range(old_cache, (self.total_index - 1) as nat, new_range);
            let v = self.view();
            assert(v.drop_last() =~= flatten(old_cache));
            assert(runs_view(self.cache@) =~= runs_view(old_cache).push(
                (
                    new_range.start_index as int,
                    new_range.start_sector_id,
                    new_range.end_index as int,
                    new_range.end_sector_id,
                ),
            ));
            if len > 0 {
                lemma_last(old_cache, (self.total_index - 1) as nat);
                assert(v[v.len() - 2] == old_cache.last().end_sector_id);
            }
        }
    }

    /// The `index`-th sector number of the chain, taken from the cache or,
    /// failing that, from the walk of the chain. The error is
    /// `OutOfRange(index)`, or the error met while walking, where the chain
    /// is shorter.
    pub fn nth_sector_id(&mut self, index: usize) -> (r: CfResult<u32>)
        requires
            old(self).wf(),
            index < usize::MAX || chain_nth(old(self).spec_core(), old(self).spec_first(), index as nat)
                is None,
        ensures
            final(self).wf(),
            final(self).spec_core() == old(self).spec_core(),
            final(self).spec_first() == old(self).spec_first(),
            old(self)@.len() <= final(self)@.len(),
            r is Ok ==> final(self)@.len() == if index < old(self)@.len() {
                old(self)@.len() as int
            } else {
                index + 1
            },
            r is Err ==> chain_nth(old(self).spec_core(), old(self).spec_first(), final(self)@.len())
                is None,
            r is Ok ==> final(self).spec_exhausted() == old(self).spec_exhausted(),
            r matches Err(e) ==> final(self).spec_exhausted() && if old(self).spec_exhausted() {
                e.kind == CfErrorInfo::OutOfRange(index)
            } else {
                chain_error(old(self).spec_core(), old(self).spec_first(), index as nat, e.kind)
            },
            r is Ok <==> chain_nth(old(self).spec_core(), old(self).spec_first(), index as nat) is Some,
            r matches Ok(id) ==> chain_nth(old(self).spec_core(), old(self).spec_first(), index as nat)
                == Some(id),
    {
        proof {
            lemma_flatten_len(self.cache@, self.total_index as nat);
        }
        if let Some(sector_id) = self.nth_cache(index) {
            return Ok(sector_id);
        }
        let ghost was_exhausted = self.spec_exhausted();
        proof {
            lemma_flatten_len(self.cache@, self.total_index as nat);
        }
        let ghost old_len = self.total_index;
        while index >= self.total_index
            invariant_except_break
                index < usize::MAX || chain_nth(self.spec_core(), self.spec_first(), index as nat)
                    is None,
                self.wf(),
                self.spec_core() == old(self).spec_core(),
                self.spec_first() == old(self).spec_first(),
                self.total_index <= index + 1,
                old_len <= self.total_index,
                old(self)@.len() == old_len,
                was_exhausted == old(self).spec_exhausted(),
                self.spec_exhausted() == was_exhausted,
            ensures
                self.wf(),
                self.spec_core() == old(self).spec_core(),
                self.spec_first() == old(self).spec_first(),
                self.total_index <= index + 1,
                old_len <= self.total_index,
                old(self)@.len() == old_len,
                was_exhausted == old(self).spec_exhausted(),
                index < self.total_index ==> self.spec_exhausted() == was_exhausted,
                index >= self.total_index ==> chain_nth(
                    self.spec_core(),
                    self.spec_first(),
                    self.total_index as nat,
                ) is None && self.spec_exhausted() && (!was_exhausted ==> chain_stop(
                    self.spec_core(),
                    self.spec_first(),
                    self.total_index as nat,
                ) is None),
            decreases index + 1 - self.total_index,
        {
            let ghost old_ids = self.sector_ids;
            let ghost old_self = *self;
            proof {
                self.lemma_wf_regular();
            }
            let next = self.sector_ids.next();
            proof {
                assert(old_ids.produced(self.total_index as nat));
                assert forall|i: int| 0 <= i < self.total_index implies chain_nth(
                    self.spec_core(),
                    self.spec_first(),
                    i as nat,
                ) == Some(#[trigger] self.view()[i]) by {
                    assert(old_self.view()[i] == self.view()[i]);
                    assert(chain_nth(old_self.spec_core(), old_self.spec_first(), i as nat) == Some(old_self.view()[i]));
                }
            }
            match next {
                None => break,
                Some(Err(error)) => {
                    proof {
                        crate::sector::lemma_chain_ended(
                            self.spec_core(),
                            self.spec_first(),
                            self.total_index as nat,
                            index as nat,
                        );
                        lemma_chain_stop_stays(
                            self.spec_core(),
                            self.spec_first(),
                            self.total_index as nat,
                            index as nat,
                        );
                        lemma_flatten_len(self.cache@, self.total_index as nat);
                    }
                    return Err(error);
                },
                Some(Ok(new_sector_id)) => {
                    let ghost old_view = self.view();
                    proof {
                        lemma_flatten_len(self.cache@, self.total_index as nat);
                        lemma_chain_nth_regular(
                            self.spec_core(),
                            self.spec_first(),
                            self.total_index as nat,
                        );
                    }
                    self.extend_cache(new_sector_id);
                    proof {
                        assert forall|i: int| 0 <= i < self.total_index implies chain_nth(
                            self.spec_core(),
                            self.spec_first(),
                            i as nat,
                        ) == Some(#[trigger] self.view()[i]) by {
                            if i < self.total_index - 1 {
                                assert(self.view()[i] == old_view[i]);
                            }
                        }
                    }
                },
            }
        }
        let len = self.cache.len();
        if len > 0 {
            let last_range = self.cache[len - 1];
            if last_range.end_index == index {
                proof {
                    lemma_last(self.cache@, self.total_index as nat);
                    assert(self.view()[index as int] == last_range.end_sector_id);
                }
                return Ok(last_range.end_sector_id);
            }
        }
        proof {
            lemma_flatten_len(self.cache@, self.total_index as nat);
            if len > 0 {
                lemma_last(self.cache@, self.total_index as nat);
            }
            crate::sector::lemma_chain_ended(
                self.spec_core(),
                self.spec_first(),
                self.total_index as nat,
                index as nat,
            );
            lemma_chain_stop_stays(
                self.spec_core(),
                self.spec_first(),
                self.total_index as nat,
                index as nat,
            );
        }
        Err(CfError::from_kind(CfErrorInfo::OutOfRange(index)))
    }
}

} // verus!
