//! The sampler: chooses distinct row positions uniformly at random, and
//! collects the rows at those positions in one forward scan.

use crate::value::{rows_view, Row, ValueView};
use rand::rngs::ThreadRng;
use rand::Rng;
use std::collections::HashSet;
use vstd::prelude::*;

verus! {

/// Why a sample could not be taken.
#[derive(Clone, Copy, Debug, PartialEq, Eq, Structural)]
pub enum SampleError {
    /// More rows were asked for than there are: a ratio above one.
    TargetExceedsRows,
    /// The random draws were used up before enough distinct positions came.
    DrawLimitReached,
}

/// How many random draws one sample may take.
pub const DRAW_LIMIT: u64 = 0xffff_ffff_ffff_ffff;

/// The positions grow strictly from one to the next.
pub open spec fn is_ascending(positions: Seq<u64>) -> bool {
    forall|i: int, j: int| 0 <= i < j < positions.len() ==> positions[i] < positions[j]
}

/// Every position is below `limit`.
pub open spec fn all_below(positions: Seq<u64>, limit: int) -> bool {
    forall|i: int| 0 <= i < positions.len() ==> positions[i] < limit
}

/// Makes `rand::rngs::ThreadRng` known as an opaque type: a value of it is
/// only ever handed on to the draws.
#[verifier::external_type_specification]
#[verifier::external_body]
pub struct ExThreadRng(ThreadRng);

/// The random number generator of the current thread.
///
/// Trusted: calls `rand::thread_rng`, which fails only where the operating
/// system gives no randomness to seed it. Nothing is claimed of the generator.
#[verifier::external_body]
fn thread_generator() -> (rng: ThreadRng) {
    rand::thread_rng()
}

/// Draws a position below `bound` uniformly at random.
///
/// Trusted: calls `Rng::gen_range` of rand on the range from 0 up to and
/// without `bound`. It panics on an empty range, hence the precondition; the
/// contract claims that the draw lies in the range, and nothing of which
/// position comes.
#[verifier::external_body]
fn draw_below(rng: &mut ThreadRng, bound: u64) -> (position: u64)
    requires
        bound > 0,
    ensures
        position < bound,
{
    rng.gen_range(0..bound)
}

/// Sorts `items` into ascending order.
///
/// Trusted: calls `sort` of the standard slice. The contract claims what its
/// documentation says: the same items, each as often as before, in ascending
/// order.
#[verifier::external_body]
fn sort_ascending(items: &mut Vec<u64>)
    ensures
        final(items)@.to_multiset() == old(items)@.to_multiset(),
        forall|i: int, j: int|
            0 <= i <= j < final(items)@.len() ==> final(items)@[i] <= final(items)@[j],
{
    items.sort();
}

/// The distinct positions drawn so far, all below a limit.
pub struct PositionSet {
    limit: u64,
    members: HashSet<u64>,
    order: Vec<u64>,
}

impl View for PositionSet {
    type V = Set<u64>;

    closed spec fn view(&self) -> Set<u64> {
        self.order@.to_set()
    }
}

impl PositionSet {
    /// The representation is consistent: the positions are kept once each,
    /// and all of them are below the limit.
    pub closed spec fn wf(&self) -> bool {
        &&& self.order@.no_duplicates()
        &&& self.members@ == self.order@.to_set()
        &&& all_below(self.order@, self.limit as int)
    }

    /// The bound that every position of the set is below.
    pub closed spec fn limit(&self) -> u64 {
        self.limit
    }

    /// A set is finite, and all of its positions are below its limit.
    pub proof fn lemma_bounds(&self)
        requires
            self.wf(),
        ensures
            self@.finite(),
            forall|position: u64| self@.contains(position) ==> position < self.limit(),
    {
        vstd::seq_lib::seq_to_set_is_finite(self.order@);
        assert forall|position: u64| self@.contains(position) implies position
            < self.limit() by {
            let k = choose|k: int| 0 <= k < self.order@.len() && self.order@[k] == position;
        }
    }

    /// The empty set of positions below `limit`.
    pub fn new(limit: u64) -> (set: PositionSet)
        ensures
            set.wf(),
            set.limit() == limit,
            set@ == Set::<u64>::empty(),
    {
        let set = PositionSet { limit, members: HashSet::new(), order: Vec::new() };
        assert(set.order@.to_set() =~= Set::<u64>::empty());
        set
    }

    /// The number of positions in the set.
    pub fn len(&self) -> (n: usize)
        requires
            self.wf(),
        ensures
            n == self@.len(),
    {
        proof {
            self.order@.unique_seq_to_set();
        }
        self.order.len()
    }

    /// Takes the outcome of one draw: adds `position` unless the set holds it
    /// already. Returns whether it was added.
    pub fn offer(&mut self, position: u64) -> (added: bool)
        requires
            old(self).wf(),
            position < old(self).limit(),
        ensures
            final(self).wf(),
            final(self).limit() == old(self).limit(),
            final(self)@ == old(self)@.insert(position),
            added == !old(self)@.contains(position),
    {
        let added = self.members.insert(position);
        if added {
            self.order.push(position);
            proof {
                let before = old(self).order@;
                assert(self.order@ == before.push(position));
                assert(!before.contains(position));
                assert(self.order@.to_set() =~= before.to_set().insert(position)) by {
                    assert forall|p: u64| before.to_set().insert(position).contains(
                        p,
                    ) implies self.order@.to_set().contains(p) by {
                        if p == position {
                            assert(self.order@[before.len() as int] == p);
                        } else {
                            let k = choose|k: int| 0 <= k < before.len() && before[k] == p;
                            assert(self.order@[k] == p);
                        }
                    }
                }
            }
        } else {
            assert(self@ =~= old(self)@.insert(position));
        }
        added
    }

    /// The positions of the set in ascending order.
    pub fn into_sorted(self) -> (positions: Vec<u64>)
        requires
            self.wf(),
        ensures
            is_ascending(positions@),
            all_below(positions@, self.limit() as int),
            positions@.to_set() == self@,
            positions@.len() == self@.len(),
    {
        let ghost before = self.order@;
        let mut positions = self.order;
        sort_ascending(&mut positions);
        proof {
            broadcast use vstd::seq_lib::group_to_multiset_ensures;

            before.lemma_multiset_has_no_duplicates();
            positions@.lemma_multiset_has_no_duplicates_conv();
            before.unique_seq_to_set();
            vstd::seq_lib::to_multiset_len(before);
            vstd::seq_lib::to_multiset_len(positions@);
            assert forall|p: u64| positions@.contains(p) <==> before.contains(p) by {
                assert(positions@.to_multiset().count(p) == before.to_multiset().count(p));
            }
            assert(positions@.to_set() =~= before.to_set());
            assert forall|i: int| 0 <= i < positions@.len() implies positions@[i]
                < self.limit as int by {
                assert(positions@.contains(positions@[i]));
                assert(before.contains(positions@[i]));
            }
        }
        positions
    }
}

/// Every position below `total`, in ascending order.
fn all_positions(total: u64) -> (positions: Vec<u64>)
    ensures
        positions@.len() == total,
        forall|i: int| 0 <= i < total ==> positions@[i] == i,
{
    let mut positions: Vec<u64> = Vec::new();
    let mut next: u64 = 0;
    while next < total
        invariant
            next <= total,
            positions@.len() == next,
            forall|i: int| 0 <= i < next ==> positions@[i] == i,
        decreases total - next,
    {
        positions.push(next);
        next += 1;
    }
    positions
}

/// Chooses `target` distinct positions below `total` uniformly at random, and
/// returns them in ascending order, making at most `max_draws` random draws.
///
/// Positions are drawn one by one and a draw that repeats an earlier one is
/// thrown away, until `target` distinct positions are there or the draws are
/// used up. Where every row is asked for, the positions are listed without
/// drawing. A target above `total` is refused.
pub fn draw_positions_within(total: u64, target: u64, max_draws: u64) -> (drawn: Result<
    Vec<u64>,
    SampleError,
>)
    ensures
        match drawn {
            Ok(positions) => {
                &&& target <= total
                &&& positions@.len() == target
                &&& is_ascending(positions@)
                &&& all_below(positions@, total as int)
                &&& target == 0 || target == total || target <= max_draws
            },
            Err(SampleError::TargetExceedsRows) => target > total,
            Err(SampleError::DrawLimitReached) => 0 < target < total,
        },
{
    if target > total {
        return Err(SampleError::TargetExceedsRows);
    }
    if target == total {
        return Ok(all_positions(total));
    }
    let mut chosen = PositionSet::new(total);
    let mut rng = thread_generator();
    let mut draws_left: u64 = max_draws;
    while (chosen.len() as u64) < target && draws_left > 0
        invariant
            chosen.wf(),
            chosen.limit() == total,
            chosen@.len() <= target < total,
            draws_left <= max_draws,
            chosen@.len() <= max_draws - draws_left,
        decreases draws_left,
    {
        let position = draw_below(&mut rng, total);
        proof {
            chosen.lemma_bounds();
        }
        chosen.offer(position);
        draws_left -= 1;
    }
    if (chosen.len() as u64) < target {
        return Err(SampleError::DrawLimitReached);
    }
    Ok(chosen.into_sorted())
}

/// Chooses `target` distinct positions below `total` uniformly at random, and
/// returns them in ascending order, within `DRAW_LIMIT` draws.
pub fn draw_positions(total: u64, target: u64) -> (drawn: Result<Vec<u64>, SampleError>)
    ensures
        match drawn {
            Ok(positions) => {
                &&& target <= total
                &&& positions@.len() == target
                &&& is_ascending(positions@)
                &&& all_below(positions@, total as int)
            },
            Err(SampleError::TargetExceedsRows) => target > total,
            Err(SampleError::DrawLimitReached) => 0 < target < total,
        },
{
    draw_positions_within(total, target, DRAW_LIMIT)
}

/// The rows of `table` at `positions`, in the order of the positions.
pub open spec fn rows_at(table: Seq<Seq<ValueView>>, positions: Seq<u64>) -> Seq<Seq<ValueView>> {
    Seq::new(positions.len(), |k: int| table[positions[k] as int])
}

/// The state of one forward scan that picks out the rows at chosen positions.
///
/// The scan hands its rows to the cursor one by one, in order; the cursor
/// answers for each whether it is one of the chosen rows.
pub struct SampleCursor {
    positions: Vec<u64>,
    taken: usize,
    scanned: u64,
    total: u64,
}

impl SampleCursor {
    /// The chosen positions ascend and lie in the table, and the cursor stands
    /// between the positions that the scan has passed and those still ahead.
    pub closed spec fn wf(&self) -> bool {
        &&& is_ascending(self.positions@)
        &&& all_below(self.positions@, self.total as int)
        &&& self.taken <= self.positions@.len()
        &&& self.scanned <= self.total
        &&& forall|k: int| 0 <= k < self.taken ==> self.positions@[k] < self.scanned
        &&& forall|k: int|
            self.taken <= k < self.positions@.len() ==> self.positions@[k] >= self.scanned
    }

    /// The chosen positions.
    pub closed spec fn positions(&self) -> Seq<u64> {
        self.positions@
    }

    /// The number of rows in the table.
    pub closed spec fn total(&self) -> nat {
        self.total as nat
    }

    /// How many rows the scan has passed: the position of the row that comes next.
    pub closed spec fn scanned(&self) -> nat {
        self.scanned as nat
    }

    /// How many of the passed rows were kept.
    pub closed spec fn taken(&self) -> nat {
        self.taken as nat
    }

    /// The kept rows are those whose positions the scan has passed: a chosen
    /// position is among the first `taken()` exactly when it is below
    /// `scanned()`.
    pub proof fn lemma_progress(&self)
        requires
            self.wf(),
        ensures
            is_ascending(self.positions()),
            all_below(self.positions(), self.total() as int),
            self.taken() <= self.positions().len(),
            self.scanned() <= self.total(),
            forall|k: int|
                0 <= k < self.positions().len() ==> (k < self.taken() <==> self.positions()[k]
                    < self.scanned()),
    {
    }

    /// A cursor at the start of a table of `total` rows.
    pub fn new(positions: Vec<u64>, total: u64) -> (cursor: SampleCursor)
        requires
            is_ascending(positions@),
            all_below(positions@, total as int),
        ensures
            cursor.wf(),
            cursor.positions() == positions@,
            cursor.total() == total,
            cursor.scanned() == 0,
            cursor.taken() == 0,
    {
        SampleCursor { positions, taken: 0, scanned: 0, total }
    }

    /// Whether every chosen row has been kept, so that the scan may stop.
    pub fn is_exhausted(&self) -> (done: bool)
        requires
            self.wf(),
        ensures
            done == (self.taken() == self.positions().len()),
    {
        self.taken == self.positions.len()
    }

    /// Passes the next row of the scan. Returns whether to keep it: whether
    /// its position is one of the chosen.
    pub fn step(&mut self) -> (keep: bool)
        requires
            old(self).wf(),
            old(self).taken() < old(self).positions().len(),
        ensures
            final(self).wf(),
            final(self).positions() == old(self).positions(),
            final(self).total() == old(self).total(),
            final(self).scanned() == old(self).scanned() + 1,
            final(self).taken() == old(self).taken() + if keep { 1nat } else { 0nat },
            keep == old(self).positions().contains(old(self).scanned() as u64),
            keep == (old(self).positions()[old(self).taken() as int] == old(self).scanned()),
    {
        let keep = self.positions[self.taken] == self.scanned;
        proof {
            if !keep && self.positions@.contains(self.scanned) {
                let k = choose|k: int|
                    0 <= k < self.positions@.len() && self.positions@[k] == self.scanned;
                assert(false);
            }
        }
        if keep {
            assert(self.taken < self.positions.len());
            self.taken += 1;
        }
        self.scanned += 1;
        keep
    }
}

/// Collects the rows of `rows` at `positions` in one pass over `rows`, which
/// ends as soon as the last chosen row has been passed.
pub fn sample_rows(rows: &Vec<Row>, positions: Vec<u64>) -> (sampled: Vec<Row>)
    requires
        is_ascending(positions@),
        all_below(positions@, rows@.len() as int),
    ensures
        rows_view(sampled@) == rows_at(rows_view(rows@), positions@),
{
    let ghost chosen = positions@;
    let mut cursor = SampleCursor::new(positions, rows.len() as u64);
    let mut sampled: Vec<Row> = Vec::new();
    let mut i: usize = 0;
    while i < rows.len() && !cursor.is_exhausted()
        invariant
            i <= rows.len(),
            cursor.wf(),
            cursor.positions() == chosen,
            cursor.total() == rows@.len(),
            cursor.scanned() == i,
            sampled@.len() == cursor.taken(),
            forall|k: int|
                0 <= k < sampled@.len() ==> (#[trigger] sampled@[k])@ == rows@[chosen[k] as int]@,
        decreases rows.len() - i,
    {
        proof {
            cursor.lemma_progress();
        }
        if cursor.step() {
            sampled.push(rows[i].clone());
        }
        i += 1;
    }
    proof {
        cursor.lemma_progress();
        if cursor.taken() < chosen.len() {
            assert(chosen[cursor.taken() as int] < rows@.len());
        }
        assert(rows_view(sampled@) =~= rows_at(rows_view(rows@), chosen));
    }
    sampled
}

/// A selection of `target` rows of a table of `total` rows: distinct
/// positions in the table, in ascending order.
pub open spec fn is_selection(positions: Seq<u64>, total: int, target: int) -> bool {
    &&& positions.len() == target
    &&& is_ascending(positions)
    &&& all_below(positions, total)
}

/// Takes a uniform random sample of `target` rows of `rows`.
///
/// The sample holds `target` rows, each from a position of its own, in the
/// order in which they stand in `rows`.
pub fn sample(rows: &Vec<Row>, target: u64) -> (sampled: Result<Vec<Row>, SampleError>)
    ensures
        match sampled {
            Ok(kept) => {
                &&& target <= rows@.len()
                &&& kept@.len() == target
                &&& exists|positions: Seq<u64>|
                    #![trigger rows_at(rows_view(rows@), positions)]
                    {
                        &&& is_selection(positions, rows@.len() as int, target as int)
                        &&& rows_view(kept@) == rows_at(rows_view(rows@), positions)
                    }
            },
            Err(SampleError::TargetExceedsRows) => target > rows@.len(),
            Err(SampleError::DrawLimitReached) => 0 < target < rows@.len(),
        },
{
    match draw_positions(rows.len() as u64, target) {
        Ok(positions) => {
            let ghost chosen = positions@;
            let kept = sample_rows(rows, positions);
            assert(rows_view(kept@).len() == chosen.len());
            assert(is_selection(chosen, rows@.len() as int, target as int));
            Ok(kept)
        },
        Err(error) => Err(error),
    }
}

/// A selection never holds more rows than the table, and its k-th position
/// is at least k: the sample is a part of the table.
pub proof fn lemma_selection_fits(positions: Seq<u64>, total: int)
    requires
        0 <= total,
        is_ascending(positions),
        all_below(positions, total),
    ensures
        positions.len() <= total,
        forall|k: int| 0 <= k < positions.len() ==> positions[k] >= k,
    decreases positions.len(),
{
    if positions.len() > 0 {
        let shorter = positions.drop_last();
        lemma_selection_fits(shorter, total);
        assert forall|k: int| 0 <= k < positions.len() implies positions[k] >= k by {
            if k < shorter.len() {
                assert(shorter[k] == positions[k]);
            } else if k > 0 {
                assert(shorter[k - 1] == positions[k - 1]);
                assert(positions[k - 1] < positions[k]);
            }
        }
        assert(positions[positions.len() - 1] >= positions.len() - 1);
    }
}

/// The selection of every row is the table itself: a sample at ratio one
/// returns all rows, unchanged and in order.
pub proof fn lemma_full_selection(table: Seq<Seq<ValueView>>, positions: Seq<u64>)
    requires
        is_selection(positions, table.len() as int, table.len() as int),
    ensures
        rows_at(table, positions) == table,
{
    lemma_selection_fits(positions, table.len() as int);
    assert forall|k: int| 0 <= k < positions.len() implies positions[k] == k by {
        lemma_selection_tail(positions, table.len() as int, k);
    }
    assert(rows_at(table, positions) =~= table);
}

/// In a selection of `total` rows, a position is as far from the end of the
/// table as its place is from the end of the selection.
proof fn lemma_selection_tail(positions: Seq<u64>, total: int, k: int)
    requires
        is_ascending(positions),
        all_below(positions, total),
        0 <= k < positions.len(),
    ensures
        positions[k] <= total - (positions.len() - k),
    decreases positions.len() - k,
{
    if k + 1 < positions.len() {
        lemma_selection_tail(positions, total, k + 1);
    }
}

} // verus!
