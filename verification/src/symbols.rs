//! Offset-to-source index built from a module's debug records.
//!
//! A table is an ascending sequence of ranges. A closed range `[start, end)`
//! never reaches into a later range; an open-ended range runs up to the start
//! of the range that follows it, or without bound when it is the last one.
//! Resolution picks the closest range starting at or before the offset and
//! answers with its location when that range contains the offset.
//!
//! A table is built from records in any order. They are sorted by start
//! offset, records with the same start staying in the order of their
//! definition, and then freed of overlap: where two records contend for
//! offsets, the one that comes first keeps them, and the later one is cut
//! back to what is left of it, or dropped where nothing is left or where it
//! would begin exactly where the range kept before it begins.

use crate::container::{debug_records, module_records};
use vstd::prelude::*;

verus! {

/// A resolved position in the source code of the contract.
#[derive(Clone, Debug, PartialEq, Eq)]
pub struct SourceLocation {
    pub file: String,
    pub line: u32,
    pub column: Option<u32>,
}

/// The mathematical value of a [`SourceLocation`].
pub struct LocationView {
    pub file: Seq<char>,
    pub line: u32,
    pub column: Option<u32>,
}

impl View for SourceLocation {
    type V = LocationView;

    open spec fn view(&self) -> LocationView {
        LocationView { file: self.file@, line: self.line, column: self.column }
    }
}

/// One debug record: the code offsets `[start_offset, end_offset)` come from
/// `file` at `line`. Without an end the range is open-ended.
#[derive(Clone, Debug, PartialEq, Eq)]
pub struct SymbolRange {
    pub start_offset: u64,
    pub end_offset: Option<u64>,
    pub file: String,
    pub line: u32,
    pub column: Option<u32>,
}

/// The mathematical value of a [`SymbolRange`].
pub struct RangeView {
    pub start: u64,
    pub end: Option<u64>,
    pub file: Seq<char>,
    pub line: u32,
    pub column: Option<u32>,
}

impl View for SymbolRange {
    type V = RangeView;

    open spec fn view(&self) -> RangeView {
        RangeView {
            start: self.start_offset,
            end: self.end_offset,
            file: self.file@,
            line: self.line,
            column: self.column,
        }
    }
}

impl RangeView {
    /// `offset` lies at or past the start and, where an end is given, before it.
    pub open spec fn contains(self, offset: u64) -> bool {
        self.start <= offset && (self.end matches Some(e) ==> offset < e)
    }

    /// A closed range holds at least one offset.
    pub open spec fn is_not_empty(self) -> bool {
        self.end matches Some(e) ==> self.start < e
    }

    /// A closed range ends at or before `limit`.
    pub open spec fn ends_by(self, limit: u64) -> bool {
        self.end matches Some(e) ==> e <= limit
    }

    /// The source position this range stands for.
    pub open spec fn location(self) -> LocationView {
        LocationView { file: self.file, line: self.line, column: self.column }
    }
}

/// The values of a sequence of ranges, one for one.
pub open spec fn range_views(v: Seq<SymbolRange>) -> Seq<RangeView> {
    v.map_values(|r: SymbolRange| r@)
}

/// The value of an optional location.
pub open spec fn location_view(loc: Option<SourceLocation>) -> Option<LocationView> {
    match loc {
        Some(l) => Some(l@),
        None => None,
    }
}

// ---------------------------------------------------------------------------
// Ordering by start offset
// ---------------------------------------------------------------------------

/// Starts never decrease along the sequence.
pub open spec fn ordered_by_start(s: Seq<RangeView>) -> bool {
    forall|i: int, j: int| 0 <= i < j < s.len() ==> s[i].start <= s[j].start
}

/// Where `r` goes in `s`: behind every range that starts at or before it, so
/// that ranges with equal starts keep the order in which they were defined.
pub open spec fn insert_position(s: Seq<RangeView>, start: u64) -> int
    decreases s.len(),
{
    if s.len() == 0 {
        0
    } else if s.last().start <= start {
        s.len() as int
    } else {
        insert_position(s.drop_last(), start)
    }
}

/// `s` with `r` put at its place by start offset.
pub open spec fn insert_by_start(s: Seq<RangeView>, r: RangeView) -> Seq<RangeView> {
    s.insert(insert_position(s, r.start), r)
}

/// The ranges of `s` in ascending order of start; equal starts stay in
/// definition order.
pub open spec fn sorted_by_start(s: Seq<RangeView>) -> Seq<RangeView>
    decreases s.len(),
{
    if s.len() == 0 {
        s
    } else {
        insert_by_start(sorted_by_start(s.drop_last()), s.last())
    }
}

pub proof fn lemma_insert_position_bounds(s: Seq<RangeView>, start: u64)
    ensures
        0 <= insert_position(s, start) <= s.len(),
        forall|i: int| insert_position(s, start) <= i < s.len() ==> s[i].start > start,
        insert_position(s, start) > 0 ==> s[insert_position(s, start) - 1].start <= start,
    decreases s.len(),
{
    if s.len() > 0 && s.last().start > start {
        let front = s.drop_last();
        lemma_insert_position_bounds(front, start);
        assert forall|i: int| insert_position(s, start) <= i < s.len() implies s[i].start
            > start by {
            if i < front.len() {
                assert(s[i] == front[i]);
            }
        }
    }
}

/// Inserting by start keeps an ordered sequence ordered.
pub proof fn lemma_insert_keeps_order(s: Seq<RangeView>, r: RangeView)
    requires
        ordered_by_start(s),
    ensures
        ordered_by_start(insert_by_start(s, r)),
        insert_by_start(s, r).len() == s.len() + 1,
        insert_by_start(s, r).to_multiset() == s.to_multiset().insert(r),
{
    let p = insert_position(s, r.start);
    lemma_insert_position_bounds(s, r.start);
    let t = insert_by_start(s, r);
    assert forall|i: int, j: int| 0 <= i < j < t.len() implies t[i].start <= t[j].start by {
        if j < p {
            assert(t[i] == s[i] && t[j] == s[j]);
        } else if j == p {
            assert(t[i] == s[i]);
            if p > 0 {
                assert(s[i].start <= s[p - 1].start);
            }
        } else if i < p {
            assert(t[i] == s[i] && t[j] == s[j - 1]);
        } else if i == p {
            assert(t[j] == s[j - 1]);
        } else {
            assert(t[i] == s[i - 1] && t[j] == s[j - 1]);
        }
    }
    assert(t.to_multiset() == s.to_multiset().insert(r)) by {
        broadcast use vstd::seq_lib::group_to_multiset_ensures;

        let head = s.take(p);
        let tail = s.skip(p);
        assert(s =~= head + tail);
        assert(t =~= head.push(r) + tail);
        vstd::seq_lib::lemma_multiset_commutative(head, tail);
        vstd::seq_lib::lemma_multiset_commutative(head.push(r), tail);
        assert(head.push(r).to_multiset() =~= head.to_multiset().insert(r));
        assert(t.to_multiset() =~= s.to_multiset().insert(r));
    }
}

/// Sorting orders the ranges and neither adds nor loses one.
pub proof fn lemma_sorted_by_start(s: Seq<RangeView>)
    ensures
        ordered_by_start(sorted_by_start(s)),
        sorted_by_start(s).len() == s.len(),
        sorted_by_start(s).to_multiset() == s.to_multiset(),
    decreases s.len(),
{
    if s.len() == 0 {
    } else {
        lemma_sorted_by_start(s.drop_last());
        lemma_insert_keeps_order(sorted_by_start(s.drop_last()), s.last());
        assert(s.to_multiset() == s.drop_last().to_multiset().insert(s.last())) by {
            broadcast use vstd::seq_lib::group_to_multiset_ensures;

            assert(s.drop_last().push(s.last()) =~= s);
        }
    }
}

// ---------------------------------------------------------------------------
// Removing overlap
// ---------------------------------------------------------------------------

/// What a table guarantees: starts strictly ascend, a closed range is not
/// empty, and a closed range ends at or before the start of every later one.
pub open spec fn well_formed(s: Seq<RangeView>) -> bool {
    &&& forall|i: int, j: int| 0 <= i < j < s.len() ==> s[i].start < s[j].start
    &&& forall|i: int| 0 <= i < s.len() ==> (#[trigger] s[i]).is_not_empty()
    &&& forall|i: int, j: int| 0 <= i < j < s.len() ==> s[i].ends_by(s[j].start)
}

/// The offset up to which closed ranges already kept have claimed the code:
/// the end of the last closed one, or zero.
pub open spec fn claimed_until(kept: Seq<RangeView>) -> u64
    decreases kept.len(),
{
    if kept.len() == 0 {
        0
    } else {
        match kept.last().end {
            Some(e) => e,
            None => claimed_until(kept.drop_last()),
        }
    }
}

/// Where `r` may begin once the earlier ranges have taken what overlaps.
pub open spec fn placed_start(kept: Seq<RangeView>, r: RangeView) -> u64 {
    if r.start >= claimed_until(kept) {
        r.start
    } else {
        claimed_until(kept)
    }
}

/// Something of `r` is left after the earlier ranges took their part, and it
/// begins past the start of the range kept last.
pub open spec fn leaves_room(kept: Seq<RangeView>, r: RangeView) -> bool {
    &&& r.end matches Some(e) ==> placed_start(kept, r) < e
    &&& kept.len() > 0 ==> kept.last().start < placed_start(kept, r)
}

/// `kept` followed by what is left of `r`, if anything is: on overlap the
/// range defined first keeps the region and the later one is cut back.
pub open spec fn place_range(kept: Seq<RangeView>, r: RangeView) -> Seq<RangeView> {
    if leaves_room(kept, r) {
        kept.push(
            RangeView {
                start: placed_start(kept, r),
                end: r.end,
                file: r.file,
                line: r.line,
                column: r.column,
            },
        )
    } else {
        kept
    }
}

/// The ranges of `s`, taken in order, each cut back to what the ranges before
/// it left free.
pub open spec fn without_overlap(s: Seq<RangeView>) -> Seq<RangeView>
    decreases s.len(),
{
    if s.len() == 0 {
        s
    } else {
        place_range(without_overlap(s.drop_last()), s.last())
    }
}

proof fn lemma_claimed_covers_closed(kept: Seq<RangeView>)
    requires
        well_formed(kept),
    ensures
        forall|i: int| 0 <= i < kept.len() ==> (#[trigger] kept[i]).ends_by(claimed_until(kept)),
    decreases kept.len(),
{
    if kept.len() > 0 {
        let front = kept.drop_last();
        assert forall|i: int, j: int| 0 <= i < j < front.len() implies front[i].start
            < front[j].start by {
            assert(front[i] == kept[i] && front[j] == kept[j]);
        }
        assert forall|i: int| 0 <= i < front.len() implies (#[trigger] front[i]).is_not_empty() by {
            assert(front[i] == kept[i]);
        }
        assert forall|i: int, j: int| 0 <= i < j < front.len() implies front[i].ends_by(
            front[j].start,
        ) by {
            assert(front[i] == kept[i] && front[j] == kept[j]);
            assert(kept[i].ends_by(kept[j].start));
        }
        lemma_claimed_covers_closed(front);
        assert forall|i: int| 0 <= i < kept.len() implies (#[trigger] kept[i]).ends_by(
            claimed_until(kept),
        ) by {
            let last = kept.len() - 1;
            if i < last {
                assert(kept[i] == front[i]);
                assert(kept[i].ends_by(kept[last].start));
                assert(kept[last].is_not_empty());
            }
        }
    }
}

/// Placing a range keeps the guarantees of a table.
pub proof fn lemma_place_range_well_formed(kept: Seq<RangeView>, r: RangeView)
    requires
        well_formed(kept),
    ensures
        well_formed(place_range(kept, r)),
{
    if leaves_room(kept, r) {
        lemma_claimed_covers_closed(kept);
        let t = place_range(kept, r);
        let n = kept.len() as int;
        assert(t[n].start == placed_start(kept, r));
        assert forall|i: int, j: int| 0 <= i < j < t.len() implies t[i].start < t[j].start by {
            if j < n {
                assert(t[i] == kept[i] && t[j] == kept[j]);
            } else {
                assert(t[i] == kept[i]);
                assert(kept[i].start <= kept[n - 1].start);
            }
        }
        assert forall|i: int| 0 <= i < t.len() implies (#[trigger] t[i]).is_not_empty() by {
            if i < n {
                assert(t[i] == kept[i]);
            }
        }
        assert forall|i: int, j: int| 0 <= i < j < t.len() implies t[i].ends_by(t[j].start) by {
            assert(t[i] == kept[i]);
            if j < n {
                assert(t[j] == kept[j]);
                assert(kept[i].ends_by(kept[j].start));
            }
        }
    }
}

/// Whatever the input, what is left after removing overlap is a table:
/// ascending, and free of overlap.
pub proof fn lemma_without_overlap_well_formed(s: Seq<RangeView>)
    ensures
        well_formed(without_overlap(s)),
    decreases s.len(),
{
    if s.len() > 0 {
        lemma_without_overlap_well_formed(s.drop_last());
        lemma_place_range_well_formed(without_overlap(s.drop_last()), s.last());
    }
}

// ---------------------------------------------------------------------------
// Resolution
// ---------------------------------------------------------------------------

/// The index of the last range that starts at or before `offset`.
pub open spec fn closest_preceding(s: Seq<RangeView>, offset: u64) -> Option<int>
    decreases s.len(),
{
    if s.len() == 0 {
        None
    } else if s.last().start <= offset {
        Some(s.len() - 1)
    } else {
        closest_preceding(s.drop_last(), offset)
    }
}

/// The location that `offset` resolves to: that of the closest range starting
/// at or before it, provided the range contains the offset.
pub open spec fn resolve_spec(s: Seq<RangeView>, offset: u64) -> Option<LocationView> {
    match closest_preceding(s, offset) {
        Some(i) => if s[i].contains(offset) {
            Some(s[i].location())
        } else {
            None
        },
        None => None,
    }
}

/// `closest_preceding` names the one index at or before which the starts do
/// not exceed `offset` while every later start does.
pub proof fn lemma_closest_preceding(s: Seq<RangeView>, offset: u64)
    ensures
        match closest_preceding(s, offset) {
            Some(i) => 0 <= i < s.len() && s[i].start <= offset && forall|j: int|
                i < j < s.len() ==> s[j].start > offset,
            None => forall|j: int| 0 <= j < s.len() ==> s[j].start > offset,
        },
    decreases s.len(),
{
    if s.len() > 0 && s.last().start > offset {
        let front = s.drop_last();
        lemma_closest_preceding(front, offset);
        match closest_preceding(front, offset) {
            Some(i) => {
                assert(s[i] == front[i]);
                assert forall|j: int| i < j < s.len() implies s[j].start > offset by {
                    if j < front.len() {
                        assert(s[j] == front[j]);
                    }
                }
            },
            None => {
                assert forall|j: int| 0 <= j < s.len() implies s[j].start > offset by {
                    if j < front.len() {
                        assert(s[j] == front[j]);
                    }
                }
            },
        }
    }
}

/// An index whose start is at or before `offset`, with every later start past
/// it, is the closest preceding one.
pub proof fn lemma_closest_preceding_is(s: Seq<RangeView>, offset: u64, i: int)
    requires
        0 <= i < s.len(),
        s[i].start <= offset,
        forall|j: int| i < j < s.len() ==> s[j].start > offset,
    ensures
        closest_preceding(s, offset) == Some(i),
    decreases s.len(),
{
    if i < s.len() - 1 {
        let front = s.drop_last();
        assert(front[i] == s[i]);
        assert forall|j: int| i < j < front.len() implies front[j].start > offset by {
            assert(front[j] == s[j]);
        }
        lemma_closest_preceding_is(front, offset, i);
    }
}

/// Where every start is past `offset`, no range precedes it.
pub proof fn lemma_closest_preceding_none(s: Seq<RangeView>, offset: u64)
    requires
        forall|j: int| 0 <= j < s.len() ==> s[j].start > offset,
    ensures
        closest_preceding(s, offset) is None,
    decreases s.len(),
{
    if s.len() > 0 {
        let front = s.drop_last();
        assert forall|j: int| 0 <= j < front.len() implies front[j].start > offset by {
            assert(front[j] == s[j]);
        }
        lemma_closest_preceding_none(front, offset);
    }
}

// ---------------------------------------------------------------------------
// The table
// ---------------------------------------------------------------------------

impl SourceLocation {
    /// A copy with the same file, line and column.
    pub fn duplicate(&self) -> (copy: SourceLocation)
        ensures
            copy == *self,
    {
        SourceLocation { file: self.file.clone(), line: self.line, column: self.column }
    }
}

impl SymbolRange {
    /// A copy with the same offsets and location.
    pub fn duplicate(&self) -> (copy: SymbolRange)
        ensures
            copy == *self,
    {
        SymbolRange {
            start_offset: self.start_offset,
            end_offset: self.end_offset,
            file: self.file.clone(),
            line: self.line,
            column: self.column,
        }
    }

    /// Whether `offset` falls into `[start_offset, end_offset)`.
    pub fn contains(&self, offset: u64) -> (hit: bool)
        ensures
            hit == self@.contains(offset),
    {
        if offset < self.start_offset {
            return false;
        }
        match self.end_offset {
            Some(e) => offset < e,
            None => true,
        }
    }

    /// The source position this range stands for.
    pub fn location(&self) -> (loc: SourceLocation)
        ensures
            loc@ == self@.location(),
    {
        SourceLocation { file: self.file.clone(), line: self.line, column: self.column }
    }
}

proof fn lemma_views_insert(v: Seq<SymbolRange>, p: int, r: SymbolRange)
    requires
        0 <= p <= v.len(),
    ensures
        range_views(v.insert(p, r)) == range_views(v).insert(p, r@),
{
    assert(range_views(v.insert(p, r)) =~= range_views(v).insert(p, r@));
}

proof fn lemma_views_push(v: Seq<SymbolRange>, r: SymbolRange)
    ensures
        range_views(v.push(r)) == range_views(v).push(r@),
{
    assert(range_views(v.push(r)) =~= range_views(v).push(r@));
}

/// The records in ascending order of start, equal starts in definition order.
pub fn sort_ranges(records: &Vec<SymbolRange>) -> (sorted: Vec<SymbolRange>)
    ensures
        range_views(sorted@) == sorted_by_start(range_views(records@)),
{
    let ghost all = range_views(records@);
    let mut sorted: Vec<SymbolRange> = Vec::new();
    let mut k: usize = 0;
    assert(all.take(0) =~= Seq::<RangeView>::empty());
    while k < records.len()
        invariant
            k <= records.len(),
            all == range_views(records@),
            range_views(sorted@) == sorted_by_start(all.take(k as int)),
        decreases records.len() - k,
    {
        let r = records[k].duplicate();
        let ghost cur = range_views(sorted@);
        let mut p: usize = sorted.len();
        assert(cur.take(p as int) =~= cur);
        while p > 0 && sorted[p - 1].start_offset > r.start_offset
            invariant
                p <= sorted.len(),
                cur == range_views(sorted@),
                insert_position(cur, r.start_offset) == insert_position(
                    cur.take(p as int),
                    r.start_offset,
                ),
            decreases p,
        {
            assert(cur.take(p as int).drop_last() =~= cur.take(p - 1));
            p -= 1;
        }
        proof {
            assert(insert_position(cur, r.start_offset) == p as int);
            lemma_views_insert(sorted@, p as int, r);
            assert(all.take(k + 1).drop_last() =~= all.take(k as int));
            assert(all.take(k + 1).last() == r@);
        }
        sorted.insert(p, r);
        k += 1;
    }
    assert(all.take(k as int) =~= all);
    sorted
}

/// The ranges of `sorted`, in order, each cut back to what those before it
/// left free; what has nothing left is dropped.
pub fn remove_overlap(sorted: &Vec<SymbolRange>) -> (kept: Vec<SymbolRange>)
    ensures
        range_views(kept@) == without_overlap(range_views(sorted@)),
        well_formed(range_views(kept@)),
{
    let ghost all = range_views(sorted@);
    let mut kept: Vec<SymbolRange> = Vec::new();
    let mut frontier: u64 = 0;
    let mut k: usize = 0;
    assert(all.take(0) =~= Seq::<RangeView>::empty());
    while k < sorted.len()
        invariant
            k <= sorted.len(),
            all == range_views(sorted@),
            range_views(kept@) == without_overlap(all.take(k as int)),
            frontier == claimed_until(range_views(kept@)),
        decreases sorted.len() - k,
    {
        let r = &sorted[k];
        let ghost before = range_views(kept@);
        let lo: u64 = if r.start_offset >= frontier {
            r.start_offset
        } else {
            frontier
        };
        let fits = match r.end_offset {
            Some(e) => lo < e,
            None => true,
        };
        let ahead = kept.len() == 0 || kept[kept.len() - 1].start_offset < lo;
        proof {
            assert(all.take(k + 1).drop_last() =~= all.take(k as int));
            assert(all.take(k + 1).last() == r@);
            assert(lo == placed_start(before, r@));
            assert((fits && ahead) == leaves_room(before, r@));
        }
        if fits && ahead {
            let cut = SymbolRange {
                start_offset: lo,
                end_offset: r.end_offset,
                file: r.file.clone(),
                line: r.line,
                column: r.column,
            };
            proof {
                lemma_views_push(kept@, cut);
                assert(before.push(cut@).drop_last() =~= before);
            }
            kept.push(cut);
            if let Some(e) = r.end_offset {
                frontier = e;
            }
        }
        k += 1;
    }
    proof {
        assert(all.take(k as int) =~= all);
        lemma_without_overlap_well_formed(all);
    }
    kept
}

/// An index from code offsets to source locations, fixed once built.
pub struct DebugSymbolTable {
    ranges: Vec<SymbolRange>,
}

impl View for DebugSymbolTable {
    type V = Seq<RangeView>;

    closed spec fn view(&self) -> Seq<RangeView> {
        range_views(self.ranges@)
    }
}

impl DebugSymbolTable {
    #[verifier::type_invariant]
    spec fn ascending_without_overlap(self) -> bool {
        well_formed(range_views(self.ranges@))
    }

    /// The table of a module that carries no debug records.
    pub fn empty() -> (table: DebugSymbolTable)
        ensures
            table@ == Seq::<RangeView>::empty(),
    {
        let ranges: Vec<SymbolRange> = Vec::new();
        assert(range_views(ranges@) =~= Seq::<RangeView>::empty());
        DebugSymbolTable { ranges }
    }

    /// Builds the table of `records`: sorted by start offset, then freed of
    /// overlap, the range defined first keeping the contested region.
    pub fn from_ranges(records: &Vec<SymbolRange>) -> (table: DebugSymbolTable)
        ensures
            table@ == without_overlap(sorted_by_start(range_views(records@))),
            well_formed(table@),
    {
        let sorted = sort_ranges(records);
        let ranges = remove_overlap(&sorted);
        DebugSymbolTable { ranges }
    }

    /// True iff the table holds at least one range.
    pub fn has_debug_symbols(&self) -> (present: bool)
        ensures
            present == (self@.len() > 0),
    {
        self.ranges.len() > 0
    }

    /// The number of ranges.
    pub fn len(&self) -> (n: usize)
        ensures
            n == self@.len(),
    {
        self.ranges.len()
    }

    /// The ranges in table order.
    pub fn ranges(&self) -> (out: Vec<SymbolRange>)
        ensures
            range_views(out@) == self@,
            well_formed(range_views(out@)),
    {
        proof {
            use_type_invariant(self);
        }
        let mut out: Vec<SymbolRange> = Vec::new();
        let mut k: usize = 0;
        while k < self.ranges.len()
            invariant
                k <= self.ranges.len(),
                out@ == self.ranges@.take(k as int),
            decreases self.ranges.len() - k,
        {
            let r = self.ranges[k].duplicate();
            assert(self.ranges@.take(k + 1) =~= self.ranges@.take(k as int).push(r));
            out.push(r);
            k += 1;
        }
        assert(self.ranges@.take(k as int) =~= self.ranges@);
        out
    }

    /// Resolves `offset` by binary search: the closest range starting at or
    /// before it answers, if it contains the offset.
    pub fn resolve(&self, offset: u64) -> (loc: Option<SourceLocation>)
        ensures
            location_view(loc) == resolve_spec(self@, offset),
    {
        proof {
            use_type_invariant(self);
        }
        let ghost s = range_views(self.ranges@);
        let n = self.ranges.len();
        let mut lo: usize = 0;
        let mut hi: usize = n;
        while lo < hi
            invariant
                lo <= hi <= n,
                n == self.ranges.len(),
                s == range_views(self.ranges@),
                well_formed(s),
                forall|i: int| 0 <= i < lo ==> (#[trigger] s[i]).start <= offset,
                forall|i: int| hi <= i < n ==> (#[trigger] s[i]).start > offset,
            decreases hi - lo,
        {
            let mid = lo + (hi - lo) / 2;
            if self.ranges[mid].start_offset <= offset {
                assert forall|i: int| 0 <= i < mid + 1 implies (#[trigger] s[i]).start
                    <= offset by {
                    if i < mid {
                        assert(s[i].start < s[mid as int].start);
                    }
                }
                lo = mid + 1;
            } else {
                assert forall|i: int| mid <= i < n implies (#[trigger] s[i]).start > offset by {
                    if mid < i {
                        assert(s[mid as int].start < s[i].start);
                    }
                }
                hi = mid;
            }
        }
        if lo == 0 {
            proof {
                lemma_closest_preceding_none(s, offset);
            }
            None
        } else {
            let r = &self.ranges[lo - 1];
            proof {
                lemma_closest_preceding_is(s, offset, lo - 1);
            }
            if r.contains(offset) {
                Some(r.location())
            } else {
                None
            }
        }
    }

    /// Builds the table of a compiled module from the debug records it
    /// carries; a module without such records gets the empty table.
    pub fn build(module_bytes: &[u8]) -> (table: DebugSymbolTable)
        ensures
            table@ == module_table(module_bytes@),
            well_formed(table@),
    {
        let records = debug_records(module_bytes);
        DebugSymbolTable::from_ranges(&records)
    }
}

/// The table of the module `m`: its debug records, sorted by start offset and
/// freed of overlap.
pub open spec fn module_table(m: Seq<u8>) -> Seq<RangeView> {
    without_overlap(sorted_by_start(module_records(m)))
}

// ---------------------------------------------------------------------------
// What holds of every table
// ---------------------------------------------------------------------------

/// The range at `i` answers for `offset`: it contains the offset, and the
/// next range has not begun yet.
pub open spec fn answers(s: Seq<RangeView>, i: int, offset: u64) -> bool {
    &&& 0 <= i < s.len()
    &&& s[i].contains(offset)
    &&& i + 1 < s.len() ==> offset < s[i + 1].start
}

/// Once a file has been left, the table does not come back to it.
pub open spec fn files_in_append_order(s: Seq<RangeView>) -> bool {
    forall|i: int, j: int, k: int|
        #![trigger s[i], s[j], s[k]]
        0 <= i < j < k < s.len() && s[i].file == s[k].file ==> s[j].file == s[i].file
}

/// Every range of file `f` stands before every range of file `g`.
pub open spec fn file_comes_before(s: Seq<RangeView>, f: Seq<char>, g: Seq<char>) -> bool {
    forall|a: int, b: int|
        #![trigger s[a], s[b]]
        0 <= a < s.len() && 0 <= b < s.len() && s[a].file == f && s[b].file == g ==> a < b
}

/// An empty table resolves no offset.
pub proof fn lemma_empty_table_resolves_nothing(offset: u64)
    ensures
        resolve_spec(Seq::<RangeView>::empty(), offset) is None,
{
}

/// The same offset resolves to the same location, however often it is asked.
pub proof fn lemma_resolve_is_repeatable(s: Seq<RangeView>, first: u64, second: u64)
    requires
        first == second,
    ensures
        resolve_spec(s, first) == resolve_spec(s, second),
{
}

/// Ranges of a table do not overlap: at most one answers for an offset.
pub proof fn lemma_ranges_do_not_overlap(s: Seq<RangeView>, offset: u64, i: int, j: int)
    requires
        well_formed(s),
        answers(s, i, offset),
        answers(s, j, offset),
    ensures
        i == j,
{
    if i < j {
        assert(s[i + 1].start <= s[j].start) by {
            if i + 1 < j {
                assert(s[i + 1].start < s[j].start);
            }
        }
    } else if j < i {
        assert(s[j + 1].start <= s[i].start) by {
            if j + 1 < i {
                assert(s[j + 1].start < s[i].start);
            }
        }
    }
}

/// A closed range of a table shares no offset with any later range.
pub proof fn lemma_closed_range_ends_before_later(s: Seq<RangeView>, i: int, j: int, offset: u64)
    requires
        well_formed(s),
        0 <= i < j < s.len(),
        s[i].end is Some,
        s[i].contains(offset),
    ensures
        !s[j].contains(offset),
{
    assert(s[i].ends_by(s[j].start));
}

/// Resolution answers with the location of the one range that answers for
/// the offset, and with nothing where no range does.
pub proof fn lemma_resolve_finds_answering_range(s: Seq<RangeView>, offset: u64)
    requires
        well_formed(s),
    ensures
        match resolve_spec(s, offset) {
            Some(loc) => exists|i: int| #[trigger] answers(s, i, offset) && loc == s[i].location(),
            None => forall|i: int| !#[trigger] answers(s, i, offset),
        },
{
    lemma_closest_preceding(s, offset);
    match closest_preceding(s, offset) {
        Some(p) => {
            if s[p].contains(offset) {
                assert(answers(s, p, offset));
            } else {
                assert forall|i: int| !#[trigger] answers(s, i, offset) by {
                    if answers(s, i, offset) {
                        if i < p {
                            assert(s[i + 1].start <= s[p].start) by {
                                if i + 1 < p {
                                    assert(s[i + 1].start < s[p].start);
                                }
                            }
                        }
                    }
                }
            }
        },
        None => {},
    }
}

/// A later offset is never answered by an earlier range than an earlier
/// offset is: the closest preceding range only moves forward.
pub proof fn lemma_resolution_never_goes_back(s: Seq<RangeView>, earlier: u64, later: u64)
    requires
        earlier <= later,
        closest_preceding(s, earlier) is Some,
    ensures
        closest_preceding(s, later) is Some,
        closest_preceding(s, earlier).unwrap() <= closest_preceding(s, later).unwrap(),
{
    lemma_closest_preceding(s, earlier);
    lemma_closest_preceding(s, later);
}

/// In a table whose files stand in append order, two offsets that both
/// resolve never lead from a file back to one that stands before it: the
/// later offset stays in the same file or moves on to a file that follows.
pub proof fn lemma_no_return_to_earlier_file(s: Seq<RangeView>, earlier: u64, later: u64)
    requires
        files_in_append_order(s),
        earlier <= later,
        resolve_spec(s, earlier) is Some,
        resolve_spec(s, later) is Some,
    ensures
        resolve_spec(s, earlier).unwrap().file == resolve_spec(s, later).unwrap().file
            || file_comes_before(
            s,
            resolve_spec(s, earlier).unwrap().file,
            resolve_spec(s, later).unwrap().file,
        ),
{
    lemma_resolution_never_goes_back(s, earlier, later);
    lemma_closest_preceding(s, earlier);
    lemma_closest_preceding(s, later);
    let i1 = closest_preceding(s, earlier).unwrap();
    let i2 = closest_preceding(s, later).unwrap();
    let f = s[i1].file;
    let g = s[i2].file;
    if f != g {
        assert forall|a: int, b: int|
            #![trigger s[a], s[b]]
            0 <= a < s.len() && 0 <= b < s.len() && s[a].file == f && s[b].file == g implies a
            < b by {
            if b < a {
                if b < i1 {
                    // b < i1 < i2 with the file of b and i2 equal: i1 is of that file too
                    assert(s[b].file == s[i2].file ==> s[i1].file == s[b].file);
                } else {
                    // i1 < b < a with the file of i1 and a equal: b is of that file too
                    assert(s[i1].file == s[a].file ==> s[b].file == s[i1].file);
                }
            }
        }
    }
}

// ---------------------------------------------------------------------------
// What removing overlap keeps
// ---------------------------------------------------------------------------

/// The range `kept` is what is left of the record `r`: the same end and
/// location, and a start that was at most moved forward.
pub open spec fn cut_from(kept: RangeView, r: RangeView) -> bool {
    &&& r.start <= kept.start
    &&& kept.end == r.end
    &&& kept.location() == r.location()
}

/// Some record of `s` is what `kept` was cut from.
pub open spec fn has_source(s: Seq<RangeView>, kept: RangeView) -> bool {
    exists|j: int| 0 <= j < s.len() && cut_from(kept, #[trigger] s[j])
}

/// Nothing is made up: every range that is left was cut from a record.
pub proof fn lemma_kept_ranges_come_from_records(s: Seq<RangeView>, i: int)
    requires
        0 <= i < without_overlap(s).len(),
    ensures
        has_source(s, without_overlap(s)[i]),
    decreases s.len(),
{
    let front = s.drop_last();
    let kept = without_overlap(front);
    let t = without_overlap(s);
    if i < kept.len() {
        lemma_kept_ranges_come_from_records(front, i);
        let j = choose|j: int| 0 <= j < front.len() && cut_from(kept[i], #[trigger] front[j]);
        assert(front[j] == s[j]);
        assert(t[i] == kept[i]);
        assert(cut_from(t[i], s[j]));
    } else {
        assert(cut_from(t[i], s[s.len() - 1]));
    }
}

/// Every range is closed.
pub open spec fn all_closed(s: Seq<RangeView>) -> bool {
    forall|i: int| 0 <= i < s.len() ==> (#[trigger] s[i]).end is Some
}

/// The index of the first range that contains `offset`.
pub open spec fn first_containing(s: Seq<RangeView>, offset: u64) -> Option<int>
    decreases s.len(),
{
    if s.len() == 0 {
        None
    } else {
        match first_containing(s.drop_last(), offset) {
            Some(i) => Some(i),
            None => if s.last().contains(offset) {
                Some(s.len() - 1)
            } else {
                None
            },
        }
    }
}

/// `first_containing` names a range that contains the offset where there is
/// one, and none where there is none.
pub proof fn lemma_first_containing(s: Seq<RangeView>, offset: u64)
    ensures
        match first_containing(s, offset) {
            Some(i) => 0 <= i < s.len() && s[i].contains(offset) && forall|j: int|
                0 <= j < i ==> !(#[trigger] s[j]).contains(offset),
            None => forall|j: int| 0 <= j < s.len() ==> !(#[trigger] s[j]).contains(offset),
        },
    decreases s.len(),
{
    if s.len() > 0 {
        let front = s.drop_last();
        lemma_first_containing(front, offset);
        match first_containing(front, offset) {
            Some(i) => {
                assert(s[i] == front[i]);
                assert forall|j: int| 0 <= j < i implies !(#[trigger] s[j]).contains(offset) by {
                    assert(s[j] == front[j]);
                }
            },
            None => {
                assert forall|j: int| 0 <= j < s.len() - 1 implies !(#[trigger] s[j]).contains(
                    offset,
                ) by {
                    assert(s[j] == front[j]);
                }
            },
        }
    }
}

/// Of closed records, what is left is closed, and what the kept ranges have
/// claimed reaches the end of every record that holds an offset at all.
proof fn lemma_closed_records(s: Seq<RangeView>)
    requires
        all_closed(s),
    ensures
        all_closed(without_overlap(s)),
        without_overlap(s).len() > 0 ==> without_overlap(s).last().end == Some(
            claimed_until(without_overlap(s)),
        ),
        forall|j: int, y: u64|
            0 <= j < s.len() && (#[trigger] s[j].contains(y)) ==> y < claimed_until(
                without_overlap(s),
            ),
    decreases s.len(),
{
    if s.len() > 0 {
        let front = s.drop_last();
        let kept = without_overlap(front);
        let r = s.last();
        let t = without_overlap(s);
        assert forall|i: int| 0 <= i < front.len() implies (#[trigger] front[i]).end is Some by {
            assert(front[i] == s[i]);
        }
        lemma_closed_records(front);
        lemma_without_overlap_well_formed(front);
        if kept.len() > 0 {
            assert(kept[kept.len() - 1].is_not_empty());
        }
        if leaves_room(kept, r) {
            assert(t.drop_last() =~= kept);
        }
        assert forall|i: int| 0 <= i < t.len() implies (#[trigger] t[i]).end is Some by {
            if i < kept.len() {
                assert(t[i] == kept[i]);
            }
        }
        assert forall|j: int, y: u64| 0 <= j < s.len() && (#[trigger] s[j].contains(y)) implies y
            < claimed_until(t) by {
            if j < front.len() {
                assert(s[j] == front[j]);
                assert(front[j].contains(y));
            }
        }
    }
}

/// On overlap the smaller start wins: in the table of closed records, taken
/// in ascending order of start, an offset resolves to the location of the
/// first record that contains it, and to nothing where no record does.
pub proof fn lemma_smaller_start_wins(s: Seq<RangeView>, offset: u64)
    requires
        ordered_by_start(s),
        all_closed(s),
    ensures
        resolve_spec(without_overlap(s), offset) == match first_containing(s, offset) {
            Some(i) => Some(s[i].location()),
            None => None,
        },
    decreases s.len(),
{
    if s.len() > 0 {
        let front = s.drop_last();
        let kept = without_overlap(front);
        let r = s.last();
        let t = without_overlap(s);
        let f = claimed_until(kept);
        assert forall|i: int, j: int| 0 <= i < j < front.len() implies front[i].start
            <= front[j].start by {
            assert(front[i] == s[i] && front[j] == s[j]);
        }
        assert forall|i: int| 0 <= i < front.len() implies (#[trigger] front[i]).end is Some by {
            assert(front[i] == s[i]);
        }
        lemma_smaller_start_wins(front, offset);
        lemma_closed_records(front);
        lemma_without_overlap_well_formed(front);
        lemma_first_containing(front, offset);
        let placed = leaves_room(kept, r);
        let lo = placed_start(kept, r);
        let cut = RangeView { start: lo, end: r.end, file: r.file, line: r.line, column: r.column };
        if placed {
            assert(t == kept.push(cut));
            lemma_resolve_after_push(kept, cut, offset);
        } else {
            assert(t == kept);
        }
        match first_containing(front, offset) {
            Some(i) => {
                assert(s[i] == front[i]);
                assert(front[i].contains(offset));
                assert(offset < f);
                assert(first_containing(s, offset) == Some(i));
            },
            None => {
                if r.contains(offset) {
                    assert(first_containing(s, offset) == Some(s.len() - 1));
                    if offset < f {
                        // the record that the last kept range was cut from holds the offset
                        assert(kept.len() > 0);
                        lemma_kept_ranges_come_from_records(front, kept.len() - 1);
                        let j = choose|j: int|
                            0 <= j < front.len() && cut_from(
                                kept[kept.len() - 1],
                                #[trigger] front[j],
                            );
                        assert(front[j] == s[j]);
                        assert(s[j].start <= s[s.len() - 1].start);
                        assert(front[j].end == Some(f));
                        assert(front[j].contains(offset));
                        assert(false);
                    }
                    if kept.len() > 0 {
                        assert(kept[kept.len() - 1].is_not_empty());
                    }
                    assert(placed);
                    assert(cut.contains(offset));
                } else {
                    assert(first_containing(s, offset) is None);
                    assert(!cut.contains(offset) || lo > offset);
                }
            },
        }
    }
}

/// Sorting closed records leaves them closed.
pub proof fn lemma_sorted_stays_closed(s: Seq<RangeView>)
    requires
        all_closed(s),
    ensures
        all_closed(sorted_by_start(s)),
    decreases s.len(),
{
    if s.len() > 0 {
        let front = s.drop_last();
        assert forall|i: int| 0 <= i < front.len() implies (#[trigger] front[i]).end is Some by {
            assert(front[i] == s[i]);
        }
        lemma_sorted_stays_closed(front);
        let sorted = sorted_by_start(front);
        let p = insert_position(sorted, s.last().start);
        lemma_insert_position_bounds(sorted, s.last().start);
        let t = sorted_by_start(s);
        assert(s.last().end is Some) by {
            assert(s[s.len() - 1].end is Some);
        }
        assert forall|i: int| 0 <= i < t.len() implies (#[trigger] t[i]).end is Some by {
            if i < p {
                assert(t[i] == sorted[i]);
            } else if i > p {
                assert(t[i] == sorted[i - 1]);
            }
        }
    }
}

/// First defined wins: in the table built of closed records, an offset
/// resolves to the location of the record that comes first, by start offset
/// and among equal starts by definition, of those that contain it.
pub proof fn lemma_table_of_closed_records(records: Seq<RangeView>, offset: u64)
    requires
        all_closed(records),
    ensures
        resolve_spec(without_overlap(sorted_by_start(records)), offset) == match first_containing(
            sorted_by_start(records),
            offset,
        ) {
            Some(i) => Some(sorted_by_start(records)[i].location()),
            None => None,
        },
{
    lemma_sorted_by_start(records);
    lemma_sorted_stays_closed(records);
    lemma_smaller_start_wins(sorted_by_start(records), offset);
}

/// Every range is open-ended.
pub open spec fn all_open_ended(s: Seq<RangeView>) -> bool {
    forall|i: int| 0 <= i < s.len() ==> (#[trigger] s[i]).end is None
}

/// The index of the first range that starts at `start`.
pub open spec fn first_starting_at(s: Seq<RangeView>, start: u64) -> Option<int>
    decreases s.len(),
{
    if s.len() == 0 {
        None
    } else {
        match first_starting_at(s.drop_last(), start) {
            Some(i) => Some(i),
            None => if s.last().start == start {
                Some(s.len() - 1)
            } else {
                None
            },
        }
    }
}

proof fn lemma_first_starting_at(s: Seq<RangeView>, start: u64)
    ensures
        match first_starting_at(s, start) {
            Some(i) => 0 <= i < s.len() && s[i].start == start,
            None => forall|j: int| 0 <= j < s.len() ==> (#[trigger] s[j]).start != start,
        },
    decreases s.len(),
{
    if s.len() > 0 {
        let front = s.drop_last();
        lemma_first_starting_at(front, start);
        match first_starting_at(front, start) {
            Some(i) => {
                assert(s[i] == front[i]);
            },
            None => {
                assert forall|j: int| 0 <= j < s.len() - 1 implies (#[trigger] s[j]).start
                    != start by {
                    assert(s[j] == front[j]);
                }
            },
        }
    }
}

proof fn lemma_open_ended_records(s: Seq<RangeView>)
    requires
        ordered_by_start(s),
        all_open_ended(s),
    ensures
        claimed_until(without_overlap(s)) == 0,
        s.len() > 0 ==> without_overlap(s).len() > 0 && without_overlap(s).last().start
            == s.last().start,
        s.len() == 0 ==> without_overlap(s).len() == 0,
    decreases s.len(),
{
    if s.len() > 0 {
        let front = s.drop_last();
        let kept = without_overlap(front);
        assert forall|i: int, j: int| 0 <= i < j < front.len() implies front[i].start
            <= front[j].start by {
            assert(front[i] == s[i] && front[j] == s[j]);
        }
        assert forall|i: int| 0 <= i < front.len() implies (#[trigger] front[i]).end is None by {
            assert(front[i] == s[i]);
        }
        lemma_open_ended_records(front);
        assert(s[s.len() - 1].end is None);
        if front.len() > 0 {
            assert(front.last() == s[s.len() - 2]);
            assert(s[s.len() - 2].start <= s[s.len() - 1].start);
        }
        if leaves_room(kept, s.last()) {
            assert(without_overlap(s).drop_last() =~= kept);
        }
    }
}

/// A table of open-ended records works as a line table: an offset resolves
/// to the location of the closest record that starts at or before it, and
/// where several records start there, to that of the one defined first.
pub proof fn lemma_open_ended_records_resolve(s: Seq<RangeView>, offset: u64)
    requires
        ordered_by_start(s),
        all_open_ended(s),
    ensures
        resolve_spec(without_overlap(s), offset) == match closest_preceding(s, offset) {
            Some(p) => match first_starting_at(s, s[p].start) {
                Some(i) => Some(s[i].location()),
                None => None,
            },
            None => None,
        },
        closest_preceding(s, offset) matches Some(p) ==> first_starting_at(s, s[p].start) is Some,
    decreases s.len(),
{
    if s.len() > 0 {
        let front = s.drop_last();
        let kept = without_overlap(front);
        let r = s.last();
        let t = without_overlap(s);
        assert forall|i: int, j: int| 0 <= i < j < front.len() implies front[i].start
            <= front[j].start by {
            assert(front[i] == s[i] && front[j] == s[j]);
        }
        assert forall|i: int| 0 <= i < front.len() implies (#[trigger] front[i]).end is None by {
            assert(front[i] == s[i]);
        }
        lemma_open_ended_records_resolve(front, offset);
        lemma_open_ended_records(front);
        lemma_closest_preceding(front, offset);
        assert(r == s[s.len() - 1]);
        assert(r.end is None);
        let placed = leaves_room(kept, r);
        let cut = RangeView {
            start: placed_start(kept, r),
            end: r.end,
            file: r.file,
            line: r.line,
            column: r.column,
        };
        assert(cut == r);
        if placed {
            assert(t == kept.push(cut));
            lemma_resolve_after_push(kept, cut, offset);
        } else {
            assert(t == kept);
        }
        if r.start > offset {
            match closest_preceding(front, offset) {
                Some(p) => {
                    assert(s[p] == front[p]);
                    lemma_first_starting_at(front, front[p].start);
                    let i = first_starting_at(front, front[p].start).unwrap();
                    assert(s[i] == front[i]);
                },
                None => {},
            }
        } else {
            lemma_first_starting_at(front, r.start);
            if placed {
                // no record before starts where this one does
                if front.len() > 0 {
                    assert(front.last() == s[s.len() - 2]);
                    assert forall|j: int| 0 <= j < front.len() implies (#[trigger] front[j]).start
                        != r.start by {
                        assert(front[j] == s[j]);
                        assert(s[j].start <= s[s.len() - 2].start);
                    }
                }
                assert(first_starting_at(front, r.start) is None);
            } else {
                // the record before starts at the same offset
                assert(front.len() > 0);
                assert(front.last() == s[s.len() - 2]);
                assert(s[s.len() - 2].start <= s[s.len() - 1].start);
                assert(front[front.len() - 1].start == r.start);
                assert(closest_preceding(front, offset) == Some(front.len() - 1));
                let i = first_starting_at(front, r.start).unwrap();
                assert(s[i] == front[i]);
            }
        }
    }
}

/// What an offset resolves to once a range was put behind the others: where
/// the new range starts past the offset nothing changes, else the new range
/// answers or nothing does.
proof fn lemma_resolve_after_push(kept: Seq<RangeView>, last: RangeView, offset: u64)
    ensures
        resolve_spec(kept.push(last), offset) == if last.start > offset {
            resolve_spec(kept, offset)
        } else if last.contains(offset) {
            Some(last.location())
        } else {
            None
        },
{
    let t = kept.push(last);
    assert(t.drop_last() =~= kept);
    assert(t.last() == last);
    if last.start > offset {
        assert(closest_preceding(t, offset) == closest_preceding(kept, offset));
        match closest_preceding(kept, offset) {
            Some(i) => {
                lemma_closest_preceding(kept, offset);
                assert(t[i] == kept[i]);
            },
            None => {},
        }
    } else {
        assert(closest_preceding(t, offset) == Some(t.len() - 1));
    }
}

} // verus!
