//! Planning the byte ranges of a file, and keeping the books on them while they are fetched.

use crate::models::{Segment, SegmentStatus};
use crate::seqs::{first_index, lemma_first_index, lemma_first_index_at, lemma_first_index_none};
use vstd::prelude::*;

verus! {

/// Number of bytes in the range of `s`; a range that ends before it starts holds none.
pub open spec fn segment_len(s: Segment) -> nat {
    if s.end >= s.start {
        (s.end - s.start + 1) as nat
    } else {
        0
    }
}

/// The `i`-th of `count` ranges over a file of `total_size` bytes: every range has
/// `total_size / count` bytes, and the last one takes the remainder as well.
pub open spec fn planned(total_size: u64, count: usize, i: int) -> Segment {
    let size = total_size as int / count as int;
    Segment {
        index: i as usize,
        start: (i * size) as u64,
        end: if i == count - 1 {
            (total_size - 1) as u64
        } else {
            ((i + 1) * size - 1) as u64
        },
        downloaded: 0,
        status: SegmentStatus::Pending,
    }
}

/// The plan for a file of `total_size` bytes in `count` ranges.
pub open spec fn plan(total_size: u64, count: usize) -> Seq<Segment> {
    Seq::new(count as nat, |i: int| planned(total_size, count, i))
}

/// The ranges start at byte 0, end at the last byte of the file, are not empty, and each starts
/// right after the one before it: no gap and no overlap.
pub open spec fn covers(segments: Seq<Segment>, total_size: u64) -> bool {
    &&& segments.len() >= 1
    &&& segments[0].start == 0
    &&& segments.last().end == total_size - 1
    &&& forall|i: int|
        0 <= i < segments.len() ==> (#[trigger] segments[i]).start <= segments[i].end
    &&& forall|i: int, j: int|
        0 <= i && j == i + 1 && j < segments.len() ==> (#[trigger] segments[j]).start == (
        #[trigger] segments[i]).end + 1
}

proof fn lemma_plan_bounds(total_size: u64, count: usize, i: int)
    requires
        1 <= count <= total_size,
        0 <= i < count,
    ensures
        total_size as int / count as int >= 1,
        0 <= i * (total_size as int / count as int),
        (i + 1) * (total_size as int / count as int) <= total_size,
{
    let t = total_size as int;
    let c = count as int;
    let size = t / c;
    assert(size >= 1 && c * size <= t) by (nonlinear_arith)
        requires
            1 <= c <= t,
            size == t / c,
    ;
    assert(0 <= i * size && (i + 1) * size <= c * size) by (nonlinear_arith)
        requires
            0 <= i < c,
            size >= 1,
    ;
}

proof fn lemma_planned(total_size: u64, count: usize, i: int)
    requires
        1 <= count <= total_size,
        0 <= i < count,
    ensures
        planned(total_size, count, i).start == i * (total_size as int / count as int),
        planned(total_size, count, i).end == if i == count - 1 {
            total_size - 1
        } else {
            (i + 1) * (total_size as int / count as int) - 1
        },
        planned(total_size, count, i).start <= planned(total_size, count, i).end,
        planned(total_size, count, i).index == i,
{
    let size = total_size as int / count as int;
    lemma_plan_bounds(total_size, count, i);
    assert((i + 1) * size == i * size + size) by (nonlinear_arith);
}

/// A plan of `count` ranges covers a file of `total_size` bytes, for every pair with
/// `1 <= count <= total_size`.
pub proof fn lemma_plan_covers(total_size: u64, count: usize)
    requires
        1 <= count <= total_size,
    ensures
        covers(plan(total_size, count), total_size),
        plan(total_size, count).len() == count,
        forall|i: int| 0 <= i < count ==> (#[trigger] plan(total_size, count)[i]).index == i,
{
    let p = plan(total_size, count);
    let size = total_size as int / count as int;
    assert forall|i: int| 0 <= i < p.len() implies (#[trigger] p[i]).start <= p[i].end && p[i].index
        == i by {
        lemma_planned(total_size, count, i);
    }
    assert forall|i: int, j: int| 0 <= i && j == i + 1 && j < p.len() implies (#[trigger] p[j]).start
        == (#[trigger] p[i]).end + 1 by {
        lemma_planned(total_size, count, i);
        lemma_planned(total_size, count, j);
    }
    lemma_planned(total_size, count, 0);
    lemma_planned(total_size, count, count - 1);
    assert(0 * size == 0) by (nonlinear_arith);
}

/// Splits a file of `total_size` bytes into `count` contiguous ranges, all of them pending.
pub fn create_segments(total_size: u64, count: usize) -> (segments: Vec<Segment>)
    requires
        1 <= count <= total_size,
    ensures
        segments@ == plan(total_size, count),
        covers(segments@, total_size),
{
    let mut segments: Vec<Segment> = Vec::new();
    let segment_size: u64 = total_size / (count as u64);
    let mut i: usize = 0;
    while i < count
        invariant
            i <= count,
            1 <= count <= total_size,
            segment_size == total_size as int / count as int,
            segments.len() == i,
            forall|j: int| 0 <= j < i ==> segments@[j] == planned(total_size, count, j),
        decreases count - i,
    {
        proof {
            lemma_plan_bounds(total_size, count, i as int);
            assert((i + 1) * segment_size == i * segment_size + segment_size) by (nonlinear_arith);
        }
        let start: u64 = (i as u64) * segment_size;
        let end: u64 = if i == count - 1 {
            total_size - 1
        } else {
            start + segment_size - 1
        };
        segments.push(
            Segment { index: i, start, end, downloaded: 0, status: SegmentStatus::Pending },
        );
        i = i + 1;
    }
    proof {
        assert(segments@ =~= plan(total_size, count));
        lemma_plan_covers(total_size, count);
    }
    segments
}

/// How many ranges a file of `total_size` bytes is split into when `wanted` are asked for: as
/// many as asked, but at least one and at most one per byte.
pub open spec fn parts_for(total_size: u64, wanted: usize) -> usize {
    if wanted < 1 {
        1
    } else if wanted > total_size {
        total_size as usize
    } else {
        wanted
    }
}

/// Plans the ranges of a file of known, positive size.
pub fn plan_segments(total_size: u64, wanted: usize) -> (segments: Vec<Segment>)
    requires
        total_size >= 1,
    ensures
        segments@ == plan(total_size, parts_for(total_size, wanted)),
        covers(segments@, total_size),
{
    let count: usize = if wanted < 1 {
        1
    } else if wanted as u64 > total_size {
        total_size as usize
    } else {
        wanted
    };
    create_segments(total_size, count)
}

/// Total number of bytes in the completed ranges of `segments`.
pub open spec fn completed_bytes(segments: Seq<Segment>) -> nat
    decreases segments.len(),
{
    if segments.len() == 0 {
        0
    } else {
        completed_bytes(segments.drop_last()) + if segments.last().status
            == SegmentStatus::Completed {
            segment_len(segments.last())
        } else {
            0
        }
    }
}

/// `n`, or the largest `u64` where `n` is beyond it.
pub open spec fn clamp_u64(n: nat) -> u64 {
    if n > u64::MAX {
        u64::MAX
    } else {
        n as u64
    }
}

/// Number of bytes in the range of `s`, saturating at the largest `u64`.
pub fn segment_size(s: &Segment) -> (len: u64)
    ensures
        len == clamp_u64(segment_len(*s)),
{
    if s.end >= s.start {
        (s.end - s.start).saturating_add(1)
    } else {
        0
    }
}

/// Total number of bytes in the completed ranges, saturating at the largest `u64`.
pub fn completed_total(segments: &Vec<Segment>) -> (sum: u64)
    ensures
        sum == clamp_u64(completed_bytes(segments@)),
{
    let mut sum: u64 = 0;
    let mut i: usize = 0;
    while i < segments.len()
        invariant
            i <= segments.len(),
            sum == clamp_u64(completed_bytes(segments@.take(i as int))),
        decreases segments.len() - i,
    {
        proof {
            let next = segments@.take(i + 1);
            assert(next.drop_last() =~= segments@.take(i as int));
            assert(next.last() == segments@[i as int]);
        }
        if segments[i].status == SegmentStatus::Completed {
            sum = sum.saturating_add(segment_size(&segments[i]));
        }
        i = i + 1;
    }
    assert(segments@.take(segments.len() as int) =~= segments@);
    sum
}

/// Whether every range is completed.
pub open spec fn all_completed(segments: Seq<Segment>) -> bool {
    forall|i: int| 0 <= i < segments.len() ==> (#[trigger] segments[i]).status
        == SegmentStatus::Completed
}

/// Whether every range is completed.
pub fn all_segments_completed(segments: &Vec<Segment>) -> (done: bool)
    ensures
        done == all_completed(segments@),
{
    let mut i: usize = 0;
    while i < segments.len()
        invariant
            i <= segments.len(),
            forall|j: int| 0 <= j < i ==> (#[trigger] segments@[j]).status == SegmentStatus::Completed,
        decreases segments.len() - i,
    {
        if segments[i].status != SegmentStatus::Completed {
            return false;
        }
        i = i + 1;
    }
    true
}

/// The ranges of a plan that covers `total_size` bytes never hold more than `total_size` bytes
/// between them, so their completed part fits in a `u64`.
pub proof fn lemma_completed_within_total(segments: Seq<Segment>, total_size: u64)
    requires
        covers(segments, total_size),
    ensures
        completed_bytes(segments) <= total_size,
{
    lemma_completed_prefix(segments, total_size, segments.len() as int);
    assert(segments.take(segments.len() as int) =~= segments);
}

proof fn lemma_end_within_total(segments: Seq<Segment>, total_size: u64, i: int)
    requires
        covers(segments, total_size),
        0 <= i < segments.len(),
    ensures
        segments[i].end <= total_size - 1,
    decreases segments.len() - i,
{
    if i < segments.len() - 1 {
        lemma_end_within_total(segments, total_size, i + 1);
        assert(segments[i + 1].start == segments[i].end + 1);
        assert(segments[i + 1].start <= segments[i + 1].end);
    }
}

proof fn lemma_completed_prefix(segments: Seq<Segment>, total_size: u64, k: int)
    requires
        covers(segments, total_size),
        0 <= k <= segments.len(),
    ensures
        k == 0 ==> completed_bytes(segments.take(k)) == 0,
        k > 0 ==> completed_bytes(segments.take(k)) <= segments[k - 1].end + 1,
        k > 0 ==> segments[k - 1].end <= total_size - 1,
    decreases k,
{
    if k > 0 {
        lemma_completed_prefix(segments, total_size, k - 1);
        lemma_end_within_total(segments, total_size, k - 1);
        let prefix = segments.take(k);
        assert(prefix.drop_last() =~= segments.take(k - 1));
        assert(prefix.last() == segments[k - 1]);
        assert(segments[k - 1].start <= segments[k - 1].end);
        if k > 1 {
            assert(segments[k - 1].start == segments[k - 2].end + 1);
        } else {
            assert(segments[k - 1].start == 0);
        }
    }
}

/// The predicate "is pending".
pub open spec fn pending() -> spec_fn(Segment) -> bool {
    |s: Segment| s.status == SegmentStatus::Pending
}

/// The predicate "carries the number `index`".
pub open spec fn numbered(index: usize) -> spec_fn(Segment) -> bool {
    |s: Segment| s.index == index
}

/// The first pending range, marked as being fetched.
pub open spec fn next_claim(segments: Seq<Segment>) -> Option<Segment> {
    match first_index(segments, pending()) {
        Some(i) => Some(Segment { status: SegmentStatus::Downloading, ..segments[i] }),
        None => None,
    }
}

/// `segments` after its first pending range, if any, was marked as being fetched.
pub open spec fn after_claim(segments: Seq<Segment>) -> Seq<Segment> {
    match first_index(segments, pending()) {
        Some(i) => segments.update(i, Segment { status: SegmentStatus::Downloading, ..segments[i] }),
        None => segments,
    }
}

/// Claims the first pending range for fetching: first by position, which in a plan is first by
/// number.
pub fn claim_next(segments: &mut Vec<Segment>) -> (taken: Option<Segment>)
    ensures
        taken == next_claim(old(segments)@),
        final(segments)@ == after_claim(old(segments)@),
{
    let mut i: usize = 0;
    while i < segments.len()
        invariant
            i <= segments.len(),
            segments@ == old(segments)@,
            forall|j: int| 0 <= j < i ==> !pending()(segments@[j]),
        decreases segments.len() - i,
    {
        if segments[i].status == SegmentStatus::Pending {
            proof {
                lemma_first_index_at(segments@, pending(), i as int);
            }
            segments[i].status = SegmentStatus::Downloading;
            let taken = segments[i];
            assert(segments@ =~= after_claim(old(segments)@));
            return Some(taken);
        }
        i = i + 1;
    }
    proof {
        lemma_first_index_none(segments@, pending());
    }
    None
}

/// `segments` after the first range numbered `index`, if any, was given `status`, and
/// `downloaded` where one is given.
pub open spec fn after_mark(
    segments: Seq<Segment>,
    index: usize,
    status: SegmentStatus,
    downloaded: Option<u64>,
) -> Seq<Segment> {
    match first_index(segments, numbered(index)) {
        Some(i) => segments.update(
            i,
            Segment {
                status,
                downloaded: match downloaded {
                    Some(n) => n,
                    None => segments[i].downloaded,
                },
                ..segments[i]
            },
        ),
        None => segments,
    }
}

fn mark(segments: &mut Vec<Segment>, index: usize, status: SegmentStatus, downloaded: Option<u64>)
    ensures
        final(segments)@ == after_mark(old(segments)@, index, status, downloaded),
{
    let mut i: usize = 0;
    while i < segments.len()
        invariant
            i <= segments.len(),
            segments@ == old(segments)@,
            forall|j: int| 0 <= j < i ==> !numbered(index)(segments@[j]),
        decreases segments.len() - i,
    {
        if segments[i].index == index {
            proof {
                lemma_first_index_at(segments@, numbered(index), i as int);
            }
            segments[i].status = status;
            match downloaded {
                Some(n) => {
                    segments[i].downloaded = n;
                },
                None => {},
            }
            assert(segments@ =~= after_mark(old(segments)@, index, status, downloaded));
            return ;
        }
        i = i + 1;
    }
    proof {
        lemma_first_index_none(segments@, numbered(index));
    }
}

/// Records that the range that was claimed as `fetched` is on disk in full: the first range with
/// its number becomes completed, with all the bytes of `fetched` downloaded.
pub fn complete_segment(segments: &mut Vec<Segment>, fetched: &Segment)
    ensures
        final(segments)@ == after_mark(
            old(segments)@,
            fetched.index,
            SegmentStatus::Completed,
            Some(clamp_u64(segment_len(*fetched))),
        ),
{
    let len = segment_size(fetched);
    mark(segments, fetched.index, SegmentStatus::Completed, Some(len));
}

/// Puts the first range numbered `index` back in line, to be fetched again from its first byte.
pub fn rewind_segment(segments: &mut Vec<Segment>, index: usize)
    ensures
        final(segments)@ == after_mark(old(segments)@, index, SegmentStatus::Pending, None),
{
    mark(segments, index, SegmentStatus::Pending, None);
}

/// Size of the part file found for the range at position `i`, if one was found.
pub open spec fn part_size_at(part_sizes: Seq<Option<u64>>, i: int) -> Option<u64> {
    if 0 <= i < part_sizes.len() {
        part_sizes[i]
    } else {
        None
    }
}

/// The range `s` after it was held against the part file found for it: completed where the file
/// has at least as many bytes as the range, unchanged otherwise.
pub open spec fn reconciled_segment(s: Segment, part_size: Option<u64>) -> Segment {
    match part_size {
        Some(n) if n >= segment_len(s) => Segment {
            status: SegmentStatus::Completed,
            downloaded: segment_len(s) as u64,
            ..s
        },
        _ => s,
    }
}

/// The plan after every range was held against the part file found for it.
pub open spec fn reconciled(segments: Seq<Segment>, part_sizes: Seq<Option<u64>>) -> Seq<Segment> {
    Seq::new(segments.len(), |i: int| reconciled_segment(segments[i], part_size_at(part_sizes, i)))
}

/// Holds a plan against the part files on disk. `part_sizes[i]` is the length of the part file
/// of the range at position `i`, or `None` where there is no such file; positions beyond the end
/// of `part_sizes` count as having none.
pub fn reconcile(segments: &mut Vec<Segment>, part_sizes: &Vec<Option<u64>>)
    ensures
        final(segments)@ == reconciled(old(segments)@, part_sizes@),
{
    let mut i: usize = 0;
    while i < segments.len()
        invariant
            i <= segments.len(),
            segments.len() == old(segments).len(),
            forall|j: int|
                0 <= j < i ==> segments@[j] == reconciled_segment(
                    old(segments)@[j],
                    part_size_at(part_sizes@, j),
                ),
            forall|j: int| i <= j < segments.len() ==> segments@[j] == old(segments)@[j],
        decreases segments.len() - i,
    {
        if i < part_sizes.len() {
            match part_sizes[i] {
                Some(n) => {
                    let s = segments[i];
                    if s.end < s.start {
                        segments[i].status = SegmentStatus::Completed;
                        segments[i].downloaded = 0;
                    } else if n > s.end - s.start {
                        segments[i].status = SegmentStatus::Completed;
                        segments[i].downloaded = s.end - s.start + 1;
                    }
                },
                None => {},
            }
        }
        i = i + 1;
    }
    assert(segments@ =~= reconciled(old(segments)@, part_sizes@));
}

/// What one range adds to the completed total.
pub open spec fn completed_part(s: Segment) -> nat {
    if s.status == SegmentStatus::Completed {
        segment_len(s)
    } else {
        0
    }
}

/// Replacing one range changes the completed total by what the new range adds in place of the
/// old one.
pub proof fn lemma_completed_bytes_update(segments: Seq<Segment>, i: int, s: Segment)
    requires
        0 <= i < segments.len(),
    ensures
        completed_bytes(segments.update(i, s)) + completed_part(segments[i]) == completed_bytes(
            segments,
        ) + completed_part(s),
    decreases segments.len(),
{
    let changed = segments.update(i, s);
    if i == segments.len() - 1 {
        assert(changed.drop_last() =~= segments.drop_last());
    } else {
        lemma_completed_bytes_update(segments.drop_last(), i, s);
        assert(changed.drop_last() =~= segments.drop_last().update(i, s));
    }
}

/// Where no range adds less than before, the completed total is no less than before.
pub proof fn lemma_completed_bytes_grows(before: Seq<Segment>, after: Seq<Segment>)
    requires
        before.len() == after.len(),
        forall|i: int| 0 <= i < before.len() ==> completed_part(before[i]) <= completed_part(after[i]),
    ensures
        completed_bytes(before) <= completed_bytes(after),
    decreases before.len(),
{
    if before.len() > 0 {
        lemma_completed_bytes_grows(before.drop_last(), after.drop_last());
    }
}

/// Claiming a range leaves the completed total as it is.
pub proof fn lemma_claim_keeps_completed(segments: Seq<Segment>)
    ensures
        completed_bytes(after_claim(segments)) == completed_bytes(segments),
{
    lemma_first_index(segments, pending());
    match first_index(segments, pending()) {
        Some(i) => {
            lemma_completed_bytes_update(
                segments,
                i,
                Segment { status: SegmentStatus::Downloading, ..segments[i] },
            );
        },
        None => {},
    }
}

/// Completing a range never lowers the completed total, and raises it by the bytes of the range
/// where the range was not completed before.
pub proof fn lemma_completion_adds(segments: Seq<Segment>, index: usize, downloaded: Option<u64>)
    ensures
        completed_bytes(after_mark(segments, index, SegmentStatus::Completed, downloaded))
            >= completed_bytes(segments),
        first_index(segments, numbered(index)) matches Some(i) ==> (segments[i].status
            != SegmentStatus::Completed ==> completed_bytes(
            after_mark(segments, index, SegmentStatus::Completed, downloaded),
        ) == completed_bytes(segments) + segment_len(segments[i])),
{
    lemma_first_index(segments, numbered(index));
    match first_index(segments, numbered(index)) {
        Some(i) => {
            let done = Segment {
                status: SegmentStatus::Completed,
                downloaded: match downloaded {
                    Some(n) => n,
                    None => segments[i].downloaded,
                },
                ..segments[i]
            };
            lemma_completed_bytes_update(segments, i, done);
        },
        None => {},
    }
}

/// Putting a range back in line leaves the completed total as it is, unless the range was
/// completed.
pub proof fn lemma_rewind_keeps_completed(segments: Seq<Segment>, index: usize)
    requires
        first_index(segments, numbered(index)) matches Some(i) ==> segments[i].status
            != SegmentStatus::Completed,
    ensures
        completed_bytes(after_mark(segments, index, SegmentStatus::Pending, None))
            == completed_bytes(segments),
{
    lemma_first_index(segments, numbered(index));
    match first_index(segments, numbered(index)) {
        Some(i) => {
            lemma_completed_bytes_update(
                segments,
                i,
                Segment { status: SegmentStatus::Pending, ..segments[i] },
            );
        },
        None => {},
    }
}

/// Holding a plan against the part files on disk never lowers the completed total.
pub proof fn lemma_reconcile_grows(segments: Seq<Segment>, part_sizes: Seq<Option<u64>>)
    ensures
        completed_bytes(reconciled(segments, part_sizes)) >= completed_bytes(segments),
{
    lemma_completed_bytes_grows(segments, reconciled(segments, part_sizes));
}

/// Names of the part files of the ranges, in the order of the ranges: each range has the part
/// file of its number.
pub open spec fn part_files_of(segments: Seq<Segment>) -> Seq<Seq<char>> {
    Seq::new(segments.len(), |i: int| crate::paths::part_file(segments[i].index))
}

/// Names of the part files of the ranges, in the order in which they are joined into the final
/// file: the order of the ranges. A range is fetched into the file that is named here for it.
pub fn part_file_names(segments: &Vec<Segment>) -> (names: Vec<String>)
    ensures
        names.deep_view() == part_files_of(segments@),
{
    let mut names: Vec<String> = Vec::new();
    let mut i: usize = 0;
    while i < segments.len()
        invariant
            i <= segments.len(),
            names.len() == i,
            forall|k: int|
                0 <= k < i ==> (#[trigger] names@[k])@ == crate::paths::part_file(
                    segments@[k].index,
                ),
        decreases segments.len() - i,
    {
        names.push(crate::paths::part_file_name(segments[i].index));
        i = i + 1;
    }
    assert(names.deep_view() =~= part_files_of(segments@));
    names
}

/// The part files of a plan are numbered from zero, in order.
pub proof fn lemma_plan_parts_are_numbered(total_size: u64, count: usize)
    requires
        1 <= count <= total_size,
    ensures
        part_files_of(plan(total_size, count)) == Seq::new(
            count as nat,
            |i: int| crate::paths::part_file(i as usize),
        ),
{
    lemma_plan_covers(total_size, count);
    assert(part_files_of(plan(total_size, count)) =~= Seq::new(
        count as nat,
        |i: int| crate::paths::part_file(i as usize),
    ));
}

} // verus!
