//! Segment files of an HLS download: their names, what is found of an
//! interrupted download, where a resumed download starts, and the order in
//! which segments are joined.
use vstd::prelude::*;
use crate::numbers::{
    all_digits, digits_value, lemma_zero_padded_reads_back, parse_usize, parse_usize_chars,
    unsigned_digits, zero_padded, zero_padded_chars,
};
use crate::text::{chars_of, ends_with, range_ends_with, range_starts_with, starts_with, string_from_chars};

verus! {

/// `segment_`
pub open spec fn segment_prefix() -> Seq<char> {
    seq!['s', 'e', 'g', 'm', 'e', 'n', 't', '_']
}

/// `.ts`
pub open spec fn segment_suffix() -> Seq<char> {
    seq!['.', 't', 's']
}

/// The file name of segment `index`: `segment_` and the index in at least
/// four digits, then `.ts`.
pub open spec fn segment_file_name_of(index: nat) -> Seq<char> {
    segment_prefix() + zero_padded(index, 4) + segment_suffix()
}

/// The segment index that a file name carries: a name that starts with
/// `segment_` and ends with `.ts`, with a `usize` in between as
/// `str::parse` reads it.
pub open spec fn segment_index_of_name(name: Seq<char>) -> Option<usize> {
    if starts_with(name, segment_prefix()) && ends_with(name, segment_suffix()) {
        let rest = name.skip(8);
        if ends_with(rest, segment_suffix()) {
            parse_usize(rest.take(rest.len() - 3))
        } else {
            None
        }
    } else {
        None
    }
}

/// The file name under which segment `index` is saved.
pub fn segment_file_name(index: usize) -> (r: String)
    ensures
        r@ == segment_file_name_of(index as nat),
{
    let mut cs: Vec<char> = vec!['s', 'e', 'g', 'm', 'e', 'n', 't', '_'];
    let mut digits = zero_padded_chars(index, 4);
    cs.append(&mut digits);
    cs.push('.');
    cs.push('t');
    cs.push('s');
    assert(cs@ == segment_file_name_of(index as nat));
    string_from_chars(&cs, 0, cs.len())
}

/// The segment index carried by file name `name`, if it is a segment file name.
pub fn segment_index(name: &str) -> (r: Option<usize>)
    ensures
        r == segment_index_of_name(name@),
{
    let cs = chars_of(name);
    let prefix = vec!['s', 'e', 'g', 'm', 'e', 'n', 't', '_'];
    let suffix = vec!['.', 't', 's'];
    assert(prefix@ == segment_prefix());
    assert(suffix@ == segment_suffix());
    assert(cs@.subrange(0, cs@.len() as int) == cs@);
    if !range_starts_with(&cs, 0, cs.len(), &prefix) || !range_ends_with(&cs, 0, cs.len(), &suffix) {
        return None;
    }
    assert(cs@.subrange(8, cs@.len() as int) == cs@.skip(8));
    if !range_ends_with(&cs, 8, cs.len(), &suffix) {
        return None;
    }
    assert(cs@.subrange(8, cs@.len() - 3) == cs@.skip(8).take(cs@.skip(8).len() - 3));
    parse_usize_chars(&cs, 8, cs.len() - 3)
}

/// Reading back the file name of a segment gives its index.
pub proof fn lemma_segment_name_round_trip(index: usize)
    ensures
        segment_index_of_name(segment_file_name_of(index as nat)) == Some(index),
{
    let digits = zero_padded(index as nat, 4);
    lemma_zero_padded_reads_back(index as nat, 4);
    let name = segment_file_name_of(index as nat);
    assert(name.take(8) == segment_prefix());
    assert(name.skip(name.len() - 3) == segment_suffix());
    let rest = name.skip(8);
    assert(rest == digits + segment_suffix());
    assert(rest.skip(rest.len() - 3) == segment_suffix());
    assert(rest.take(rest.len() - 3) == digits);
    assert(digits[0] != '+') by {
        assert(all_digits(digits));
    }
    assert(unsigned_digits(digits) == digits);
    assert(digits_value(digits) == index);
}

/// A segment file found in the temporary folder of an interrupted download.
#[derive(Clone, Copy, Debug)]
pub struct FoundSegment {
    /// The index that its name carries.
    pub index: usize,
    /// Its size in bytes.
    pub size: u64,
}

/// Found segment `a` comes before found segment `b` (both positions in
/// `found`): by index, and by position among equal indices.
pub open spec fn found_before(found: Seq<FoundSegment>, a: int, b: int) -> bool {
    found[a].index < found[b].index || (found[a].index == found[b].index && a < b)
}

/// `order` lists every position of `found` once, sorted by index; equal
/// indices keep the order in which they were found.
pub open spec fn is_found_order(found: Seq<FoundSegment>, order: Seq<usize>) -> bool {
    &&& order.len() == found.len()
    &&& forall|t: int| 0 <= t < order.len() ==> #[trigger] order[t] < found.len()
    &&& forall|p: int| 0 <= p < found.len() ==> #[trigger] order.contains(p as usize)
    &&& forall|s: int, t: int|
        0 <= s < t < order.len() ==> found_before(found, #[trigger] order[s] as int, #[trigger] order[t] as int)
}

/// The total size of the found segments.
pub open spec fn found_bytes(found: Seq<FoundSegment>) -> nat
    decreases found.len(),
{
    if found.len() == 0 {
        0
    } else {
        found_bytes(found.drop_last()) + found.last().size as nat
    }
}

/// At most one found segment carries the index `usize::MAX`.
pub open spec fn at_most_one_max_index(found: Seq<FoundSegment>) -> bool {
    forall|a: int, b: int|
        0 <= a < found.len() && 0 <= b < found.len() && a != b && #[trigger] found[a].index
            == usize::MAX ==> #[trigger] found[b].index != usize::MAX
}

/// The positions of `found`, sorted by index; equal indices keep the order
/// in which they were found.
pub fn found_order(found: &Vec<FoundSegment>) -> (order: Vec<usize>)
    ensures
        is_found_order(found@, order@),
{
    let mut order: Vec<usize> = Vec::new();
    let mut p: usize = 0;
    while p < found.len()
        invariant
            p <= found@.len(),
            order@.len() == p,
            forall|t: int| 0 <= t < order@.len() ==> #[trigger] order@[t] < p,
            forall|q: int| 0 <= q < p ==> #[trigger] order@.contains(q as usize),
            forall|s: int, t: int|
                0 <= s < t < order@.len() ==> found_before(found@, #[trigger] order@[s] as int, #[trigger] order@[t] as int),
        decreases found.len() - p,
    {
        let key = found[p].index;
        let mut j: usize = 0;
        while j < order.len() && found[order[j]].index <= key
            invariant
                j <= order@.len(),
                forall|t: int| 0 <= t < order@.len() ==> #[trigger] order@[t] < p,
                p < found@.len(),
                key == found@[p as int].index,
                forall|t: int| 0 <= t < j ==> found@[#[trigger] order@[t] as int].index <= key,
            decreases order.len() - j,
        {
            j = j + 1;
        }
        let ghost before = order@;
        proof {
            assert forall|t: int| j <= t < before.len() implies found@[#[trigger] before[t] as int].index > key by {
                if t > j {
                    assert(found_before(found@, before[j as int] as int, before[t] as int));
                }
            }
        }
        order.insert(j, p);
        proof {
            assert forall|t: int| 0 <= t < order@.len() implies #[trigger] order@[t] < p + 1 by {
                if t < j {
                    assert(order@[t] == before[t]);
                } else if t > j {
                    assert(order@[t] == before[t - 1]);
                }
            }
            assert forall|q: int| 0 <= q < p + 1 implies #[trigger] order@.contains(q as usize) by {
                if q == p {
                    assert(order@[j as int] == p);
                } else {
                    assert(before.contains(q as usize));
                    let t = choose|t: int| 0 <= t < before.len() && before[t] == q as usize;
                    if t < j {
                        assert(order@[t] == before[t]);
                    } else {
                        assert(order@[t + 1] == before[t]);
                    }
                }
            }
            assert forall|s: int, t: int| 0 <= s < t < order@.len() implies found_before(
                found@,
                #[trigger] order@[s] as int,
                #[trigger] order@[t] as int,
            ) by {
                let os = if s < j { s } else { s - 1 };
                let ot = if t < j { t } else { t - 1 };
                if s == j {
                    assert(order@[t] == before[ot]);
                } else if t == j {
                    assert(order@[s] == before[os]);
                } else {
                    assert(order@[s] == before[os]);
                    assert(order@[t] == before[ot]);
                }
            }
        }
        p = p + 1;
    }
    order
}

/// Where an interrupted HLS download picks up again.
pub struct ResumePlan {
    /// Positions (in the found list) of the segments that are kept, in join order.
    pub kept: Vec<usize>,
    /// Position of the last found segment, which may be incomplete and is deleted.
    pub discard: Option<usize>,
    /// The first segment index to download.
    pub start_index: usize,
    /// The total size of all segments found.
    pub found_bytes: u64,
}

/// What `plan` says of `found`: the found segments sorted (see
/// `is_found_order`), the last of them discarded, the others kept, and the
/// download starting right after the last kept index (at 0 when none is kept).
pub open spec fn is_resume_plan_of(found: Seq<FoundSegment>, plan: ResumePlan) -> bool {
    exists|order: Seq<usize>|
        {
            &&& is_found_order(found, order)
            &&& plan_follows_order(found, order, plan)
        }
}

/// `plan` keeps all of `order` but its last position, which it discards.
pub open spec fn plan_follows_order(
    found: Seq<FoundSegment>,
    order: Seq<usize>,
    plan: ResumePlan,
) -> bool {
    &&& plan.found_bytes == found_bytes(found)
    &&& if order.len() == 0 {
        &&& plan.kept@.len() == 0
        &&& plan.discard is None
        &&& plan.start_index == 0
    } else {
        &&& plan.kept@ == order.drop_last()
        &&& plan.discard == Some(order.last())
        &&& plan.start_index == (if plan.kept@.len() == 0 {
            0
        } else {
            found[plan.kept@.last() as int].index + 1
        })
    }
}

impl ResumePlan {
    /// Plans the resumption of a download from the segments found on disk.
    pub fn new(found: &Vec<FoundSegment>) -> (plan: ResumePlan)
        requires
            found_bytes(found@) <= u64::MAX,
            at_most_one_max_index(found@),
        ensures
            is_resume_plan_of(found@, plan),
    {
        let mut total: u64 = 0;
        let mut i: usize = 0;
        while i < found.len()
            invariant
                i <= found@.len(),
                found_bytes(found@) <= u64::MAX,
                total == found_bytes(found@.take(i as int)),
            decreases found.len() - i,
        {
            assert(found@.take(i + 1).drop_last() == found@.take(i as int));
            proof {
                lemma_found_bytes_prefix(found@, i + 1);
            }
            total = total + found[i].size;
            i = i + 1;
        }
        assert(found@.take(found@.len() as int) == found@);
        let mut order = found_order(found);
        let ghost full = order@;
        let discard = order.pop();
        let start_index = if order.len() == 0 {
            0
        } else {
            let last = order[order.len() - 1];
            assert(full[order@.len() - 1] == last);
            assert(found@[full.last() as int].index != usize::MAX || found@[last as int].index
                != usize::MAX);
            assert(found_before(found@, last as int, full.last() as int));
            found[last].index + 1
        };
        let plan = ResumePlan { kept: order, discard, start_index, found_bytes: total };
        assert(plan_follows_order(found@, full, plan));
        plan
    }

    /// The bytes of the found segments that stay on disk: all of them, less
    /// the discarded one when it was deleted.
    pub fn bytes_on_disk(&self, found: &Vec<FoundSegment>, discard_deleted: bool) -> (r: u64)
        requires
            is_resume_plan_of(found@, *self),
        ensures
            r == (match self.discard {
                Some(p) => if discard_deleted {
                    found_bytes(found@) - found@[p as int].size
                } else {
                    found_bytes(found@) as int
                },
                None => found_bytes(found@) as int,
            }),
    {
        match self.discard {
            Some(p) => {
                if discard_deleted {
                    let ghost order = choose|order: Seq<usize>|
                        is_found_order(found@, order) && plan_follows_order(found@, order, *self);
                    assert(order.len() > 0);
                    assert(p < found@.len());
                    proof {
                        lemma_found_bytes_member(found@, p as int);
                    }
                    self.found_bytes - found[p].size
                } else {
                    self.found_bytes
                }
            },
            None => self.found_bytes,
        }
    }
}

/// The size of a prefix of the found segments is the sum of its members.
proof fn lemma_found_bytes_prefix(found: Seq<FoundSegment>, k: int)
    requires
        0 <= k <= found.len(),
    ensures
        found_bytes(found.take(k)) <= found_bytes(found),
    decreases found.len() - k,
{
    if k < found.len() {
        lemma_found_bytes_prefix(found, k + 1);
        assert(found.take(k + 1).drop_last() == found.take(k));
    } else {
        assert(found.take(k) == found);
    }
}

/// Each found segment's size is part of the total.
proof fn lemma_found_bytes_member(found: Seq<FoundSegment>, p: int)
    requires
        0 <= p < found.len(),
    ensures
        found[p].size <= found_bytes(found),
    decreases found.len(),
{
    if p < found.len() - 1 {
        lemma_found_bytes_member(found.drop_last(), p);
    }
}

/// One part of the joined video.
#[derive(Clone, Copy, Debug)]
pub enum JoinPart {
    /// A segment kept from an earlier run: its position in the found list and its index.
    Kept { position: usize, index: usize },
    /// A segment downloaded in this run.
    Fresh { index: usize },
}

/// The segment index of a join part.
pub open spec fn part_index(part: JoinPart) -> usize {
    match part {
        JoinPart::Kept { index, .. } => index,
        JoinPart::Fresh { index } => index,
    }
}

/// The parts of the joined video: the kept segments in their order, then
/// the segments from `plan.start_index` up to `segment_count` as downloaded.
pub open spec fn join_order_of(found: Seq<FoundSegment>, plan: ResumePlan, segment_count: nat) -> Seq<JoinPart> {
    let kept = Seq::new(
        plan.kept@.len(),
        |t: int| JoinPart::Kept { position: plan.kept@[t], index: found[plan.kept@[t] as int].index },
    );
    let fresh_count = if plan.start_index < segment_count {
        segment_count - plan.start_index
    } else {
        0
    };
    let fresh = Seq::new(
        fresh_count as nat,
        |t: int| JoinPart::Fresh { index: (plan.start_index + t) as usize },
    );
    kept + fresh
}

/// The order in which the segments of a finished download are joined.
pub fn join_order(found: &Vec<FoundSegment>, plan: &ResumePlan, segment_count: usize) -> (parts: Vec<JoinPart>)
    requires
        is_resume_plan_of(found@, *plan),
    ensures
        parts@ == join_order_of(found@, *plan, segment_count as nat),
{
    let ghost order = choose|order: Seq<usize>|
        is_found_order(found@, order) && plan_follows_order(found@, order, *plan);
    let mut parts: Vec<JoinPart> = Vec::new();
    let mut t: usize = 0;
    while t < plan.kept.len()
        invariant
            t <= plan.kept@.len(),
            is_found_order(found@, order),
            plan_follows_order(found@, order, *plan),
            parts@ == join_order_of(found@, *plan, segment_count as nat).take(t as int),
        decreases plan.kept.len() - t,
    {
        let position = plan.kept[t];
        assert(order.len() > 0);
        assert(order[t as int] == position);
        parts.push(JoinPart::Kept { position, index: found[position].index });
        assert(join_order_of(found@, *plan, segment_count as nat).take(t + 1) == join_order_of(
            found@,
            *plan,
            segment_count as nat,
        ).take(t as int).push(parts@.last()));
        t = t + 1;
    }
    let mut index = plan.start_index;
    while index < segment_count
        invariant
            plan.kept@.len() <= parts@.len(),
            plan.start_index <= index,
            parts@.len() == plan.kept@.len() + (index - plan.start_index),
            index <= (if plan.start_index < segment_count {
                segment_count
            } else {
                plan.start_index
            }),
            parts@ == join_order_of(found@, *plan, segment_count as nat).take(parts@.len() as int),
        decreases segment_count - index,
    {
        parts.push(JoinPart::Fresh { index });
        assert(join_order_of(found@, *plan, segment_count as nat).take(parts@.len() as int) == join_order_of(
            found@,
            *plan,
            segment_count as nat,
        ).take(parts@.len() - 1).push(parts@.last()));
        index = index + 1;
    }
    assert(join_order_of(found@, *plan, segment_count as nat).take(parts@.len() as int) == join_order_of(
        found@,
        *plan,
        segment_count as nat,
    ));
    parts
}

/// The joined video takes its segments in ascending index order: the order
/// that sorting the parts by index (stably) would give.
pub proof fn lemma_join_order_sorted(found: Seq<FoundSegment>, plan: ResumePlan, segment_count: nat)
    requires
        is_resume_plan_of(found, plan),
        segment_count <= usize::MAX,
    ensures
        forall|s: int, t: int|
            0 <= s < t < join_order_of(found, plan, segment_count).len() ==> part_index(
                #[trigger] join_order_of(found, plan, segment_count)[s],
            ) <= part_index(#[trigger] join_order_of(found, plan, segment_count)[t]),
{
    let order = choose|order: Seq<usize>|
        is_found_order(found, order) && plan_follows_order(found, order, plan);
    let parts = join_order_of(found, plan, segment_count);
    let k = plan.kept@.len() as int;
    assert forall|s: int, t: int| 0 <= s < t < parts.len() implies part_index(#[trigger] parts[s])
        <= part_index(#[trigger] parts[t]) by {
        if t < k {
            assert(plan.kept@[s] == order[s]);
            assert(plan.kept@[t] == order[t]);
            assert(part_index(parts[s]) == found[order[s] as int].index);
            assert(part_index(parts[t]) == found[order[t] as int].index);
            assert(found_before(found, order[s] as int, order[t] as int));
        } else if s < k {
            assert(part_index(parts[t]) == plan.start_index + (t - k));
            assert(plan.kept@[s] == order[s]);
            assert(plan.kept@[k - 1] == order[k - 1]);
            assert(part_index(parts[s]) == found[order[s] as int].index);
            if s < k - 1 {
                assert(found_before(found, order[s] as int, order[k - 1] as int));
            }
            assert(plan.start_index == found[order[k - 1] as int].index + 1);
        } else {
            assert(part_index(parts[s]) == plan.start_index + (s - k));
            assert(part_index(parts[t]) == plan.start_index + (t - k));
        }
    }
}

/// A resumed download discards a found segment of the largest index, keeps
/// all the others, and starts after every kept index.
pub proof fn lemma_resume_plan_shape(found: Seq<FoundSegment>, plan: ResumePlan)
    requires
        is_resume_plan_of(found, plan),
        found.len() <= usize::MAX,
    ensures
        plan.discard matches Some(d) ==> forall|p: int|
            0 <= p < found.len() ==> (#[trigger] found[p]).index <= found[d as int].index,
        forall|t: int|
            0 <= t < plan.kept@.len() ==> found[(#[trigger] plan.kept@[t]) as int].index
                < plan.start_index,
        plan.kept@.len() + (if plan.discard is Some {
            1int
        } else {
            0int
        }) == found.len(),
{
    let order = choose|order: Seq<usize>|
        is_found_order(found, order) && plan_follows_order(found, order, plan);
    if order.len() > 0 {
        let last = order.len() - 1;
        assert forall|p: int| 0 <= p < found.len() implies (#[trigger] found[p]).index
            <= found[order[last] as int].index by {
            assert(order.contains(p as usize));
            let s = choose|s: int| 0 <= s < order.len() && order[s] == p as usize;
            assert(order[s] as int == p);
            if s < last {
                assert(found_before(found, order[s] as int, order[last] as int));
            }
        }
        let k = plan.kept@.len() as int;
        assert forall|t: int| 0 <= t < k implies found[(#[trigger] plan.kept@[t]) as int].index
            < plan.start_index by {
            assert(plan.kept@[t] == order[t]);
            assert(plan.kept@[k - 1] == order[k - 1]);
            if t < k - 1 {
                assert(found_before(found, order[t] as int, order[k - 1] as int));
            }
        }
    }
}

} // verus!
