//! Splits the frames of an animation over several Blender processes.
use crate::decimal::{decimal, decimal_reads_back, i64_text, number_value, u64_text};
use crate::text::{same_text, texts};
use vstd::arithmetic::div_mod::lemma_fundamental_div_mod;
use vstd::prelude::*;
use vstd::string::*;

verus! {

/// How frames are handed out to the processes.
#[derive(Clone, Copy, Debug, PartialEq, Eq, Structural)]
pub enum Distribution {
    /// Each process renders one stretch of neighbouring frames.
    Chunks,
    /// Each process renders every n-th frame.
    Interleave,
}

impl Distribution {
    /// Reads a distribution from the settings; an unknown name means chunks.
    pub fn from_str(s: &str) -> (res: Distribution)
        ensures
            res == distribution_named(s@),
    {
        if same_text(s, "interleave") {
            Distribution::Interleave
        } else {
            Distribution::Chunks
        }
    }
}

/// The distribution that a name in the settings stands for.
pub open spec fn distribution_named(s: Seq<char>) -> Distribution {
    if s == "interleave"@ {
        Distribution::Interleave
    } else {
        Distribution::Chunks
    }
}

/// The work of one Blender process.
#[derive(Clone, Debug, PartialEq)]
pub struct Partition {
    /// Position among the processes, which is also the GPU that it is pinned to.
    pub index: usize,
    /// Command-line arguments that select the frames.
    pub frame_args: Vec<String>,
    /// The frames, for people to read.
    pub frames_label: String,
}

/// The frames of one process: `first`, then every `step`-th up to `last`.
pub struct Share {
    pub first: int,
    pub last: int,
    pub step: int,
}

/// The lower end of a range whose ends come in either order.
pub open spec fn lowest(start: int, end: int) -> int {
    if start <= end {
        start
    } else {
        end
    }
}

/// The upper end of a range whose ends come in either order.
pub open spec fn highest(start: int, end: int) -> int {
    if start <= end {
        end
    } else {
        start
    }
}

/// How many frames a range covers.
pub open spec fn frame_total(start: int, end: int) -> int {
    highest(start, end) - lowest(start, end) + 1
}

/// How many processes share a range: as many as were asked for, but at least
/// one and at most one for each frame.
pub open spec fn process_total(start: int, end: int, count: int) -> int {
    if count < 1 {
        1
    } else if count > frame_total(start, end) {
        frame_total(start, end)
    } else {
        count
    }
}

/// How many frames lie before the `i`-th of `n` chunks of `total` frames:
/// the frames that are left over by an even split go to the chunks in front.
pub open spec fn frames_before(total: int, n: int, i: int) -> int {
    i * (total / n) + (if i < total % n {
        i
    } else {
        total % n
    })
}

/// The frames of the `i`-th process.
pub open spec fn share_of(start: int, end: int, count: int, dist: Distribution, i: int) -> Share {
    let lo = lowest(start, end);
    let total = frame_total(start, end);
    let n = process_total(start, end, count);
    match dist {
        Distribution::Chunks => Share {
            first: lo + frames_before(total, n, i),
            last: lo + frames_before(total, n, i + 1) - 1,
            step: 1,
        },
        Distribution::Interleave => Share { first: lo + i, last: highest(start, end), step: n },
    }
}

/// The arguments that make Blender render a share.
pub open spec fn share_args(dist: Distribution, share: Share) -> Seq<Seq<char>> {
    match dist {
        Distribution::Chunks => seq![
            "-s"@,
            decimal(share.first),
            "-e"@,
            decimal(share.last),
            "-a"@,
        ],
        Distribution::Interleave => seq![
            "-s"@,
            decimal(share.first),
            "-e"@,
            decimal(share.last),
            "-j"@,
            decimal(share.step),
            "-a"@,
        ],
    }
}

/// A share as people read it: `7`, `1-25` or `3-100 step 4`.
pub open spec fn share_label(dist: Distribution, share: Share) -> Seq<char> {
    match dist {
        Distribution::Chunks => if share.first == share.last {
            decimal(share.first)
        } else {
            decimal(share.first) + "-"@ + decimal(share.last)
        },
        Distribution::Interleave => decimal(share.first) + "-"@ + decimal(share.last) + " step "@
            + decimal(share.step),
    }
}

/// `parts` is the split of the frames between `start` and `end` over (at
/// most) `count` processes.
pub open spec fn splits(
    parts: Seq<Partition>,
    start: int,
    end: int,
    count: int,
    dist: Distribution,
) -> bool {
    &&& parts.len() == process_total(start, end, count)
    &&& forall|i: int|
        0 <= i < parts.len() ==> {
            &&& (#[trigger] parts[i]).index == i
            &&& texts(parts[i].frame_args@) == share_args(
                dist,
                share_of(start, end, count, dist, i),
            )
            &&& parts[i].frames_label@ == share_label(dist, share_of(start, end, count, dist, i))
        }
}

/// A number with `base` per chunk and one more for the first `rest` chunks.
proof fn lemma_frames_before_step(total: int, n: int, i: int)
    requires
        1 <= n <= total,
        0 <= i < n,
    ensures
        frames_before(total, n, i + 1) == frames_before(total, n, i) + total / n + (if i < total
            % n {
            1int
        } else {
            0int
        }),
        total / n >= 1,
        frames_before(total, n, 0) == 0,
        frames_before(total, n, n) == total,
{
    let base = total / n;
    assert((i + 1) * base == i * base + base) by (nonlinear_arith);
    assert(base >= 1) by (nonlinear_arith)
        requires
            base == total / n,
            1 <= n <= total,
    ;
    lemma_fundamental_div_mod(total, n);
    assert(0 <= total % n < n) by (nonlinear_arith)
        requires
            n >= 1,
    ;
    assert(0 * base == 0);
}

/// Chunks follow each other: an earlier chunk begins at or before a later one.
proof fn lemma_frames_before_grows(total: int, n: int, i: int, j: int)
    requires
        1 <= n <= total,
        0 <= i <= j <= n,
    ensures
        frames_before(total, n, i) <= frames_before(total, n, j),
        i < j ==> frames_before(total, n, i) < frames_before(total, n, j),
    decreases j - i,
{
    if i < j {
        lemma_frames_before_step(total, n, j - 1);
        lemma_frames_before_grows(total, n, i, j - 1);
    }
}

/// Splits the frames from `start` to `end` over `count` processes. The ends
/// may come in either order, and there are never more processes than frames.
pub fn compute_partitions(start: i64, end: i64, count: usize, dist: Distribution) -> (res: Vec<
    Partition,
>)
    requires
        frame_total(start as int, end as int) <= i64::MAX,
        frame_total(start as int, end as int) <= usize::MAX,
    ensures
        splits(res@, start as int, end as int, count as int, dist),
{
    let (lo, hi): (i64, i64) = if start <= end {
        (start, end)
    } else {
        (end, start)
    };
    let frame_count: usize = (hi - lo + 1) as usize;
    let n: usize = if count < 1 {
        1
    } else if count > frame_count {
        frame_count
    } else {
        count
    };
    match dist {
        Distribution::Chunks => chunk_partitions(lo, hi, n),
        Distribution::Interleave => interleaved_partitions(lo, hi, n),
    }
}

/// Splits the frames `lo..=hi` into `n` stretches of neighbouring frames.
fn chunk_partitions(lo: i64, hi: i64, n: usize) -> (parts: Vec<Partition>)
    requires
        lo <= hi,
        hi - lo + 1 <= i64::MAX,
        hi - lo + 1 <= usize::MAX,
        1 <= n <= hi - lo + 1,
    ensures
        splits(parts@, lo as int, hi as int, n as int, Distribution::Chunks),
{
    let frame_count: usize = (hi - lo + 1) as usize;
    let base: usize = frame_count / n;
    let rem: usize = frame_count % n;
    let ghost total = frame_count as int;
    let mut parts: Vec<Partition> = Vec::new();
    let mut cursor: i64 = lo;
    let mut i: usize = 0;
    proof {
        lemma_frames_before_step(total, n as int, 0);
    }
    while i < n
        invariant
            lo <= hi,
            total == frame_count == hi - lo + 1,
            total <= i64::MAX,
            1 <= n <= total,
            base == total / n as int,
            rem == total % n as int,
            i <= n,
            parts@.len() == i,
            i < n ==> cursor == lo + frames_before(total, n as int, i as int),
            forall|k: int|
                0 <= k < i ==> {
                    let share = share_of(lo as int, hi as int, n as int, Distribution::Chunks, k);
                    &&& (#[trigger] parts@[k]).index == k
                    &&& texts(parts@[k].frame_args@) == share_args(Distribution::Chunks, share)
                    &&& parts@[k].frames_label@ == share_label(Distribution::Chunks, share)
                },
        decreases n - i,
    {
        proof {
            lemma_frames_before_step(total, n as int, i as int);
            lemma_frames_before_grows(total, n as int, 0, i as int);
            lemma_frames_before_grows(total, n as int, i + 1, n as int);
        }
        let len: usize = base + if i < rem {
            1
        } else {
            0
        };
        let band_start: i64 = cursor;
        let band_end: i64 = cursor + (len as i64 - 1);
        if i + 1 < n {
            cursor = band_end + 1;
        }
        let first = i64_text(band_start);
        let last = i64_text(band_end);
        let frames_label = if band_start == band_end {
            first.clone()
        } else {
            first.clone().concat("-").concat(last.as_str())
        };
        let frame_args = vec!["-s".to_owned(), first, "-e".to_owned(), last, "-a".to_owned()];
        proof {
            let share = share_of(lo as int, hi as int, n as int, Distribution::Chunks, i as int);
            assert(band_start == share.first && band_end == share.last);
            assert(texts(frame_args@) =~= share_args(Distribution::Chunks, share));
        }
        parts.push(Partition { index: i, frame_args, frames_label });
        i = i + 1;
    }
    parts
}

/// Hands the frames `lo..=hi` out to `n` processes in turn.
fn interleaved_partitions(lo: i64, hi: i64, n: usize) -> (parts: Vec<Partition>)
    requires
        lo <= hi,
        hi - lo + 1 <= i64::MAX,
        1 <= n <= hi - lo + 1,
    ensures
        splits(parts@, lo as int, hi as int, n as int, Distribution::Interleave),
{
    let mut parts: Vec<Partition> = Vec::new();
    let mut i: usize = 0;
    while i < n
        invariant
            lo <= hi,
            hi - lo + 1 <= i64::MAX,
            1 <= n <= hi - lo + 1,
            i <= n,
            parts@.len() == i,
            forall|k: int|
                0 <= k < i ==> {
                    let share = share_of(
                        lo as int,
                        hi as int,
                        n as int,
                        Distribution::Interleave,
                        k,
                    );
                    &&& (#[trigger] parts@[k]).index == k
                    &&& texts(parts@[k].frame_args@) == share_args(Distribution::Interleave, share)
                    &&& parts@[k].frames_label@ == share_label(Distribution::Interleave, share)
                },
        decreases n - i,
    {
        let proc_start: i64 = lo + i as i64;
        let first = i64_text(proc_start);
        let last = i64_text(hi);
        let step = u64_text(n as u64);
        let frames_label = first.clone().concat("-").concat(last.as_str()).concat(" step ").concat(
            step.as_str(),
        );
        let frame_args = vec![
            "-s".to_owned(),
            first,
            "-e".to_owned(),
            last,
            "-j".to_owned(),
            step,
            "-a".to_owned(),
        ];
        proof {
            let share = share_of(lo as int, hi as int, n as int, Distribution::Interleave, i as int);
            assert(texts(frame_args@) =~= share_args(Distribution::Interleave, share));
        }
        parts.push(Partition { index: i, frame_args, frames_label });
        i = i + 1;
    }
    parts
}

/// The frames that Blender renders when it is called with `args`: the first
/// (`-s`) to the last (`-e`), or every `-j`-th of them.
pub open spec fn renders(args: Seq<Seq<char>>, frame: int) -> bool {
    if args.len() == 5 {
        &&& args[0] == "-s"@ && args[2] == "-e"@ && args[4] == "-a"@
        &&& match (number_value(args[1], true), number_value(args[3], true)) {
            (Some(first), Some(last)) => first <= frame <= last,
            _ => false,
        }
    } else {
        &&& args.len() == 7
        &&& args[0] == "-s"@ && args[2] == "-e"@ && args[4] == "-j"@ && args[6] == "-a"@
        &&& match (
            number_value(args[1], true),
            number_value(args[3], true),
            number_value(args[5], true),
        ) {
            (Some(first), Some(last), Some(step)) => first <= frame <= last && step > 0 && (frame
                - first) % step == 0,
            _ => false,
        }
    }
}

/// A share holds the frame.
pub open spec fn in_share(share: Share, frame: int) -> bool {
    share.first <= frame <= share.last && (frame - share.first) % share.step == 0
}

/// Blender renders the frames of a share when it gets the share's arguments.
pub proof fn share_args_render_the_share(dist: Distribution, share: Share, frame: int)
    requires
        share.step > 0,
        dist == Distribution::Chunks ==> share.step == 1,
    ensures
        renders(share_args(dist, share), frame) == in_share(share, frame),
{
    decimal_reads_back(share.first);
    decimal_reads_back(share.last);
    decimal_reads_back(share.step);
}

proof fn lemma_chunk_holding(total: int, n: int, offset: int, i: int) -> (k: int)
    requires
        1 <= n <= total,
        0 <= i <= n,
        0 <= offset < frames_before(total, n, i),
    ensures
        0 <= k < i,
        frames_before(total, n, k) <= offset < frames_before(total, n, k + 1),
    decreases i,
{
    if i == 0 {
        lemma_frames_before_step(total, n, 0);
        0
    } else if frames_before(total, n, i - 1) <= offset {
        i - 1
    } else {
        lemma_chunk_holding(total, n, offset, i - 1)
    }
}

/// The process that renders a frame of the range.
proof fn lemma_process_of_frame(
    start: int,
    end: int,
    count: int,
    dist: Distribution,
    frame: int,
) -> (k: int)
    requires
        lowest(start, end) <= frame <= highest(start, end),
    ensures
        0 <= k < process_total(start, end, count),
        in_share(share_of(start, end, count, dist, k), frame),
{
    let n = process_total(start, end, count);
    let total = frame_total(start, end);
    let offset = frame - lowest(start, end);
    match dist {
        Distribution::Chunks => {
            lemma_frames_before_step(total, n, 0);
            lemma_chunk_holding(total, n, offset, n)
        },
        Distribution::Interleave => {
            let k = offset % n;
            lemma_fundamental_div_mod(offset, n);
            assert(0 <= k < n && k <= offset && (offset - k) % n == 0) by (nonlinear_arith)
                requires
                    n >= 1,
                    offset >= 0,
                    k == offset % n,
            ;
            k
        },
    }
}

proof fn lemma_one_process_per_frame(
    start: int,
    end: int,
    count: int,
    dist: Distribution,
    frame: int,
    j: int,
    k: int,
)
    requires
        0 <= j < process_total(start, end, count),
        0 <= k < process_total(start, end, count),
        in_share(share_of(start, end, count, dist, j), frame),
        in_share(share_of(start, end, count, dist, k), frame),
    ensures
        j == k,
{
    let n = process_total(start, end, count);
    let total = frame_total(start, end);
    match dist {
        Distribution::Chunks => {
            if j < k {
                lemma_frames_before_grows(total, n, j + 1, k);
            } else if k < j {
                lemma_frames_before_grows(total, n, k + 1, j);
            }
        },
        Distribution::Interleave => {
            let a = frame - lowest(start, end) - j;
            let b = frame - lowest(start, end) - k;
            assert(a == b) by (nonlinear_arith)
                requires
                    a % n == 0,
                    b % n == 0,
                    -n < a - b < n,
                    n >= 1,
            ;
        },
    }
}

/// Every frame of the range is rendered by one process and by no other, and
/// no process renders a frame outside the range.
pub proof fn every_frame_rendered_once(
    parts: Seq<Partition>,
    start: int,
    end: int,
    count: int,
    dist: Distribution,
    frame: int,
)
    requires
        splits(parts, start, end, count, dist),
    ensures
        lowest(start, end) <= frame <= highest(start, end) ==> exists|i: int|
            0 <= i < parts.len() && #[trigger] renders(texts(parts[i].frame_args@), frame),
        forall|i: int, j: int|
            0 <= i < parts.len() && 0 <= j < parts.len() && #[trigger] renders(
                texts(parts[i].frame_args@),
                frame,
            ) && #[trigger] renders(texts(parts[j].frame_args@), frame) ==> i == j,
        forall|i: int|
            0 <= i < parts.len() && #[trigger] renders(texts(parts[i].frame_args@), frame)
                ==> lowest(start, end) <= frame <= highest(start, end),
{
    let n = process_total(start, end, count);
    let total = frame_total(start, end);
    assert forall|i: int| 0 <= i < parts.len() implies #[trigger] renders(
        texts(parts[i].frame_args@),
        frame,
    ) == in_share(share_of(start, end, count, dist, i), frame) by {
        share_args_render_the_share(dist, share_of(start, end, count, dist, i), frame);
    }
    if lowest(start, end) <= frame <= highest(start, end) {
        let k = lemma_process_of_frame(start, end, count, dist, frame);
        assert(renders(texts(parts[k].frame_args@), frame));
    }
    assert forall|i: int, j: int|
        0 <= i < parts.len() && 0 <= j < parts.len() && #[trigger] renders(
            texts(parts[i].frame_args@),
            frame,
        ) && #[trigger] renders(texts(parts[j].frame_args@), frame) implies i == j by {
        lemma_one_process_per_frame(start, end, count, dist, frame, i, j);
    }
    assert forall|i: int|
        0 <= i < parts.len() && #[trigger] renders(
            texts(parts[i].frame_args@),
            frame,
        ) implies lowest(start, end) <= frame <= highest(start, end) by {
        if dist == Distribution::Chunks {
            lemma_frames_before_step(total, n, i);
            lemma_frames_before_grows(total, n, 0, i);
            lemma_frames_before_grows(total, n, i + 1, n);
        }
    }
}

/// There is at least one process, and no more than were asked for (where any
/// were) or than there are frames.
pub proof fn process_count_is_capped(
    parts: Seq<Partition>,
    start: int,
    end: int,
    count: int,
    dist: Distribution,
)
    requires
        splits(parts, start, end, count, dist),
    ensures
        1 <= parts.len() <= frame_total(start, end),
        count >= 1 ==> parts.len() <= count,
        1 <= count <= frame_total(start, end) ==> parts.len() == count,
{
}

/// Every process has a frame to render: its first one lies in the range.
pub proof fn no_process_is_idle(start: int, end: int, count: int, dist: Distribution, i: int)
    requires
        0 <= i < process_total(start, end, count),
    ensures
        ({
            let share = share_of(start, end, count, dist, i);
            lowest(start, end) <= share.first <= share.last <= highest(start, end)
        }),
{
    if dist == Distribution::Chunks {
        let n = process_total(start, end, count);
        let total = frame_total(start, end);
        lemma_frames_before_step(total, n, i);
        lemma_frames_before_grows(total, n, 0, i);
        lemma_frames_before_grows(total, n, i + 1, n);
    }
}

/// The split does not depend on which end of the range is given first.
pub proof fn ends_may_come_in_either_order(
    parts: Seq<Partition>,
    start: int,
    end: int,
    count: int,
    dist: Distribution,
)
    ensures
        splits(parts, start, end, count, dist) == splits(parts, end, start, count, dist),
{
    assert forall|i: int| #[trigger]
        share_of(start, end, count, dist, i) == share_of(end, start, count, dist, i) by {
    }
}

/// Chunks lie next to each other, from the first frame of the range to the
/// last, and no two differ by more than one frame; longer ones come first.
pub proof fn chunks_are_balanced(start: int, end: int, count: int, i: int, j: int)
    requires
        0 <= i <= j < process_total(start, end, count),
    ensures
        ({
            let n = process_total(start, end, count);
            let a = share_of(start, end, count, Distribution::Chunks, i);
            let b = share_of(start, end, count, Distribution::Chunks, j);
            &&& 0 <= (a.last - a.first) - (b.last - b.first) <= 1
            &&& i == 0 ==> a.first == lowest(start, end)
            &&& j == n - 1 ==> b.last == highest(start, end)
            &&& j == i + 1 ==> b.first == a.last + 1
        }),
{
    let n = process_total(start, end, count);
    let total = frame_total(start, end);
    lemma_frames_before_step(total, n, i);
    lemma_frames_before_step(total, n, j);
}

/// Blender, called with a first and a last frame, renders all frames from the
/// one to the other; called with a step as well, every frame that lies a
/// multiple of the step behind the first.
pub proof fn blender_reads_the_arguments(first: int, last: int, step: int, frame: int)
    requires
        step > 0,
    ensures
        renders(seq!["-s"@, decimal(first), "-e"@, decimal(last), "-a"@], frame) == (first <= frame
            && frame <= last),
        renders(
            seq!["-s"@, decimal(first), "-e"@, decimal(last), "-j"@, decimal(step), "-a"@],
            frame,
        ) == (first <= frame && frame <= last && (frame - first) % step == 0),
{
    decimal_reads_back(first);
    decimal_reads_back(last);
    decimal_reads_back(step);
}

/// The frames that are rendered are those from the one end of the range to the
/// other, both included, and no others; and no two processes render the same.
pub proof fn exactly_the_frames_of_the_range(
    parts: Seq<Partition>,
    start: int,
    end: int,
    count: int,
    dist: Distribution,
    frame: int,
)
    requires
        splits(parts, start, end, count, dist),
    ensures
        (exists|i: int|
            0 <= i < parts.len() && #[trigger] renders(texts(parts[i].frame_args@), frame)) <==> (
        start <= frame && frame <= end) || (end <= frame && frame <= start),
        forall|i: int, j: int|
            0 <= i < j < parts.len() ==> !(#[trigger] renders(texts(parts[i].frame_args@), frame)
                && #[trigger] renders(texts(parts[j].frame_args@), frame)),
{
    every_frame_rendered_once(parts, start, end, count, dist, frame);
}

/// There are as many processes as were asked for, but at least one, and never
/// more than there are frames from the one end of the range to the other.
pub proof fn as_many_processes_as_asked_for(
    parts: Seq<Partition>,
    start: int,
    end: int,
    count: int,
    dist: Distribution,
)
    requires
        splits(parts, start, end, count, dist),
    ensures
        ({
            let frames = if start <= end {
                end - start + 1
            } else {
                start - end + 1
            };
            &&& 1 <= parts.len() <= frames
            &&& count >= 1 ==> parts.len() <= count
            &&& count < 1 ==> parts.len() == 1
            &&& 1 <= count <= frames ==> parts.len() == count
            &&& count > frames ==> parts.len() == frames
        }),
{
}

/// The frame number that stands among the arguments of a process.
pub open spec fn argument(parts: Seq<Partition>, i: int, k: int) -> int {
    number_value(texts(parts[i].frame_args@)[k], true)->0
}

/// Chunks, from argument to argument: each process gets a first and a last
/// frame, the first process begins at the lower end of the range, each begins
/// where the one before it ended, the last ends at the upper end, and of two
/// processes the earlier has as many frames as the later or one more. The
/// label shows the two frames, or the one if they are the same.
pub proof fn chunks_spelled_out(
    parts: Seq<Partition>,
    start: int,
    end: int,
    count: int,
    i: int,
    j: int,
)
    requires
        splits(parts, start, end, count, Distribution::Chunks),
        0 <= i <= j < parts.len(),
    ensures
        ({
            let first = argument(parts, i, 1);
            let last = argument(parts, i, 3);
            &&& parts[i].index == i
            &&& texts(parts[i].frame_args@) == seq![
                "-s"@,
                decimal(first),
                "-e"@,
                decimal(last),
                "-a"@,
            ]
            &&& first <= last
            &&& i == 0 ==> (first == start || first == end) && first <= start && first <= end
            &&& i == parts.len() - 1 ==> (last == start || last == end) && start <= last && end
                <= last
            &&& j == i + 1 ==> argument(parts, j, 1) == last + 1
            &&& 0 <= (last - first) - (argument(parts, j, 3) - argument(parts, j, 1)) <= 1
            &&& first == last ==> parts[i].frames_label@ == decimal(first)
            &&& first != last ==> parts[i].frames_label@ == decimal(first) + "-"@ + decimal(last)
        }),
{
    let n = process_total(start, end, count);
    let total = frame_total(start, end);
    let a = share_of(start, end, count, Distribution::Chunks, i);
    let b = share_of(start, end, count, Distribution::Chunks, j);
    assert(parts[i].index == i && parts[j].index == j);
    decimal_reads_back(a.first);
    decimal_reads_back(a.last);
    decimal_reads_back(b.first);
    decimal_reads_back(b.last);
    lemma_frames_before_step(total, n, i);
    chunks_are_balanced(start, end, count, i, j);
    chunks_are_balanced(start, end, count, i, i);
}

/// Interleaving, from argument to argument: process `i` begins `i` frames
/// behind the lower end of the range, goes to the upper end, and steps by the
/// number of processes. The label shows these three.
pub proof fn interleaving_spelled_out(
    parts: Seq<Partition>,
    start: int,
    end: int,
    count: int,
    i: int,
)
    requires
        splits(parts, start, end, count, Distribution::Interleave),
        0 <= i < parts.len(),
    ensures
        ({
            let low = if start <= end {
                start
            } else {
                end
            };
            let high = if start <= end {
                end
            } else {
                start
            };
            let step = parts.len() as int;
            &&& parts[i].index == i
            &&& texts(parts[i].frame_args@) == seq![
                "-s"@,
                decimal(low + i),
                "-e"@,
                decimal(high),
                "-j"@,
                decimal(step),
                "-a"@,
            ]
            &&& parts[i].frames_label@ == decimal(low + i) + "-"@ + decimal(high) + " step "@
                + decimal(step)
        }),
{
    assert(parts[i].index == i);
}

/// Frames are interleaved exactly where the settings say so, by that word.
pub proof fn only_one_word_interleaves(s: Seq<char>)
    ensures
        s == "interleave"@ ==> distribution_named(s) == Distribution::Interleave,
        s != "interleave"@ ==> distribution_named(s) == Distribution::Chunks,
{
}

} // verus!
