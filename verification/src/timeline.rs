//! The timeline: the active top-level frames of the store in the order of
//! their timestamps, read in bounded scans.

use crate::error::ErrorKind;
use crate::frame::{Frame, FrameStatus};
use crate::model::{is_active, parent_shape, StoreModel};
use crate::store::FrameStore;
use crate::text::{clone_opt, opt_text};
use vstd::prelude::*;
use vstd::string::StrSliceExecFns;

verus! {

/// The number of characters that a preview shows at most.
pub const PREVIEW_CHARS: usize = 120;

/// What a scan of the timeline asks for.
#[derive(Clone, Copy, Debug, PartialEq, Eq, Structural)]
pub struct TimelineQuery {
    /// The number of entries wanted at most; zero is refused.
    pub limit: u64,
    /// The earliest timestamp wanted, itself included.
    pub since: Option<i64>,
    /// The latest timestamp wanted, itself included.
    pub until: Option<i64>,
    /// Whether the youngest entry comes first.
    pub reverse: bool,
}

/// The bounds and the direction of a scan.
pub struct Bounds {
    pub since: Option<i64>,
    pub until: Option<i64>,
    pub reverse: bool,
}

impl TimelineQuery {
    /// The bounds and the direction that the query asks for.
    pub open spec fn bounds(self) -> Bounds {
        Bounds { since: self.since, until: self.until, reverse: self.reverse }
    }
}

/// One entry of the timeline.
#[derive(Clone, Debug)]
pub struct TimelineEntry {
    pub frame_id: u64,
    pub timestamp: i64,
    pub preview: String,
    pub uri: Option<String>,
    pub child_frames: Vec<u64>,
}

/// The mathematical content of a timeline entry.
pub struct TimelineEntryView {
    pub frame_id: u64,
    pub timestamp: i64,
    pub preview: Seq<char>,
    pub uri: Option<Seq<char>>,
    pub child_frames: Seq<u64>,
}

impl View for TimelineEntry {
    type V = TimelineEntryView;

    open spec fn view(&self) -> TimelineEntryView {
        TimelineEntryView {
            frame_id: self.frame_id,
            timestamp: self.timestamp,
            preview: self.preview@,
            uri: opt_text(self.uri),
            child_frames: self.child_frames@,
        }
    }
}

/// The content of each entry of a list.
pub open spec fn entry_views(entries: Seq<TimelineEntry>) -> Seq<TimelineEntryView> {
    Seq::new(entries.len(), |i: int| entries[i]@)
}

/// A place in the order of the timeline: a timestamp and a frame id.
pub type Position = (i64, u64);

/// Whether `a` comes strictly before `b` in the direction of the scan: by
/// timestamp, and by frame id where the timestamps are equal; ascending,
/// or descending in both where the scan is reversed.
pub open spec fn precedes(a: Position, b: Position, reverse: bool) -> bool {
    if reverse {
        a.0 > b.0 || (a.0 == b.0 && a.1 > b.1)
    } else {
        a.0 < b.0 || (a.0 == b.0 && a.1 < b.1)
    }
}

/// Whether `timestamp` lies within the bounds of the query.
pub open spec fn within(timestamp: i64, q: Bounds) -> bool {
    &&& q.since is Some ==> q.since->0 <= timestamp
    &&& q.until is Some ==> timestamp <= q.until->0
}

/// The frame `i` is on the timeline of the query: active, no chunk of
/// another frame, and within the bounds.
pub open spec fn listed(m: StoreModel, q: Bounds, i: int) -> bool {
    &&& is_active(m, i)
    &&& m.frames[i].parent_id is None
    &&& within(m.frames[i].timestamp, q)
}

/// The place of the frame `i`.
pub open spec fn position(m: StoreModel, i: int) -> Position {
    (m.frames[i].timestamp, i as u64)
}

/// The frame `i` is on the timeline and strictly behind `after`.
pub open spec fn candidate(m: StoreModel, q: Bounds, after: Option<Position>, i: int)
    -> bool {
    &&& listed(m, q, i)
    &&& after is Some ==> precedes(after->0, position(m, i), q.reverse)
}

/// The frame `i` is the first on the timeline behind `after`.
pub open spec fn is_next(m: StoreModel, q: Bounds, after: Option<Position>, i: int)
    -> bool {
    &&& candidate(m, q, after, i)
    &&& forall|j: int| #[trigger]
        candidate(m, q, after, j) ==> !precedes(position(m, j), position(m, i), q.reverse)
}

/// Some frame is on the timeline behind `after`.
pub open spec fn has_next(m: StoreModel, q: Bounds, after: Option<Position>) -> bool {
    exists|i: int| is_next(m, q, after, i)
}

/// The first frame on the timeline behind `after`.
pub open spec fn next_of(m: StoreModel, q: Bounds, after: Option<Position>) -> int {
    choose|i: int| is_next(m, q, after, i)
}

/// The text shown for a frame: the first characters of its indexed text.
pub open spec fn preview_of(text: Option<Seq<char>>) -> Seq<char> {
    match text {
        Some(t) => if t.len() <= PREVIEW_CHARS {
            t
        } else {
            t.take(PREVIEW_CHARS as int)
        },
        None => Seq::empty(),
    }
}

/// The ids of the chunks of the frame `i`, ascending.
pub open spec fn children_of(m: StoreModel, i: int) -> Seq<u64> {
    match m.frames[i].chunk_count {
        Some(n) => if m.frames[i].parent_id is None {
            Seq::new(n as nat, |k: int| (i + 1 + k) as u64)
        } else {
            Seq::empty()
        },
        None => Seq::empty(),
    }
}

/// The timeline entry of the frame `i`.
pub open spec fn entry_of(m: StoreModel, i: int) -> TimelineEntryView {
    TimelineEntryView {
        frame_id: i as u64,
        timestamp: m.frames[i].timestamp,
        preview: preview_of(m.frames[i].search_text),
        uri: m.frames[i].uri,
        child_frames: children_of(m, i),
    }
}

/// The first `n` entries of the timeline behind `after`, in order.
pub open spec fn scan(m: StoreModel, q: Bounds, after: Option<Position>, n: nat) -> Seq<
    TimelineEntryView,
>
    decreases n,
{
    if n == 0 || !has_next(m, q, after) {
        Seq::empty()
    } else {
        let i = next_of(m, q, after);
        seq![entry_of(m, i)] + scan(m, q, Some(position(m, i)), (n - 1) as nat)
    }
}

/// What a scan of the store returns: a zero limit is refused; else the
/// first `limit` entries of the timeline, in order.
pub open spec fn timeline_spec(m: StoreModel, q: TimelineQuery) -> Result<
    Seq<TimelineEntryView>,
    ErrorKind,
> {
    if q.limit == 0 {
        Err(ErrorKind::InvalidRequest)
    } else {
        Ok(scan(m, q.bounds(), None, q.limit as nat))
    }
}

/// There is only one first frame behind a place.
pub proof fn lemma_next_unique(m: StoreModel, q: Bounds, after: Option<Position>, i: int)
    requires
        m.frames.len() <= u64::MAX,
        is_next(m, q, after, i),
    ensures
        has_next(m, q, after),
        next_of(m, q, after) == i,
{
    let j = next_of(m, q, after);
    assert(is_next(m, q, after, j));
    assert(candidate(m, q, after, i));
    assert(candidate(m, q, after, j));
}

/// A scan returns no more entries than asked for.
pub proof fn lemma_scan_len(m: StoreModel, q: Bounds, after: Option<Position>, n: nat)
    ensures
        scan(m, q, after, n).len() <= n,
    decreases n,
{
    if n == 0 || !has_next(m, q, after) {
    } else {
        lemma_scan_len(m, q, Some(position(m, next_of(m, q, after))), (n - 1) as nat);
    }
}

/// A shorter scan returns the beginning of a longer one, and all of it
/// where the shorter one was not filled.
pub proof fn lemma_scan_prefix(
    m: StoreModel,
    q: Bounds,
    after: Option<Position>,
    a: nat,
    b: nat,
)
    requires
        a <= b,
    ensures
        scan(m, q, after, a).len() <= scan(m, q, after, b).len(),
        scan(m, q, after, a) == scan(m, q, after, b).take(scan(m, q, after, a).len() as int),
        scan(m, q, after, a).len() < a ==> scan(m, q, after, a) == scan(m, q, after, b),
        scan(m, q, after, b).len() >= a ==> scan(m, q, after, a).len() == a,
    decreases a,
{
    let sa = scan(m, q, after, a);
    let sb = scan(m, q, after, b);
    if a == 0 || !has_next(m, q, after) {
        assert(sb.take(0) =~= Seq::<TimelineEntryView>::empty());
    } else {
        let next = Some(position(m, next_of(m, q, after)));
        lemma_scan_prefix(m, q, next, (a - 1) as nat, (b - 1) as nat);
        let ra = scan(m, q, next, (a - 1) as nat);
        let rb = scan(m, q, next, (b - 1) as nat);
        assert(sb.take(sa.len() as int) =~= sa) by {
            assert(rb.take(ra.len() as int) == ra);
            assert forall|k: int| 0 <= k < sa.len() implies sb.take(sa.len() as int)[k]
                == sa[k] by {
                if k > 0 {
                    assert(sa[k] == ra[k - 1]);
                    assert(sb[k] == rb[k - 1]);
                    assert(rb.take(ra.len() as int)[k - 1] == rb[k - 1]);
                }
            }
        }
        if sa.len() < a {
            assert(ra == rb);
            assert(sa =~= sb);
        }
    }
}

/// The place of an entry.
pub open spec fn place(e: TimelineEntryView) -> Position {
    (e.timestamp, e.frame_id)
}

/// The frame `best` is the first on the timeline behind `after` among the
/// frames below `k`.
pub open spec fn next_among(
    m: StoreModel,
    q: Bounds,
    after: Option<Position>,
    best: int,
    k: int,
) -> bool {
    &&& candidate(m, q, after, best)
    &&& best < k
    &&& forall|j: int|
        j < k && #[trigger] candidate(m, q, after, j) ==> !precedes(
            position(m, j),
            position(m, best),
            q.reverse,
        )
}

/// Among the frames below `k`, where one is on the timeline behind
/// `after`, one is the first of them.
pub proof fn lemma_next_among(m: StoreModel, q: Bounds, after: Option<Position>, i: int, k: int)
    requires
        m.frames.len() <= u64::MAX,
        candidate(m, q, after, i),
        i < k <= m.frames.len(),
    ensures
        exists|best: int| next_among(m, q, after, best, k),
    decreases k,
{
    let below = k - 1;
    if exists|j: int| j < below && candidate(m, q, after, j) {
        let j = choose|j: int| j < below && candidate(m, q, after, j);
        lemma_next_among(m, q, after, j, below);
        let best = choose|best: int| next_among(m, q, after, best, below);
        if candidate(m, q, after, below) && precedes(
            position(m, below),
            position(m, best),
            q.reverse,
        ) {
            assert(next_among(m, q, after, below, k));
        } else {
            assert(next_among(m, q, after, best, k));
        }
    } else {
        assert(i == below);
        assert(next_among(m, q, after, i, k));
    }
}

/// Where some frame is on the timeline behind a place, one of them is the
/// first.
pub proof fn lemma_next_exists(m: StoreModel, q: Bounds, after: Option<Position>, i: int)
    requires
        m.frames.len() <= u64::MAX,
        candidate(m, q, after, i),
    ensures
        has_next(m, q, after),
{
    lemma_next_among(m, q, after, i, m.frames.len() as int);
    let best = choose|best: int| next_among(m, q, after, best, m.frames.len() as int);
    assert(is_next(m, q, after, best)) by {
        assert forall|j: int| #[trigger] candidate(m, q, after, j) implies !precedes(
            position(m, j),
            position(m, best),
            q.reverse,
        ) by {}
    }
}

/// Every entry of a scan lies strictly behind the place that the scan
/// started from, and behind every entry before it.
pub proof fn lemma_scan_sorted(m: StoreModel, q: Bounds, after: Option<Position>, n: nat)
    requires
        m.frames.len() <= u64::MAX,
    ensures
        forall|k: int|
            0 <= k < scan(m, q, after, n).len() && after is Some ==> precedes(
                after->0,
                place(#[trigger] scan(m, q, after, n)[k]),
                q.reverse,
            ),
        forall|j: int, k: int|
            0 <= j < k < scan(m, q, after, n).len() ==> precedes(
                place(#[trigger] scan(m, q, after, n)[j]),
                place(#[trigger] scan(m, q, after, n)[k]),
                q.reverse,
            ),
    decreases n,
{
    let s = scan(m, q, after, n);
    if n == 0 || !has_next(m, q, after) {
    } else {
        let i = next_of(m, q, after);
        assert(is_next(m, q, after, i));
        let here = position(m, i);
        let rest = scan(m, q, Some(here), (n - 1) as nat);
        lemma_scan_sorted(m, q, Some(here), (n - 1) as nat);
        assert(s == seq![entry_of(m, i)] + rest);
        assert(place(s[0]) == here);
        assert forall|k: int| 0 <= k < s.len() && after is Some implies precedes(
            after->0,
            place(#[trigger] s[k]),
            q.reverse,
        ) by {
            if k > 0 {
                assert(s[k] == rest[k - 1]);
                assert(precedes(here, place(rest[k - 1]), q.reverse));
            }
        }
        assert forall|j: int, k: int| 0 <= j < k < s.len() implies precedes(
            place(#[trigger] s[j]),
            place(#[trigger] s[k]),
            q.reverse,
        ) by {
            assert(s[k] == rest[k - 1]);
            if j > 0 {
                assert(s[j] == rest[j - 1]);
            } else {
                assert(precedes(here, place(rest[k - 1]), q.reverse));
            }
        }
    }
}

/// A scan of `a + b` entries is a scan of `a` entries, followed, where
/// that one is full, by a scan of `b` entries from its last entry on.
pub proof fn lemma_scan_split(m: StoreModel, q: Bounds, after: Option<Position>, a: nat, b: nat)
    requires
        m.frames.len() <= u64::MAX,
        a > 0,
    ensures
        scan(m, q, after, a + b) == (if scan(m, q, after, a).len() == a {
            scan(m, q, after, a) + scan(m, q, Some(place(scan(m, q, after, a).last())), b)
        } else {
            scan(m, q, after, a)
        }),
    decreases a,
{
    let whole = scan(m, q, after, a + b);
    let first = scan(m, q, after, a);
    if !has_next(m, q, after) {
    } else {
        let i = next_of(m, q, after);
        let here = Some(position(m, i));
        let rest_whole = scan(m, q, here, (a + b - 1) as nat);
        let rest_first = scan(m, q, here, (a - 1) as nat);
        assert(whole == seq![entry_of(m, i)] + rest_whole);
        assert(first == seq![entry_of(m, i)] + rest_first);
        if a == 1 {
            assert(rest_first =~= Seq::<TimelineEntryView>::empty());
            assert(first.last() == entry_of(m, i));
            assert(place(first.last()) == position(m, i));
            assert(whole =~= first + scan(m, q, here, b));
        } else {
            lemma_scan_split(m, q, here, (a - 1) as nat, b);
            lemma_scan_len(m, q, here, (a - 1) as nat);
            if rest_first.len() == a - 1 {
                assert(first.last() == rest_first.last());
                assert(whole =~= first + scan(m, q, Some(place(first.last())), b));
            } else {
                assert(whole =~= first);
            }
        }
    }
}

/// Every entry of a scan is the entry of a frame on the timeline.
pub proof fn lemma_scan_listed(m: StoreModel, q: Bounds, after: Option<Position>, n: nat, k: int)
    requires
        m.frames.len() <= u64::MAX,
        0 <= k < scan(m, q, after, n).len(),
    ensures
        listed(m, q, scan(m, q, after, n)[k].frame_id as int),
        scan(m, q, after, n)[k] == entry_of(m, scan(m, q, after, n)[k].frame_id as int),
    decreases n,
{
    if n == 0 || !has_next(m, q, after) {
    } else {
        let i = next_of(m, q, after);
        assert(is_next(m, q, after, i));
        if k > 0 {
            lemma_scan_listed(m, q, Some(position(m, i)), (n - 1) as nat, k - 1);
        }
    }
}

impl FrameStore {
    /// The first frame on the timeline behind `after`, found by one pass
    /// over the log.
    fn find_next(&self, q: &TimelineQuery, after: Option<Position>) -> (r: Option<usize>)
        requires
            self.wf(),
        ensures
            match r {
                Some(i) => is_next(self@, q.bounds(), after, i as int),
                None => !has_next(self@, q.bounds(), after),
            },
    {
        let n: usize = self.frame_count();
        let mut best: Option<usize> = None;
        let mut i: usize = 0;
        while i < n
            invariant
                i <= n,
                n == self@.frames.len(),
                match best {
                    Some(b) => b < i && candidate(self@, q.bounds(), after, b as int) && forall|j: int|
                        0 <= j < i && #[trigger] candidate(self@, q.bounds(), after, j) ==> !precedes(
                            position(self@, j),
                            position(self@, b as int),
                            q.reverse,
                        ),
                    None => forall|j: int| 0 <= j < i ==> !candidate(self@, q.bounds(), after, j),
                },
            decreases n - i,
        {
            let f: &Frame = self.frame_at(i);
            let in_bounds: bool = (match q.since {
                Some(s) => s <= f.timestamp,
                None => true,
            }) && (match q.until {
                Some(u) => f.timestamp <= u,
                None => true,
            });
            let behind: bool = match after {
                Some(a) => comes_before(a, (f.timestamp, i as u64), q.reverse),
                None => true,
            };
            if f.status == FrameStatus::Active && f.parent_id.is_none() && in_bounds && behind {
                let better: bool = match best {
                    Some(b) => comes_before(
                        (f.timestamp, i as u64),
                        (self.frame_at(b).timestamp, b as u64),
                        q.reverse,
                    ),
                    None => true,
                };
                if better {
                    best = Some(i);
                }
            }
            i = i + 1;
        }
        best
    }

    /// The preview of the frame `f`.
    fn preview(f: &Frame) -> (text: String)
        ensures
            text@ == preview_of(f@.search_text),
    {
        match &f.search_text {
            Some(t) => {
                let s: &str = t.as_str();
                let n: usize = s.unicode_len();
                if n <= PREVIEW_CHARS {
                    t.clone()
                } else {
                    let cut: &str = s.substring_char(0, PREVIEW_CHARS);
                    assert(s@.subrange(0, PREVIEW_CHARS as int) =~= s@.take(PREVIEW_CHARS as int));
                    cut.to_owned()
                }
            },
            None => String::new(),
        }
    }

    /// The timeline entry of the frame at `i`.
    pub(crate) fn entry_at(&self, i: usize) -> (e: TimelineEntry)
        requires
            self.wf(),
            i < self@.frames.len(),
        ensures
            e@ == entry_of(self@, i as int),
    {
        let f: &Frame = self.frame_at(i);
        let mut children: Vec<u64> = Vec::new();
        if f.parent_id.is_none() {
            match f.chunk_count {
                Some(n) => {
                    proof {
                        self.lemma_wf();
                        assert(parent_shape(self@, i as int));
                    }
                    let mut k: u32 = 0;
                    while k < n
                        invariant
                            k <= n,
                            i + n < self@.frames.len(),
                            self@.frames.len() <= usize::MAX,
                            children@ == Seq::new(k as nat, |j: int| (i + 1 + j) as u64),
                        decreases n - k,
                    {
                        children.push((i + 1 + k as usize) as u64);
                        k = k + 1;
                        assert(children@ =~= Seq::new(k as nat, |j: int| (i + 1 + j) as u64));
                    }
                },
                None => {},
            }
        }
        let e = TimelineEntry {
            frame_id: i as u64,
            timestamp: f.timestamp,
            preview: Self::preview(f),
            uri: clone_opt(&f.uri),
            child_frames: children,
        };
        assert(e@.child_frames =~= children_of(self@, i as int));
        e
    }

    /// Scans the timeline: the first `limit` active top-level frames within
    /// the bounds, by timestamp and then by frame id, the oldest first, or
    /// the youngest first where the query is reversed.
    pub fn timeline(&self, query: &TimelineQuery) -> (r: Result<Vec<TimelineEntry>, ErrorKind>)
        requires
            self.wf(),
        ensures
            match timeline_spec(self@, *query) {
                Ok(entries) => r is Ok && entry_views(r->Ok_0@) == entries,
                Err(e) => r == Err::<Vec<TimelineEntry>, ErrorKind>(e),
            },
    {
        if query.limit == 0 {
            return Err(ErrorKind::InvalidRequest);
        }
        let mut out: Vec<TimelineEntry> = Vec::new();
        let mut after: Option<Position> = None;
        let mut count: u64 = 0;
        proof {
            assert(entry_views(out@) =~= Seq::<TimelineEntryView>::empty());
        }
        while count < query.limit
            invariant
                self.wf(),
                count <= query.limit,
                scan(self@, query.bounds(), None, query.limit as nat) == entry_views(out@) + scan(
                    self@,
                    query.bounds(),
                    after,
                    (query.limit - count) as nat,
                ),
            ensures
                scan(self@, query.bounds(), None, query.limit as nat) == entry_views(out@),
            decreases query.limit - count,
        {
            let ghost before = entry_views(out@);
            let ghost rest = scan(self@, query.bounds(), after, (query.limit - count) as nat);
            match self.find_next(query, after) {
                None => {
                    assert(before + rest =~= before);
                    break ;
                },
                Some(i) => {
                    proof {
                        self.lemma_wf();
                        lemma_next_unique(self@, query.bounds(), after, i as int);
                    }
                    let e: TimelineEntry = self.entry_at(i);
                    after = Some((e.timestamp, e.frame_id));
                    out.push(e);
                    count = count + 1;
                    proof {
                        let tail = scan(self@, query.bounds(), after, (query.limit - count) as nat);
                        assert(rest == seq![entry_of(self@, i as int)] + tail);
                        assert(entry_views(out@) =~= before + seq![entry_of(self@, i as int)]);
                        assert(before + rest =~= entry_views(out@) + tail);
                    }
                },
            }
        }
        proof {
            assert(entry_views(out@) + Seq::<TimelineEntryView>::empty() =~= entry_views(out@));
        }
        Ok(out)
    }
}

/// Whether `a` comes strictly before `b` in the direction of the scan.
pub fn comes_before(a: Position, b: Position, reverse: bool) -> (r: bool)
    ensures
        r == precedes(a, b, reverse),
{
    if reverse {
        a.0 > b.0 || (a.0 == b.0 && a.1 > b.1)
    } else {
        a.0 < b.0 || (a.0 == b.0 && a.1 < b.1)
    }
}

} // verus!
