//! Pages of the timeline: bounded scans of the store, filtered behind a
//! cursor, with the scan widened until the page is full.

use crate::cursor::{
    cursor_spec, cursor_text, parse_timeline_cursor, timeline_cursor_from_entry,
    TimelineEntryOutput,
};
use crate::model::StoreModel;
use crate::store::FrameStore;
use crate::text::{clone_opt, opt_text};
use crate::timeline::{
    candidate, comes_before, entry_of, entry_views, has_next, is_next, lemma_next_exists,
    lemma_next_unique, lemma_scan_len, lemma_scan_prefix, lemma_scan_sorted, lemma_scan_split,
    next_of, place, position, precedes, scan, Bounds, Position, TimelineEntry, TimelineEntryView,
    TimelineQuery,
};
use crate::tools::{reports, RequestError};
use vstd::prelude::*;

verus! {

/// The number of entries of a page where the request names none.
pub const DEFAULT_TIMELINE_LIMIT: u64 = 100;

/// The number of entries that one scan reads at most.
pub const MAX_TIMELINE_SCAN: u64 = 2000;

/// A request for a page of the timeline.
#[derive(Clone, Debug)]
pub struct TimelineRequest {
    pub limit: Option<u64>,
    pub since: Option<i64>,
    pub until: Option<i64>,
    pub reverse: Option<bool>,
    pub cursor: Option<String>,
}

/// A page of the timeline.
#[derive(Clone, Debug)]
pub struct TimelineResponse {
    pub entries: Vec<TimelineEntryOutput>,
    /// The cursor of the last entry, where the page is full.
    pub next_cursor: Option<String>,
}

impl View for TimelineEntryOutput {
    type V = TimelineEntryView;

    open spec fn view(&self) -> TimelineEntryView {
        TimelineEntryView {
            frame_id: self.frame_id,
            timestamp: self.timestamp,
            preview: self.preview@,
            uri: opt_text(self.uri),
            child_frames: self.child_frames@,
        }
    }
}

/// The content of each entry of a page.
pub open spec fn output_views(entries: Seq<TimelineEntryOutput>) -> Seq<TimelineEntryView> {
    Seq::new(entries.len(), |i: int| entries[i]@)
}

/// The bounds once the timestamp of the cursor has tightened them: the
/// lower one for a forward scan, the upper one for a reversed scan.
pub open spec fn narrowed(b: Bounds, cursor: Option<Position>) -> Bounds {
    match cursor {
        None => b,
        Some(c) => if b.reverse {
            Bounds {
                until: if b.until is None || b.until->0 > c.0 {
                    Some(c.0)
                } else {
                    b.until
                },
                ..b
            }
        } else {
            Bounds {
                since: if b.since is None || b.since->0 < c.0 {
                    Some(c.0)
                } else {
                    b.since
                },
                ..b
            }
        },
    }
}

/// The entry lies strictly behind the cursor, or there is no cursor.
pub open spec fn passes(e: TimelineEntryView, cursor: Option<Position>, reverse: bool) -> bool {
    cursor is Some ==> precedes(cursor->0, (e.timestamp, e.frame_id), reverse)
}

/// The entries that lie strictly behind the cursor, in their order.
pub open spec fn behind(
    entries: Seq<TimelineEntryView>,
    cursor: Option<Position>,
    reverse: bool,
) -> Seq<TimelineEntryView>
    decreases entries.len(),
{
    if entries.len() == 0 {
        Seq::empty()
    } else if passes(entries.last(), cursor, reverse) {
        behind(entries.drop_last(), cursor, reverse).push(entries.last())
    } else {
        behind(entries.drop_last(), cursor, reverse)
    }
}

/// The first `n` of the entries, or all of them where there are fewer.
pub open spec fn first_n(entries: Seq<TimelineEntryView>, n: nat) -> Seq<TimelineEntryView> {
    if entries.len() <= n {
        entries
    } else {
        entries.take(n as int)
    }
}

/// The entries of a page: of the first `MAX_TIMELINE_SCAN` entries of the
/// timeline within the narrowed bounds, the first `limit` that lie strictly
/// behind the cursor.
pub open spec fn page_entries(m: StoreModel, b: Bounds, cursor: Option<Position>, limit: u64)
    -> Seq<TimelineEntryView> {
    first_n(
        behind(scan(m, narrowed(b, cursor), None, MAX_TIMELINE_SCAN as nat), cursor, b.reverse),
        limit as nat,
    )
}

/// The cursor that a page hands on: that of its last entry where the page
/// is full, none where it is not.
pub open spec fn page_cursor(entries: Seq<TimelineEntryView>, limit: u64) -> Option<Seq<char>> {
    if entries.len() == limit && limit > 0 {
        Some(cursor_text(entries.last().timestamp, entries.last().frame_id))
    } else {
        None
    }
}

impl TimelineRequest {
    /// The limit of the request, or the default.
    pub open spec fn limit_view(self) -> u64 {
        match self.limit {
            Some(l) => l,
            None => DEFAULT_TIMELINE_LIMIT,
        }
    }

    /// The bounds and the direction of the request.
    pub open spec fn bounds(self) -> Bounds {
        Bounds {
            since: self.since,
            until: self.until,
            reverse: match self.reverse {
                Some(r) => r,
                None => false,
            },
        }
    }
}

/// What a request for a page returns: a zero limit and a malformed cursor
/// are refused, the limit first; else the entries of the page and the
/// cursor it hands on.
pub open spec fn timeline_request_spec(m: StoreModel, request: TimelineRequest) -> Result<
    (Seq<TimelineEntryView>, Option<Seq<char>>),
    RequestError,
> {
    if request.limit_view() == 0 {
        Err(RequestError::ZeroLimit)
    } else {
        let cursor: Result<Option<Position>, RequestError> = match request.cursor {
            None => Ok(None),
            Some(c) => match cursor_spec(c@) {
                Ok(p) => Ok(Some(p)),
                Err(e) => Err(RequestError::Cursor(e)),
            },
        };
        match cursor {
            Err(e) => Err(e),
            Ok(c) => {
                let entries = page_entries(m, request.bounds(), c, request.limit_view());
                Ok((entries, page_cursor(entries, request.limit_view())))
            },
        }
    }
}

/// Of a list and its beginning, what lies behind the cursor in the
/// beginning is the beginning of what lies behind it in the list.
pub proof fn lemma_behind_prefix(
    entries: Seq<TimelineEntryView>,
    k: int,
    cursor: Option<Position>,
    reverse: bool,
)
    requires
        0 <= k <= entries.len(),
    ensures
        behind(entries.take(k), cursor, reverse).len() <= behind(entries, cursor, reverse).len(),
        behind(entries, cursor, reverse).take(
            behind(entries.take(k), cursor, reverse).len() as int,
        ) == behind(entries.take(k), cursor, reverse),
    decreases entries.len(),
{
    let whole = behind(entries, cursor, reverse);
    if k == entries.len() {
        assert(entries.take(k) =~= entries);
        assert(whole.take(whole.len() as int) =~= whole);
    } else {
        let shorter = entries.drop_last();
        assert(shorter.take(k) =~= entries.take(k));
        lemma_behind_prefix(shorter, k, cursor, reverse);
        let part = behind(entries.take(k), cursor, reverse);
        let inner = behind(shorter, cursor, reverse);
        assert(whole.take(part.len() as int) =~= inner.take(part.len() as int));
    }
}

/// A scan may stop widening as soon as it has filled the page, has run
/// out of entries, or has reached the most that one scan reads: the page
/// is then what the widest scan would give.
pub proof fn lemma_page_stop(
    m: StoreModel,
    b: Bounds,
    cursor: Option<Position>,
    fetch: u64,
    limit: u64,
)
    requires
        fetch <= MAX_TIMELINE_SCAN,
        behind(scan(m, b, None, fetch as nat), cursor, b.reverse).len() >= limit || scan(
            m,
            b,
            None,
            fetch as nat,
        ).len() < fetch || fetch >= MAX_TIMELINE_SCAN,
    ensures
        first_n(behind(scan(m, b, None, fetch as nat), cursor, b.reverse), limit as nat)
            == first_n(
            behind(scan(m, b, None, MAX_TIMELINE_SCAN as nat), cursor, b.reverse),
            limit as nat,
        ),
{
    let narrow = scan(m, b, None, fetch as nat);
    let wide = scan(m, b, None, MAX_TIMELINE_SCAN as nat);
    lemma_scan_prefix(m, b, None, fetch as nat, MAX_TIMELINE_SCAN as nat);
    if fetch < MAX_TIMELINE_SCAN && narrow.len() >= fetch {
        let part = behind(narrow, cursor, b.reverse);
        let whole = behind(wide, cursor, b.reverse);
        lemma_behind_prefix(wide, narrow.len() as int, cursor, b.reverse);
        assert(whole.take(part.len() as int) == part);
        assert(first_n(part, limit as nat) =~= first_n(whole, limit as nat));
    }
}

/// What lies behind the cursor in two lists, one after the other, is what
/// lies behind it in the first, then what lies behind it in the second.
pub proof fn lemma_behind_add(
    a: Seq<TimelineEntryView>,
    b: Seq<TimelineEntryView>,
    cursor: Option<Position>,
    reverse: bool,
)
    ensures
        behind(a + b, cursor, reverse) == behind(a, cursor, reverse) + behind(b, cursor, reverse),
    decreases b.len(),
{
    if b.len() == 0 {
        assert(a + b =~= a);
        assert(behind(a, cursor, reverse) + behind(b, cursor, reverse) =~= behind(
            a,
            cursor,
            reverse,
        ));
    } else {
        assert((a + b).drop_last() =~= a + b.drop_last());
        assert((a + b).last() == b.last());
        lemma_behind_add(a, b.drop_last(), cursor, reverse);
        let left = behind(a, cursor, reverse);
        let inner = behind(b.drop_last(), cursor, reverse);
        if passes(b.last(), cursor, reverse) {
            assert((left + inner).push(b.last()) =~= left + inner.push(b.last()));
        }
    }
}

/// Where every entry lies behind the cursor, all of them do.
pub proof fn lemma_behind_all(
    entries: Seq<TimelineEntryView>,
    cursor: Option<Position>,
    reverse: bool,
)
    requires
        forall|k: int| 0 <= k < entries.len() ==> passes(#[trigger] entries[k], cursor, reverse),
    ensures
        behind(entries, cursor, reverse) == entries,
    decreases entries.len(),
{
    if entries.len() > 0 {
        assert forall|k: int| 0 <= k < entries.drop_last().len() implies passes(
            #[trigger] entries.drop_last()[k],
            cursor,
            reverse,
        ) by {
            assert(entries.drop_last()[k] == entries[k]);
        }
        lemma_behind_all(entries.drop_last(), cursor, reverse);
        assert(passes(entries[entries.len() - 1], cursor, reverse));
        assert(entries.drop_last().push(entries.last()) =~= entries);
    }
}

/// Behind a place that is the cursor's or lies behind it, the narrowed
/// bounds hold the same entries as the bounds of the request.
pub proof fn lemma_scan_narrowed(m: StoreModel, b: Bounds, c: Position, from: Position, n: nat)
    requires
        m.frames.len() <= u64::MAX,
        !precedes(from, c, b.reverse),
    ensures
        scan(m, narrowed(b, Some(c)), Some(from), n) == scan(m, b, Some(from), n),
    decreases n,
{
    let nb = narrowed(b, Some(c));
    assert forall|i: int| candidate(m, nb, Some(from), i) == candidate(m, b, Some(from), i) by {}
    if n > 0 {
        if has_next(m, b, Some(from)) {
            let i = next_of(m, b, Some(from));
            assert(is_next(m, b, Some(from), i));
            assert(is_next(m, nb, Some(from), i)) by {
                assert forall|j: int| #[trigger] candidate(m, nb, Some(from), j) implies !precedes(
                    position(m, j),
                    position(m, i),
                    nb.reverse,
                ) by {
                    assert(candidate(m, b, Some(from), j));
                }
            }
            lemma_next_unique(m, nb, Some(from), i);
            lemma_scan_narrowed(m, b, c, position(m, i), (n - 1) as nat);
        } else if has_next(m, nb, Some(from)) {
            let i = next_of(m, nb, Some(from));
            assert(is_next(m, nb, Some(from), i));
            assert(candidate(m, b, Some(from), i));
            lemma_next_exists(m, b, Some(from), i);
        }
    }
}

/// The number of frames below `k` that are on the timeline behind `after`
/// without lying behind the cursor `c`.
pub open spec fn crowd_below(
    m: StoreModel,
    q: Bounds,
    after: Option<Position>,
    c: Position,
    k: int,
) -> nat
    decreases k,
{
    if k <= 0 {
        0
    } else {
        crowd_below(m, q, after, c, k - 1) + if candidate(m, q, after, k - 1) && !precedes(
            c,
            position(m, k - 1),
            q.reverse,
        ) {
            1nat
        } else {
            0nat
        }
    }
}

/// The number of frames that a scan behind the cursor `c` reads without
/// use: those on the timeline within the narrowed bounds that do not lie
/// behind the cursor. They share the cursor's timestamp.
pub open spec fn crowd(m: StoreModel, b: Bounds, c: Position) -> nat {
    crowd_below(m, narrowed(b, Some(c)), None, c, m.frames.len() as int)
}

/// The frames that crowd behind the first of them are fewer by one.
pub proof fn lemma_crowd_step(
    m: StoreModel,
    q: Bounds,
    after: Option<Position>,
    c: Position,
    j: int,
    k: int,
)
    requires
        m.frames.len() <= u64::MAX,
        candidate(m, q, after, j),
        !precedes(c, position(m, j), q.reverse),
        0 <= k <= m.frames.len(),
    ensures
        crowd_below(m, q, Some(position(m, j)), c, k) + (if j < k {
            1nat
        } else {
            0nat
        }) <= crowd_below(m, q, after, c, k),
    decreases k,
{
    if k > 0 {
        lemma_crowd_step(m, q, after, c, j, k - 1);
        if candidate(m, q, Some(position(m, j)), k - 1) {
            assert(candidate(m, q, after, k - 1));
            assert(k - 1 != j);
        }
    }
}

/// Of a scan within the narrowed bounds, what lies behind the cursor is a
/// scan behind the cursor within the bounds of the request, shorter by
/// the entries that were read without use.
pub proof fn lemma_page_core(
    m: StoreModel,
    b: Bounds,
    c: Position,
    after: Option<Position>,
    n: nat,
)
    requires
        m.frames.len() <= u64::MAX,
        after is Some ==> !precedes(c, after->0, b.reverse),
    ensures
        ({
            let nb = narrowed(b, Some(c));
            let s = scan(m, nb, after, n);
            let kept = behind(s, Some(c), b.reverse);
            let lost = s.len() - kept.len();
            &&& 0 <= lost <= n
            &&& lost <= crowd_below(m, nb, after, c, m.frames.len() as int)
            &&& kept == scan(m, b, Some(c), (n - lost) as nat)
        }),
    decreases n,
{
    let nb = narrowed(b, Some(c));
    let s = scan(m, nb, after, n);
    let kept = behind(s, Some(c), b.reverse);
    if n == 0 {
    } else if !has_next(m, nb, after) {
        if has_next(m, b, Some(c)) {
            let i = next_of(m, b, Some(c));
            assert(is_next(m, b, Some(c), i));
            assert(candidate(m, nb, after, i));
            lemma_next_exists(m, nb, after, i);
        }
    } else {
        let j = next_of(m, nb, after);
        assert(is_next(m, nb, after, j));
        let here = position(m, j);
        let first = seq![entry_of(m, j)];
        let rest = scan(m, nb, Some(here), (n - 1) as nat);
        assert(s == first + rest);
        lemma_scan_len(m, nb, Some(here), (n - 1) as nat);
        if precedes(c, here, b.reverse) {
            lemma_scan_sorted(m, nb, Some(here), (n - 1) as nat);
            assert forall|k: int| 0 <= k < s.len() implies passes(
                #[trigger] s[k],
                Some(c),
                b.reverse,
            ) by {
                if k > 0 {
                    assert(s[k] == rest[k - 1]);
                    assert(precedes(here, place(rest[k - 1]), nb.reverse));
                } else {
                    assert(place(s[0]) == here);
                }
            }
            lemma_behind_all(s, Some(c), b.reverse);
            assert(is_next(m, b, Some(c), j)) by {
                assert forall|i: int| #[trigger] candidate(m, b, Some(c), i) implies !precedes(
                    position(m, i),
                    position(m, j),
                    b.reverse,
                ) by {
                    assert(candidate(m, nb, after, i));
                }
            }
            lemma_next_unique(m, b, Some(c), j);
            lemma_scan_narrowed(m, b, c, here, (n - 1) as nat);
        } else {
            lemma_page_core(m, b, c, Some(here), (n - 1) as nat);
            lemma_behind_add(first, rest, Some(c), b.reverse);
            assert(behind(first, Some(c), b.reverse) =~= Seq::<TimelineEntryView>::empty()) by {
                reveal_with_fuel(behind, 2);
                assert(first.drop_last() =~= Seq::<TimelineEntryView>::empty());
                assert(place(first.last()) == here);
            }
            assert(kept =~= behind(rest, Some(c), b.reverse));
            lemma_crowd_step(m, nb, after, c, j, m.frames.len() as int);
        }
    }
}

/// The first entries of a longer scan are the shorter scan.
pub proof fn lemma_first_of_scan(
    m: StoreModel,
    q: Bounds,
    after: Option<Position>,
    a: nat,
    b: nat,
)
    requires
        a <= b,
    ensures
        first_n(scan(m, q, after, b), a) == scan(m, q, after, a),
{
    lemma_scan_prefix(m, q, after, a, b);
    lemma_scan_len(m, q, after, a);
    let long = scan(m, q, after, b);
    let short = scan(m, q, after, a);
    if long.len() <= a {
        if short.len() == a {
            assert(long.take(a as int) =~= long);
        }
    }
}

/// A page is exact: where the scan is wide enough for the limit and for
/// the frames that crowd at the cursor, the page holds the first `limit`
/// entries of the timeline behind the cursor.
pub proof fn lemma_page_exact(m: StoreModel, b: Bounds, cursor: Option<Position>, limit: u64)
    requires
        m.frames.len() <= u64::MAX,
        match cursor {
            Some(c) => crowd(m, b, c) + limit <= MAX_TIMELINE_SCAN,
            None => limit <= MAX_TIMELINE_SCAN,
        },
    ensures
        page_entries(m, b, cursor, limit) == scan(m, b, cursor, limit as nat),
{
    let wide = scan(m, narrowed(b, cursor), None, MAX_TIMELINE_SCAN as nat);
    match cursor {
        None => {
            lemma_behind_all(wide, None, b.reverse);
            lemma_first_of_scan(m, b, None, limit as nat, MAX_TIMELINE_SCAN as nat);
        },
        Some(c) => {
            lemma_page_core(m, b, c, None, MAX_TIMELINE_SCAN as nat);
            let kept = behind(wide, cursor, b.reverse);
            let lost = wide.len() - kept.len();
            lemma_first_of_scan(
                m,
                b,
                cursor,
                limit as nat,
                (MAX_TIMELINE_SCAN - lost) as nat,
            );
        },
    }
}

/// The entries that a caller reads who follows the cursors from page to
/// page: those of `pages` pages at most, from `cursor` on.
pub open spec fn walk(
    m: StoreModel,
    b: Bounds,
    limit: u64,
    cursor: Option<Position>,
    pages: nat,
) -> Seq<TimelineEntryView>
    decreases pages,
{
    if pages == 0 {
        Seq::empty()
    } else {
        let page = page_entries(m, b, cursor, limit);
        if page_cursor(page, limit) is Some {
            page + walk(m, b, limit, Some(place(page.last())), (pages - 1) as nat)
        } else {
            page
        }
    }
}

/// Pagination: the pages that a caller reads by following the cursors,
/// one after the other, are the beginning of one unbounded scan of the
/// timeline, with no entry twice and none left out, as long as no more
/// frames crowd at one timestamp than a scan can read beside a page.
pub proof fn lemma_pagination(
    m: StoreModel,
    b: Bounds,
    limit: u64,
    cursor: Option<Position>,
    pages: nat,
)
    requires
        m.frames.len() <= u64::MAX,
        limit > 0,
        limit <= MAX_TIMELINE_SCAN,
        forall|c: Position| #[trigger] crowd(m, b, c) + limit <= MAX_TIMELINE_SCAN,
    ensures
        walk(m, b, limit, cursor, pages) == scan(m, b, cursor, pages * (limit as nat)),
    decreases pages,
{
    if pages > 0 {
        let page = page_entries(m, b, cursor, limit);
        if cursor is Some {
            assert(crowd(m, b, cursor->0) + limit <= MAX_TIMELINE_SCAN);
        }
        lemma_page_exact(m, b, cursor, limit);
        let one: nat = limit as nat;
        let fewer: nat = (pages - 1) as nat;
        let rest: nat = fewer * one;
        assert(pages * one == one + rest) by (nonlinear_arith)
            requires
                pages > 0,
                fewer == pages - 1,
                rest == fewer * one,
        ;
        lemma_scan_split(m, b, cursor, one, rest);
        lemma_scan_len(m, b, cursor, one);
        assert(page == scan(m, b, cursor, one));
        if page_cursor(page, limit) is Some {
            lemma_pagination(m, b, limit, Some(place(page.last())), fewer);
            assert(walk(m, b, limit, cursor, pages) == page + scan(
                m,
                b,
                Some(place(page.last())),
                rest,
            ));
        } else {
            assert(walk(m, b, limit, cursor, pages) == page);
        }
        assert(scan(m, b, cursor, pages * one) == scan(m, b, cursor, one + rest));
    } else {
        assert(pages * (limit as nat) == 0) by (nonlinear_arith)
            requires
                pages == 0,
        ;
    }
}

/// The entries that lie strictly behind the cursor, as a page carries them.
fn entries_behind(entries: &Vec<TimelineEntry>, cursor: Option<Position>, reverse: bool) -> (out:
    Vec<TimelineEntryOutput>)
    ensures
        output_views(out@) == behind(entry_views(entries@), cursor, reverse),
{
    let mut out: Vec<TimelineEntryOutput> = Vec::new();
    let mut i: usize = 0;
    proof {
        assert(entry_views(entries@).take(0) =~= Seq::<TimelineEntryView>::empty());
        assert(output_views(out@) =~= Seq::<TimelineEntryView>::empty());
    }
    while i < entries.len()
        invariant
            i <= entries.len(),
            output_views(out@) == behind(entry_views(entries@).take(i as int), cursor, reverse),
        decreases entries.len() - i,
    {
        let entry: &TimelineEntry = &entries[i];
        let ghost before = output_views(out@);
        proof {
            let next = entry_views(entries@).take(i + 1);
            assert(next.drop_last() =~= entry_views(entries@).take(i as int));
            assert(next.last() == entry@);
        }
        let keep: bool = match cursor {
            None => true,
            Some(c) => comes_before(c, (entry.timestamp, entry.frame_id), reverse),
        };
        if keep {
            out.push(
                TimelineEntryOutput {
                    frame_id: entry.frame_id,
                    timestamp: entry.timestamp,
                    preview: entry.preview.clone(),
                    uri: clone_opt(&entry.uri),
                    child_frames: entry.child_frames.clone(),
                },
            );
            assert(output_views(out@) =~= before.push(entry@));
        }
        i = i + 1;
    }
    proof {
        assert(entry_views(entries@).take(entries.len() as int) =~= entry_views(entries@));
    }
    out
}

/// Reads one page of the timeline of `store`.
///
/// The scan starts at the smaller of the limit and `MAX_TIMELINE_SCAN`
/// entries and doubles, up to `MAX_TIMELINE_SCAN`, until enough entries lie
/// behind the cursor or the timeline is exhausted.
pub fn memvid_timeline(store: &FrameStore, request: &TimelineRequest) -> (r: Result<
    TimelineResponse,
    String,
>)
    requires
        store.wf(),
    ensures
        match timeline_request_spec(store@, *request) {
            Ok(page) => {
                &&& r is Ok
                &&& output_views(r->Ok_0.entries@) == page.0
                &&& opt_text(r->Ok_0.next_cursor) == page.1
            },
            Err(e) => r is Err && reports(r->Err_0@, e),
        },
{
    let limit: u64 = match request.limit {
        Some(l) => l,
        None => DEFAULT_TIMELINE_LIMIT,
    };
    if limit == 0 {
        return Err("limit must be greater than 0".to_string());
    }
    let reverse: bool = match request.reverse {
        Some(r) => r,
        None => false,
    };
    let cursor: Option<Position> = match &request.cursor {
        None => None,
        Some(text) => match parse_timeline_cursor(text.as_str()) {
            Ok(p) => Some(p),
            Err(e) => {
                return Err(e);
            },
        },
    };
    let mut since: Option<i64> = request.since;
    let mut until: Option<i64> = request.until;
    if let Some(c) = cursor {
        if reverse {
            let tighter: bool = match until {
                Some(value) => value > c.0,
                None => true,
            };
            if tighter {
                until = Some(c.0);
            }
        } else {
            let tighter: bool = match since {
                Some(value) => value < c.0,
                None => true,
            };
            if tighter {
                since = Some(c.0);
            }
        }
    }
    let ghost nb = narrowed(request.bounds(), cursor);
    assert(nb == Bounds { since, until, reverse });
    let mut fetch_limit: u64 = if limit < MAX_TIMELINE_SCAN {
        limit
    } else {
        MAX_TIMELINE_SCAN
    };
    loop
        invariant
            store.wf(),
            limit > 0,
            1 <= fetch_limit <= MAX_TIMELINE_SCAN,
            nb == narrowed(request.bounds(), cursor),
            nb == (Bounds { since, until, reverse }),
            request.bounds().reverse == reverse,
            limit == request.limit_view(),
            timeline_request_spec(store@, *request) is Ok,
            timeline_request_spec(store@, *request)->Ok_0.0 == page_entries(
                store@,
                request.bounds(),
                cursor,
                limit,
            ),
        decreases MAX_TIMELINE_SCAN - fetch_limit,
    {
        let query = TimelineQuery { limit: fetch_limit, since, until, reverse };
        assert(query.bounds() == nb);
        let entries: Vec<TimelineEntry> = match store.timeline(&query) {
            Ok(entries) => entries,
            Err(kind) => {
                return Err(crate::error::describe(kind).to_string());
            },
        };
        let entries_len: usize = entries.len();
        let mut outputs: Vec<TimelineEntryOutput> = entries_behind(&entries, cursor, reverse);
        if outputs.len() as u64 >= limit || (entries_len as u64) < fetch_limit || fetch_limit
            >= MAX_TIMELINE_SCAN {
            proof {
                lemma_page_stop(store@, nb, cursor, fetch_limit, limit);
            }
            let ghost all = output_views(outputs@);
            if outputs.len() as u64 > limit {
                outputs.truncate(limit as usize);
                assert(output_views(outputs@) =~= all.take(limit as int));
            }
            assert(output_views(outputs@) == first_n(all, limit as nat));
            let next_cursor: Option<String> = if outputs.len() as u64 == limit {
                Some(timeline_cursor_from_entry(&outputs[outputs.len() - 1]))
            } else {
                None
            };
            return Ok(TimelineResponse { entries: outputs, next_cursor });
        }
        fetch_limit = if fetch_limit > MAX_TIMELINE_SCAN / 2 {
            MAX_TIMELINE_SCAN
        } else {
            fetch_limit * 2
        };
    }
}

} // verus!
