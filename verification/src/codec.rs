//! The byte layer of the container: a file is a run of cells, each a
//! number or a run of bytes, written with a tag and a length so that it can
//! be read back without knowing what it means.

use vstd::prelude::*;

verus! {

/// One cell of a container.
#[derive(Clone, Debug)]
pub enum Cell {
    /// A number.
    Num(u64),
    /// A run of bytes.
    Bytes(Vec<u8>),
}

/// The mathematical content of a [`Cell`].
pub enum CellView {
    Num(u64),
    Bytes(Seq<u8>),
}

impl View for Cell {
    type V = CellView;

    open spec fn view(&self) -> CellView {
        match self {
            Cell::Num(v) => CellView::Num(*v),
            Cell::Bytes(b) => CellView::Bytes(b@),
        }
    }
}

/// The content of each cell of a list.
pub open spec fn cell_views(cells: Seq<Cell>) -> Seq<CellView> {
    Seq::new(cells.len(), |i: int| cells[i]@)
}

/// The tag of a number cell.
pub const TAG_NUM: u8 = 0;

/// The tag of a bytes cell.
pub const TAG_BYTES: u8 = 1;

/// The eight bytes of a number, the least significant first.
#[verifier::opaque]
pub open spec fn le_bytes(v: u64) -> Seq<u8> {
    seq![
        (v % 256) as u8,
        (v / 0x100 % 256) as u8,
        (v / 0x1_0000 % 256) as u8,
        (v / 0x100_0000 % 256) as u8,
        (v / 0x1_0000_0000 % 256) as u8,
        (v / 0x100_0000_0000 % 256) as u8,
        (v / 0x1_0000_0000_0000 % 256) as u8,
        (v / 0x100_0000_0000_0000) as u8,
    ]
}

/// The number that the eight bytes at `at` spell, the least significant
/// first.
#[verifier::opaque]
pub open spec fn le_value(s: Seq<u8>, at: int) -> u64 {
    (s[at] as int + s[at + 1] as int * 0x100 + s[at + 2] as int * 0x1_0000 + s[at + 3] as int
        * 0x100_0000 + s[at + 4] as int * 0x1_0000_0000 + s[at + 5] as int * 0x100_0000_0000 + s[at
        + 6] as int * 0x1_0000_0000_0000 + s[at + 7] as int * 0x100_0000_0000_0000) as u64
}

/// The bytes of a cell: its tag, then the number, or the length of the
/// run and the run itself.
pub open spec fn cell_bytes(c: CellView) -> Seq<u8> {
    match c {
        CellView::Num(v) => seq![TAG_NUM] + le_bytes(v),
        CellView::Bytes(b) => seq![TAG_BYTES] + le_bytes(b.len() as u64) + b,
    }
}

/// The bytes of a run of cells, one after the other.
pub open spec fn cells_bytes(cells: Seq<CellView>) -> Seq<u8>
    decreases cells.len(),
{
    if cells.len() == 0 {
        Seq::empty()
    } else {
        cells_bytes(cells.drop_last()) + cell_bytes(cells.last())
    }
}

/// The cell that starts at `at`, and where it ends; nothing where no
/// whole cell starts there.
pub open spec fn cell_at(s: Seq<u8>, at: int) -> Option<(CellView, int)> {
    if at < 0 || at + 9 > s.len() {
        None
    } else if s[at] == TAG_NUM {
        Some((CellView::Num(le_value(s, at + 1)), at + 9))
    } else if s[at] == TAG_BYTES && at + 9 + le_value(s, at + 1) <= s.len() {
        Some(
            (
                CellView::Bytes(s.subrange(at + 9, at + 9 + le_value(s, at + 1))),
                at + 9 + le_value(s, at + 1),
            ),
        )
    } else {
        None
    }
}

/// The cells that the bytes from `at` on spell; nothing where they do not
/// end with a whole cell.
pub open spec fn cells_from(s: Seq<u8>, at: int) -> Option<Seq<CellView>>
    decreases s.len() - at,
{
    if at >= s.len() {
        if at == s.len() {
            Some(Seq::empty())
        } else {
            None
        }
    } else {
        match cell_at(s, at) {
            None => None,
            Some((cell, next)) => if next <= at {
                None
            } else {
                match cells_from(s, next) {
                    None => None,
                    Some(rest) => Some(seq![cell] + rest),
                }
            },
        }
    }
}

/// Every run of bytes of the cells is short enough for its length to be
/// written.
pub open spec fn writable(cells: Seq<CellView>) -> bool {
    forall|i: int|
        0 <= i < cells.len() ==> ((#[trigger] cells[i]) matches CellView::Bytes(b) ==> b.len()
            <= u64::MAX)
}

/// The eight bytes of a number spell the number.
pub proof fn lemma_le_round_trip(v: u64, s: Seq<u8>, at: int)
    requires
        0 <= at,
        at + 8 <= s.len(),
        s.subrange(at, at + 8) == le_bytes(v),
    ensures
        le_value(s, at) == v,
{
    reveal(le_bytes);
    reveal(le_value);
    let b = le_bytes(v);
    assert forall|k: int| 0 <= k < 8 implies s[at + k] == b[k] by {
        assert(s.subrange(at, at + 8)[k] == s[at + k]);
    }
    assert(s[at] == b[0] && s[at + 1] == b[1] && s[at + 2] == b[2] && s[at + 3] == b[3]);
    assert(s[at + 4] == b[4] && s[at + 5] == b[5] && s[at + 6] == b[6] && s[at + 7] == b[7]);
    assert(v == (v % 256) + (v / 0x100 % 256) * 0x100 + (v / 0x1_0000 % 256) * 0x1_0000 + (v
        / 0x100_0000 % 256) * 0x100_0000 + (v / 0x1_0000_0000 % 256) * 0x1_0000_0000 + (v
        / 0x100_0000_0000 % 256) * 0x100_0000_0000 + (v / 0x1_0000_0000_0000 % 256)
        * 0x1_0000_0000_0000 + (v / 0x100_0000_0000_0000) * 0x100_0000_0000_0000) by (bit_vector);
}

/// A number is written in eight bytes.
pub proof fn lemma_le_len(v: u64)
    ensures
        le_bytes(v).len() == 8,
{
    reveal(le_bytes);
}

/// A cell that is written at a place is read back there.
pub proof fn lemma_cell_read(whole: Seq<u8>, at: int, c: CellView)
    requires
        0 <= at,
        at + cell_bytes(c).len() <= whole.len(),
        whole.subrange(at, at + cell_bytes(c).len()) == cell_bytes(c),
        c matches CellView::Bytes(b) ==> b.len() <= u64::MAX,
    ensures
        cell_at(whole, at) == Some((c, at + cell_bytes(c).len())),
{
    let written = cell_bytes(c);
    assert forall|i: int| 0 <= i < written.len() implies whole[at + i] == written[i] by {
        assert(whole.subrange(at, at + written.len())[i] == whole[at + i]);
    }
    match c {
        CellView::Num(v) => {
            lemma_le_len(v);
            assert(written[0] == TAG_NUM);
            assert(whole.subrange(at + 1, at + 9) =~= le_bytes(v)) by {
                assert forall|i: int| 0 <= i < 8 implies whole[at + 1 + i] == le_bytes(v)[i] by {
                    assert(written[1 + i] == le_bytes(v)[i]);
                }
            }
            lemma_le_round_trip(v, whole, at + 1);
        },
        CellView::Bytes(b) => {
            let n = b.len() as u64;
            lemma_le_len(n);
            assert(written[0] == TAG_BYTES);
            assert(whole.subrange(at + 1, at + 9) =~= le_bytes(n)) by {
                assert forall|i: int| 0 <= i < 8 implies whole[at + 1 + i] == le_bytes(n)[i] by {
                    assert(written[1 + i] == le_bytes(n)[i]);
                }
            }
            lemma_le_round_trip(n, whole, at + 1);
            assert(whole.subrange(at + 9, at + 9 + n) =~= b) by {
                assert forall|i: int| 0 <= i < b.len() implies whole[at + 9 + i] == b[i] by {
                    assert(written[9 + i] == b[i]);
                }
            }
        },
    }
}

/// A cell is written in nine bytes at least.
pub proof fn lemma_cell_len(c: CellView)
    ensures
        cell_bytes(c).len() >= 9,
{
    match c {
        CellView::Num(v) => lemma_le_len(v),
        CellView::Bytes(b) => lemma_le_len(b.len() as u64),
    }
}

/// The first cells of a list are written where the whole list begins.
pub proof fn lemma_cells_prefix(cells: Seq<CellView>, k: int)
    requires
        0 <= k <= cells.len(),
    ensures
        cells_bytes(cells.take(k)).len() <= cells_bytes(cells).len(),
        cells_bytes(cells).subrange(0, cells_bytes(cells.take(k)).len() as int) == cells_bytes(
            cells.take(k),
        ),
    decreases cells.len(),
{
    let whole = cells_bytes(cells);
    if k == cells.len() {
        assert(cells.take(k) =~= cells);
        assert(whole.subrange(0, whole.len() as int) =~= whole);
    } else {
        lemma_cells_prefix(cells.drop_last(), k);
        assert(cells.drop_last().take(k) =~= cells.take(k));
        let part = cells_bytes(cells.take(k));
        let inner = cells_bytes(cells.drop_last());
        assert(whole.subrange(0, part.len() as int) =~= inner.subrange(0, part.len() as int));
    }
}

/// The cell `k` of a list is written behind the cells before it.
pub proof fn lemma_cell_place(cells: Seq<CellView>, k: int)
    requires
        0 <= k < cells.len(),
    ensures
        cells_bytes(cells.take(k)).len() + cell_bytes(cells[k]).len() == cells_bytes(
            cells.take(k + 1),
        ).len(),
        cells_bytes(cells.take(k + 1)).len() <= cells_bytes(cells).len(),
        cells_bytes(cells).subrange(
            cells_bytes(cells.take(k)).len() as int,
            cells_bytes(cells.take(k + 1)).len() as int,
        ) == cell_bytes(cells[k]),
{
    let whole = cells_bytes(cells);
    let upto = cells.take(k + 1);
    lemma_cells_prefix(cells, k + 1);
    assert(upto.drop_last() =~= cells.take(k));
    assert(upto.last() == cells[k]);
    let before = cells_bytes(cells.take(k));
    let after = cells_bytes(upto);
    assert(after == before + cell_bytes(cells[k]));
    assert(whole.subrange(before.len() as int, after.len() as int) =~= cell_bytes(cells[k])) by {
        assert(whole.subrange(0, after.len() as int) == after);
        assert forall|i: int| 0 <= i < cell_bytes(cells[k]).len() implies whole[before.len() + i]
            == cell_bytes(cells[k])[i] by {
            assert(whole.subrange(0, after.len() as int)[before.len() + i] == after[before.len()
                + i]);
        }
    }
}

/// Round trip of the byte layer: the bytes of a list of cells spell the
/// cells from `k` on where those bytes begin.
pub proof fn lemma_cells_round_trip(cells: Seq<CellView>, k: int)
    requires
        writable(cells),
        0 <= k <= cells.len(),
    ensures
        cells_from(cells_bytes(cells), cells_bytes(cells.take(k)).len() as int) == Some(
            cells.skip(k),
        ),
    decreases cells.len() - k,
{
    let whole = cells_bytes(cells);
    let at = cells_bytes(cells.take(k)).len() as int;
    lemma_cells_prefix(cells, k);
    if k == cells.len() {
        assert(cells.take(k) =~= cells);
        assert(cells.skip(k) =~= Seq::<CellView>::empty());
    } else {
        lemma_cell_place(cells, k);
        lemma_cells_round_trip(cells, k + 1);
        let next = cells_bytes(cells.take(k + 1)).len() as int;
        lemma_cell_read(whole, at, cells[k]);
        assert(cell_at(whole, at) == Some((cells[k], next)));
        lemma_cell_len(cells[k]);
        assert(seq![cells[k]] + cells.skip(k + 1) =~= cells.skip(k));
    }
}

/// Appends the eight bytes of a number.
pub fn push_le(out: &mut Vec<u8>, v: u64)
    ensures
        final(out)@ == old(out)@ + le_bytes(v),
{
    out.push((v % 256) as u8);
    out.push((v / 0x100 % 256) as u8);
    out.push((v / 0x1_0000 % 256) as u8);
    out.push((v / 0x100_0000 % 256) as u8);
    out.push((v / 0x1_0000_0000 % 256) as u8);
    out.push((v / 0x100_0000_0000 % 256) as u8);
    out.push((v / 0x1_0000_0000_0000 % 256) as u8);
    out.push((v / 0x100_0000_0000_0000) as u8);
    proof {
        reveal(le_bytes);
    }
    assert(out@ =~= old(out)@ + le_bytes(v));
}

/// Reads the number that the eight bytes at `at` spell.
pub fn read_le(bytes: &[u8], at: usize) -> (v: u64)
    requires
        at + 8 <= bytes@.len(),
    ensures
        v == le_value(bytes@, at as int),
{
    proof {
        reveal(le_value);
    }
    bytes[at] as u64 + bytes[at + 1] as u64 * 0x100 + bytes[at + 2] as u64 * 0x1_0000 + bytes[at
        + 3] as u64 * 0x100_0000 + bytes[at + 4] as u64 * 0x1_0000_0000 + bytes[at + 5] as u64
        * 0x100_0000_0000 + bytes[at + 6] as u64 * 0x1_0000_0000_0000 + bytes[at + 7] as u64
        * 0x100_0000_0000_0000
}

/// Writes a run of cells.
pub fn write_cells(cells: &Vec<Cell>) -> (out: Vec<u8>)
    ensures
        out@ == cells_bytes(cell_views(cells@)),
{
    let mut out: Vec<u8> = Vec::new();
    let mut i: usize = 0;
    proof {
        assert(cell_views(cells@).take(0) =~= Seq::<CellView>::empty());
    }
    while i < cells.len()
        invariant
            i <= cells.len(),
            out@ == cells_bytes(cell_views(cells@).take(i as int)),
        decreases cells.len() - i,
    {
        let ghost before = out@;
        proof {
            let next = cell_views(cells@).take(i + 1);
            assert(next.drop_last() =~= cell_views(cells@).take(i as int));
            assert(next.last() == cells[i as int]@);
        }
        match &cells[i] {
            Cell::Num(v) => {
                out.push(TAG_NUM);
                push_le(&mut out, *v);
                assert(out@ =~= before + (seq![TAG_NUM] + le_bytes(*v)));
            },
            Cell::Bytes(b) => {
                out.push(TAG_BYTES);
                push_le(&mut out, b.len() as u64);
                let ghost head = out@;
                let mut k: usize = 0;
                while k < b.len()
                    invariant
                        k <= b.len(),
                        out@ == head + b@.take(k as int),
                    decreases b.len() - k,
                {
                    out.push(b[k]);
                    k = k + 1;
                    assert(out@ =~= head + b@.take(k as int));
                }
                assert(b@.take(b.len() as int) =~= b@);
                assert(out@ =~= before + (seq![TAG_BYTES] + le_bytes(b.len() as u64) + b@));
            },
        }
        i = i + 1;
    }
    proof {
        assert(cell_views(cells@).take(cells.len() as int) =~= cell_views(cells@));
    }
    out
}

/// What the cells read so far and the cells that follow make together.
pub open spec fn joined(read: Seq<CellView>, rest: Option<Seq<CellView>>) -> Option<Seq<CellView>> {
    match rest {
        Some(r) => Some(read + r),
        None => None,
    }
}

/// Reads a run of cells; nothing where the bytes do not end with a whole
/// cell.
pub fn read_cells(bytes: &[u8]) -> (r: Option<Vec<Cell>>)
    ensures
        match r {
            Some(cells) => cells_from(bytes@, 0) == Some(cell_views(cells@)),
            None => cells_from(bytes@, 0) is None,
        },
{
    let mut cells: Vec<Cell> = Vec::new();
    let mut at: usize = 0;
    proof {
        assert(cell_views(cells@) =~= Seq::<CellView>::empty());
        let rest = cells_from(bytes@, 0);
        if rest is Some {
            assert(Seq::<CellView>::empty() + rest->0 =~= rest->0);
        }
    }
    while at < bytes.len()
        invariant
            at <= bytes.len(),
            cells_from(bytes@, 0) == joined(cell_views(cells@), cells_from(bytes@, at as int)),
        decreases bytes.len() - at,
    {
        let ghost read = cell_views(cells@);
        if bytes.len() - at < 9 {
            return None;
        }
        let tag: u8 = bytes[at];
        let v: u64 = read_le(bytes, at + 1);
        if tag == TAG_NUM {
            cells.push(Cell::Num(v));
            at = at + 9;
        } else if tag == TAG_BYTES {
            if v > (bytes.len() - at - 9) as u64 {
                return None;
            }
            let n: usize = v as usize;
            let blob: Vec<u8> = vstd::slice::slice_to_vec(
                vstd::slice::slice_subrange(bytes, at + 9, at + 9 + n),
            );
            cells.push(Cell::Bytes(blob));
            at = at + 9 + n;
        } else {
            return None;
        }
        proof {
            let cell = cells[cells.len() - 1]@;
            assert(cell_views(cells@) =~= read.push(cell));
            let rest = cells_from(bytes@, at as int);
            if rest is Some {
                assert(read + (seq![cell] + rest->0) =~= read.push(cell) + rest->0);
            }
        }
    }
    proof {
        assert(cell_views(cells@) + Seq::<CellView>::empty() =~= cell_views(cells@));
    }
    Some(cells)
}

} // verus!
