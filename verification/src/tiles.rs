use vstd::prelude::*;

use crate::cursor::Cursor;
use crate::cursor::as_signed;
use crate::cursor::le32;
use crate::error::MapError;
use crate::header::HEADER_SIZE;
use crate::header::MapHeader;
use crate::header::MapHeaderView;
use crate::header::spec_header;

verus! {

/// One decoded data record of the tile stream: a stored height (raw
/// 32-bit float bits), one unconfirmed byte, and three color bytes.
#[derive(Debug, Clone, Copy, PartialEq, Eq, Structural)]
pub struct TilePoint {
    /// Stored height, raw 32-bit little-endian float bits.
    pub height_bits: u32,
    /// Unconfirmed byte slot of the record.
    pub reserved: u8,
    pub red: u8,
    pub green: u8,
    pub blue: u8,
}

/// Size in bytes of one encoded tile point record.
pub const POINT_SIZE: usize = 8;

/// The tile point encoded in an eight-byte record.
pub open spec fn spec_point(b: Seq<u8>) -> TilePoint
    recommends
        b.len() == POINT_SIZE,
{
    TilePoint {
        height_bits: le32(b.subrange(0, 4)) as u32,
        reserved: b[4],
        red: b[5],
        green: b[6],
        blue: b[7],
    }
}

/// The `count` consecutive tile points encoded starting at `start`.
pub open spec fn run_points(b: Seq<u8>, start: int, count: int) -> Seq<TilePoint>
    recommends
        0 <= start,
        0 <= count,
        start + 8 * count <= b.len(),
{
    Seq::new(count as nat, |i: int| spec_point(b.subrange(start + 8 * i, start + 8 * i + 8)))
}

impl TilePoint {
    /// Reads one eight-byte tile point record. Fails with
    /// `UnexpectedEof`, leaving the cursor where it stood, exactly when
    /// fewer than eight bytes remain.
    pub fn parse(cur: &mut Cursor) -> (r: Result<TilePoint, MapError>)
        requires
            old(cur).wf(),
        ensures
            final(cur).wf(),
            final(cur).data() == old(cur).data(),
            if old(cur).position() + POINT_SIZE <= old(cur).data().len() {
                (r matches Ok(p) && p == spec_point(
                    old(cur).data().subrange(old(cur).position(), old(cur).position() + POINT_SIZE),
                )) && final(cur).position() == old(cur).position() + POINT_SIZE
            } else {
                r == Err::<TilePoint, MapError>(MapError::UnexpectedEof)
                    && final(cur).position() == old(cur).position()
            },
    {
        if cur.remaining() < POINT_SIZE {
            return Err(MapError::UnexpectedEof);
        }
        let height_bits = cur.read_u32()?;
        let reserved = cur.read_u8()?;
        let red = cur.read_u8()?;
        let green = cur.read_u8()?;
        let blue = cur.read_u8()?;
        proof {
            let s = old(cur).data().subrange(old(cur).position(), old(cur).position() + 8);
            assert(s.subrange(0, 4) =~= old(cur).data().subrange(
                old(cur).position(),
                old(cur).position() + 4,
            ));
            assert(s[4] == old(cur).data()[old(cur).position() + 4]);
            assert(s[5] == old(cur).data()[old(cur).position() + 5]);
            assert(s[6] == old(cur).data()[old(cur).position() + 6]);
            assert(s[7] == old(cur).data()[old(cur).position() + 7]);
        }
        Ok(TilePoint { height_bits, reserved, red, green, blue })
    }
}

/// Outcome of decoding the run-length tile stream against a declared
/// cell count: the enabled mask, the stored points and the end position,
/// or the failure that stops the decode.
pub enum RunOutcome {
    Complete { mask: Seq<u8>, points: Seq<TilePoint>, end: int },
    Eof,
    Overflow,
}

/// Prepends one decoded run to the rest of a decode outcome; a failure
/// swallows whatever was decoded before it.
pub open spec fn prepend_outcome(m: Seq<u8>, p: Seq<TilePoint>, o: RunOutcome) -> RunOutcome {
    match o {
        RunOutcome::Complete { mask, points, end } => (RunOutcome::Complete {
            mask: m + mask,
            points: p + points,
            end: end,
        }),
        other => other,
    }
}

/// The run-length tile stream decoded from position `pos`, with
/// `consumed` of `total` grid cells already covered.
///
/// Each run starts with one signed byte `n`: `n >= 0` is a data run of
/// `n + 1` cells, each with a stored point record; `n < 0` is a skip run
/// of `|n|` cells without data. Decoding ends exactly when the runs
/// cover `total` cells; a run that would push past `total` is an
/// `Overflow`, and a stream that ends before `total` is reached is an
/// `Eof`.
pub open spec fn run_decode(b: Seq<u8>, pos: int, total: int, consumed: int) -> RunOutcome
    recommends
        0 <= consumed <= total,
        0 <= pos,
    decreases total - consumed,
{
    if consumed >= total {
        RunOutcome::Complete { mask: Seq::empty(), points: Seq::empty(), end: pos }
    } else if !(0 <= pos < b.len()) {
        RunOutcome::Eof
    } else {
        let code = as_signed(b[pos]);
        let run_len = if code >= 0 {
            code + 1
        } else {
            -code
        };
        if consumed + run_len > total {
            RunOutcome::Overflow
        } else if code >= 0 {
            if pos + 1 + 8 * run_len > b.len() {
                RunOutcome::Eof
            } else {
                prepend_outcome(
                    Seq::new(run_len as nat, |i: int| 1u8),
                    run_points(b, pos + 1, run_len),
                    run_decode(b, pos + 1 + 8 * run_len, total, consumed + run_len),
                )
            }
        } else {
            prepend_outcome(
                Seq::new(run_len as nat, |i: int| 0u8),
                Seq::empty(),
                run_decode(b, pos + 1, total, consumed + run_len),
            )
        }
    }
}

/// How many entries of an enabled mask are set.
pub open spec fn count_ones(m: Seq<u8>) -> int
    decreases m.len(),
{
    if m.len() == 0 {
        0
    } else {
        (if m[0] == 1 {
            1int
        } else {
            0int
        }) + count_ones(m.skip(1))
    }
}

/// Every entry of the mask is a boolean-as-byte.
pub open spec fn mask_ok(m: Seq<u8>) -> bool {
    forall|i: int| 0 <= i < m.len() ==> m[i] == 0 || m[i] == 1
}

pub proof fn lemma_count_ones_nonneg(m: Seq<u8>)
    ensures
        count_ones(m) >= 0,
    decreases m.len(),
{
    if m.len() > 0 {
        lemma_count_ones_nonneg(m.skip(1));
    }
}

pub proof fn lemma_count_ones_concat(a: Seq<u8>, b: Seq<u8>)
    ensures
        count_ones(a + b) == count_ones(a) + count_ones(b),
    decreases a.len(),
{
    if a.len() == 0 {
        assert(a + b =~= b);
    } else {
        assert((a + b).skip(1) =~= a.skip(1) + b);
        lemma_count_ones_concat(a.skip(1), b);
    }
}

pub proof fn lemma_count_ones_const(n: nat, v: u8)
    ensures
        count_ones(Seq::new(n, |i: int| v)) == if v == 1 {
            n as int
        } else {
            0int
        },
    decreases n,
{
    if n > 0 {
        assert(Seq::new(n, |i: int| v).skip(1) =~= Seq::new((n - 1) as nat, |i: int| v));
        lemma_count_ones_const((n - 1) as nat, v);
    }
}

/// Counting ones over a growing prefix: the next cell adds one exactly
/// when it is enabled.
pub proof fn lemma_count_ones_take_step(m: Seq<u8>, i: int)
    requires
        0 <= i < m.len(),
    ensures
        count_ones(m.take(i + 1)) == count_ones(m.take(i)) + (if m[i] == 1 {
            1int
        } else {
            0int
        }),
{
    assert(m.take(i + 1) =~= m.take(i) + seq![m[i]]);
    lemma_count_ones_concat(m.take(i), seq![m[i]]);
    assert(seq![m[i]].skip(1) =~= Seq::<u8>::empty());
    assert(count_ones(Seq::<u8>::empty()) == 0);
    assert(count_ones(seq![m[i]]) == (if m[i] == 1 {
        1int
    } else {
        0int
    }));
}

/// The ones of a strict prefix that stops at an enabled cell are fewer
/// than the ones of the whole mask.
pub proof fn lemma_count_ones_take_lt(m: Seq<u8>, i: int)
    requires
        0 <= i < m.len(),
        m[i] == 1,
    ensures
        count_ones(m.take(i)) < count_ones(m),
{
    assert(m =~= m.take(i) + m.skip(i));
    lemma_count_ones_concat(m.take(i), m.skip(i));
    assert(m.skip(i)[0] == m[i]);
    lemma_count_ones_nonneg(m.skip(i).skip(1));
    assert(count_ones(m.skip(i)) >= 1);
}

/// A decode that covers the whole grid accounts for every cell exactly
/// once: the mask holds one entry per still-uncovered cell, every entry
/// is a boolean-as-byte, and the count of enabled entries equals the
/// number of stored points.
pub proof fn lemma_run_decode_counts(b: Seq<u8>, pos: int, total: int, consumed: int)
    requires
        0 <= consumed <= total,
    ensures
        (match run_decode(b, pos, total, consumed) {
            RunOutcome::Complete { mask, points, end } => mask.len() == total - consumed
                && count_ones(mask) == points.len() && mask_ok(mask),
            _ => true,
        }),
    decreases total - consumed,
{
    if consumed >= total {
    } else if !(0 <= pos < b.len())  {
    } else {
        let code = as_signed(b[pos]);
        let run_len = if code >= 0 {
            code + 1
        } else {
            -code
        };
        if consumed + run_len > total {
        } else if code >= 0 {
            if pos + 1 + 8 * run_len <= b.len() {
                lemma_run_decode_counts(b, pos + 1 + 8 * run_len, total, consumed + run_len);
                match run_decode(b, pos + 1 + 8 * run_len, total, consumed + run_len) {
                    RunOutcome::Complete { mask, points, end } => {
                        lemma_count_ones_concat(Seq::new(run_len as nat, |i: int| 1u8), mask);
                        lemma_count_ones_const(run_len as nat, 1u8);
                    },
                    _ => {},
                }
            }
        } else {
            lemma_run_decode_counts(b, pos + 1, total, consumed + run_len);
            match run_decode(b, pos + 1, total, consumed + run_len) {
                RunOutcome::Complete { mask, points, end } => {
                    lemma_count_ones_concat(Seq::new(run_len as nat, |i: int| 0u8), mask);
                    lemma_count_ones_const(run_len as nat, 0u8);
                },
                _ => {},
            }
        }
    }
}

/// A run code of zero yields exactly one enabled cell and consumes
/// exactly one stored point record.
pub proof fn lemma_zero_code_single_cell(b: Seq<u8>, pos: int, total: int, consumed: int)
    requires
        0 <= consumed < total,
        0 <= pos,
        pos + 9 <= b.len(),
        b[pos] == 0,
    ensures
        run_decode(b, pos, total, consumed) == prepend_outcome(
            seq![1u8],
            seq![spec_point(b.subrange(pos + 1, pos + 9))],
            run_decode(b, pos + 9, total, consumed + 1),
        ),
{
    assert(Seq::new(1nat, |i: int| 1u8) =~= seq![1u8]);
    assert(run_points(b, pos + 1, 1) =~= seq![spec_point(b.subrange(pos + 1, pos + 9))]);
}

/// A skip run of length `k` yields `k` consecutive disabled cells and
/// consumes no point records.
pub proof fn lemma_skip_run_cells(b: Seq<u8>, pos: int, total: int, consumed: int, k: int)
    requires
        0 <= consumed < total,
        0 <= pos < b.len(),
        as_signed(b[pos]) == -k,
        1 <= k,
        consumed + k <= total,
    ensures
        run_decode(b, pos, total, consumed) == prepend_outcome(
            Seq::new(k as nat, |i: int| 0u8),
            Seq::empty(),
            run_decode(b, pos + 1, total, consumed + k),
        ),
{
}

proof fn lemma_prepend_empty(o: RunOutcome)
    ensures
        prepend_outcome(Seq::empty(), Seq::empty(), o) == o,
{
    match o {
        RunOutcome::Complete { mask, points, end } => {
            assert(Seq::<u8>::empty() + mask =~= mask);
            assert(Seq::<TilePoint>::empty() + points =~= points);
        },
        _ => {},
    }
}

proof fn lemma_prepend_assoc(
    m1: Seq<u8>,
    p1: Seq<TilePoint>,
    m2: Seq<u8>,
    p2: Seq<TilePoint>,
    o: RunOutcome,
)
    ensures
        prepend_outcome(m1, p1, prepend_outcome(m2, p2, o)) == prepend_outcome(m1 + m2, p1 + p2, o),
{
    match o {
        RunOutcome::Complete { mask, points, end } => {
            assert(m1 + (m2 + mask) =~= (m1 + m2) + mask);
            assert(p1 + (p2 + points) =~= (p1 + p2) + points);
        },
        _ => {},
    }
}

/// Decodes the run-length tile stream covering `total_cells` grid cells:
/// returns the enabled mask in row-major stream order and the stored
/// points in stream order, or the failure that stops the decode.
#[verifier::loop_isolation(false)]
pub fn parse_points(cur: &mut Cursor, total_cells: u64) -> (r: Result<
    (Vec<u8>, Vec<TilePoint>),
    MapError,
>)
    requires
        old(cur).wf(),
    ensures
        final(cur).wf(),
        final(cur).data() == old(cur).data(),
        (match run_decode(old(cur).data(), old(cur).position(), total_cells as int, 0) {
            RunOutcome::Complete { mask, points, end } => r matches Ok(mp) && mp.0@ == mask
                && mp.1@ == points && final(cur).position() == end,
            RunOutcome::Eof => r == Err::<(Vec<u8>, Vec<TilePoint>), MapError>(
                MapError::UnexpectedEof,
            ),
            RunOutcome::Overflow => r == Err::<(Vec<u8>, Vec<TilePoint>), MapError>(
                MapError::RunOverflow,
            ),
        }),
{
    let ghost b = old(cur).data();
    let ghost start = old(cur).position();
    let ghost total = total_cells as int;
    let mut enabled_mask: Vec<u8> = Vec::new();
    let mut points: Vec<TilePoint> = Vec::new();
    let mut consumed: u64 = 0;
    proof {
        lemma_prepend_empty(run_decode(b, start, total, 0));
    }
    while consumed < total_cells
        invariant
            cur.wf(),
            cur.data() == b,
            consumed <= total_cells,
            total == total_cells as int,
            run_decode(b, start, total, 0) == prepend_outcome(
                enabled_mask@,
                points@,
                run_decode(b, cur.position(), total, consumed as int),
            ),
        decreases total_cells - consumed,
    {
        let ghost pos0 = cur.position();
        let n = match cur.read_i8() {
            Ok(v) => v,
            Err(e) => {
                return Err(e);
            },
        };
        let ghost code = as_signed(b[pos0]);
        let run_len: u64 = if n >= 0 {
            n as u64 + 1
        } else {
            (-(n as i64)) as u64
        };
        if total_cells - consumed < run_len {
            return Err(MapError::RunOverflow);
        }
        let ghost mask0 = enabled_mask@;
        let ghost points0 = points@;
        if n >= 0 {
            let need = POINT_SIZE * (run_len as usize);
            if cur.remaining() < need {
                return Err(MapError::UnexpectedEof);
            }
            let mut k: u64 = 0;
            while k < run_len
                invariant
                    cur.wf(),
                    cur.data() == b,
                    k <= run_len,
                    cur.position() == pos0 + 1 + 8 * k,
                    pos0 + 1 + 8 * run_len <= b.len(),
                    enabled_mask@ == mask0 + Seq::new(k as nat, |i: int| 1u8),
                    points@ == points0 + run_points(b, pos0 + 1, k as int),
                decreases run_len - k,
            {
                let pt = match TilePoint::parse(cur) {
                    Ok(p) => p,
                    Err(e) => {
                        return Err(e);
                    },
                };
                points.push(pt);
                enabled_mask.push(1);
                k = k + 1;
                proof {
                    assert(enabled_mask@ =~= mask0 + Seq::new(k as nat, |i: int| 1u8));
                    assert(b.subrange(pos0 + 1 + 8 * (k - 1), pos0 + 1 + 8 * (k - 1) + 8)
                        =~= b.subrange(
                        pos0 + 1 + 8 * (k - 1),
                        pos0 + 1 + 8 * k,
                    ));
                    assert(points@ =~= points0 + run_points(b, pos0 + 1, k as int));
                }
            }
            proof {
                lemma_prepend_assoc(
                    mask0,
                    points0,
                    Seq::new(run_len as nat, |i: int| 1u8),
                    run_points(b, pos0 + 1, run_len as int),
                    run_decode(b, cur.position(), total, consumed as int + run_len as int),
                );
            }
        } else {
            let mut k: u64 = 0;
            while k < run_len
                invariant
                    k <= run_len,
                    enabled_mask@ == mask0 + Seq::new(k as nat, |i: int| 0u8),
                decreases run_len - k,
            {
                enabled_mask.push(0);
                k = k + 1;
                proof {
                    assert(enabled_mask@ =~= mask0 + Seq::new(k as nat, |i: int| 0u8));
                }
            }
            proof {
                assert(points@ =~= points0 + Seq::<TilePoint>::empty());
                lemma_prepend_assoc(
                    mask0,
                    points0,
                    Seq::new(run_len as nat, |i: int| 0u8),
                    Seq::empty(),
                    run_decode(b, cur.position(), total, consumed as int + run_len as int),
                );
            }
        }
        consumed = consumed + run_len;
    }
    proof {
        assert(enabled_mask@ + Seq::<u8>::empty() =~= enabled_mask@);
        assert(points@ + Seq::<TilePoint>::empty() =~= points@);
    }
    Ok((enabled_mask, points))
}

/// A fully decoded map: the header, the stored points in stream order,
/// and one boolean-as-byte mask entry per grid cell in row-major stream
/// order.
#[derive(Debug)]
pub struct TileMap {
    pub header: MapHeader,
    pub points: Vec<TilePoint>,
    pub enabled: Vec<u8>,
}

/// Mathematical image of a `TileMap`.
pub struct TileMapView {
    pub header: MapHeaderView,
    pub points: Seq<TilePoint>,
    pub enabled: Seq<u8>,
}

impl View for TileMap {
    type V = TileMapView;

    open spec fn view(&self) -> TileMapView {
        TileMapView { header: self.header@, points: self.points@, enabled: self.enabled@ }
    }
}

impl TileMap {
    /// Structural soundness of a decoded map: one boolean-as-byte mask
    /// entry per grid cell, and exactly one stored point per enabled
    /// cell.
    pub open spec fn wf(&self) -> bool {
        &&& self.enabled@.len() == self.header.w as int * self.header.h as int
        &&& count_ones(self.enabled@) == self.points@.len()
        &&& mask_ok(self.enabled@)
    }
}

/// Outcome of decoding a whole map file from a given position: the
/// decoded map, or the error the decode fails with.
pub enum MapOutcome {
    Decoded(TileMapView),
    Failed(MapError),
}

/// The map encoded at position `pos` of the stream: the fixed header
/// followed by the run-length tile stream covering `width * height`
/// cells. A tile-stream failure fails the whole decode; nothing is
/// salvaged from a corrupt grid.
pub open spec fn parse_map_outcome(b: Seq<u8>, pos: int) -> MapOutcome {
    if pos + HEADER_SIZE <= b.len() {
        let hv = spec_header(b, pos);
        match run_decode(b, pos + HEADER_SIZE, hv.w as int * hv.h as int, 0) {
            RunOutcome::Complete { mask, points, end } => MapOutcome::Decoded(
                TileMapView { header: hv, points: points, enabled: mask },
            ),
            RunOutcome::Eof => MapOutcome::Failed(MapError::UnexpectedEof),
            RunOutcome::Overflow => MapOutcome::Failed(MapError::RunOverflow),
        }
    } else {
        MapOutcome::Failed(MapError::UnexpectedEof)
    }
}

/// The decoder is deterministic: two maps decoded from the same byte
/// stream at the same position are equal.
pub proof fn lemma_decode_deterministic(b: Seq<u8>, pos: int, m1: TileMapView, m2: TileMapView)
    requires
        parse_map_outcome(b, pos) == MapOutcome::Decoded(m1),
        parse_map_outcome(b, pos) == MapOutcome::Decoded(m2),
    ensures
        m1 == m2,
{
}

impl TileMap {
    /// Decodes a whole map file: the fixed header, then the run-length
    /// tile stream covering the declared grid. Fails with
    /// `UnexpectedEof` where the stream is too short and with
    /// `RunOverflow` where a run crosses the declared grid size; a
    /// failed decode never yields a partial map.
    pub fn parse(cur: &mut Cursor) -> (r: Result<TileMap, MapError>)
        requires
            old(cur).wf(),
        ensures
            final(cur).wf(),
            final(cur).data() == old(cur).data(),
            (match parse_map_outcome(old(cur).data(), old(cur).position()) {
                MapOutcome::Decoded(mv) => r matches Ok(m) && m@ == mv && m.wf(),
                MapOutcome::Failed(e) => r matches Err(e2) && e2 == e,
            }),
    {
        let header = MapHeader::parse(cur)?;
        proof {
            vstd::arithmetic::mul::lemma_mul_upper_bound(
                header.w as int,
                0xffff_ffff,
                header.h as int,
                0xffff_ffff,
            );
        }
        let total: u64 = (header.w as u64) * (header.h as u64);
        let (enabled, points) = parse_points(cur, total)?;
        proof {
            lemma_run_decode_counts(
                old(cur).data(),
                old(cur).position() + HEADER_SIZE,
                total as int,
                0,
            );
        }
        Ok(TileMap { header, points, enabled })
    }
}

} // verus!
