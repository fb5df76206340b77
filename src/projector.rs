use vstd::prelude::*;
use crate::color::Color;
use crate::offsets::{CumulativeOffsetIndex, ProjectionError, resolve_spec};
use crate::sizes::ScaffoldSizeTable;

verus! {

/// Global coordinates are divided by this before they become pixels.
pub const SCALE_FACTOR: u64 = 100;

/// Alignments shorter than this are not drawn.
pub const MIN_ALIGNMENT_LENGTH: u64 = 1000;

/// One row of a pairwise alignment table.
#[derive(Clone, Debug)]
pub struct AlignmentRecord {
    pub q_seqid: String,
    pub q_len: u64,
    pub q_start: u64,
    pub q_end: u64,
    pub strand: char,
    pub t_seqid: String,
    pub t_len: u64,
    pub t_start: u64,
    pub t_end: u64,
    pub n_match: u64,
    pub aln_len: u64,
    pub map_q: u64,
}

/// One pixel to be coloured, in scaled coordinates.
#[derive(Clone, Copy, Debug, PartialEq, Eq, Structural)]
pub struct PixelWrite {
    pub x: u64,
    pub y: u64,
    pub color: Color,
}

/// Forward strand in red, reverse strand in blue, anything else in yellow.
pub open spec fn strand_color_spec(strand: char) -> Color {
    if strand == '+' {
        Color::Red
    } else if strand == '-' {
        Color::Blue
    } else {
        Color::Yellow
    }
}

/// The diagonal run of `n` points starting at global `(tb, qb)`, scaled down.
pub open spec fn run_spec(tb: int, qb: int, n: int, color: Color) -> Seq<PixelWrite> {
    Seq::new(
        n as nat,
        |i: int|
            PixelWrite {
                x: ((tb + i) / SCALE_FACTOR as int) as u64,
                y: ((qb + i) / SCALE_FACTOR as int) as u64,
                color,
            },
    )
}

/// What one record yields given the target and query first-seen orders, and
/// the two orders afterwards. The target scaffold is resolved before the
/// query scaffold.
pub open spec fn record_spec(
    rec: AlignmentRecord,
    t_sizes: Map<Seq<char>, u64>,
    t_order: Seq<Seq<char>>,
    q_sizes: Map<Seq<char>, u64>,
    q_order: Seq<Seq<char>>,
) -> (Result<Seq<PixelWrite>, ProjectionError>, Seq<Seq<char>>, Seq<Seq<char>>) {
    if rec.aln_len < MIN_ALIGNMENT_LENGTH {
        (Ok(Seq::empty()), t_order, q_order)
    } else {
        let (tr, t_order1) = resolve_spec(t_sizes, t_order, rec.t_seqid@);
        match tr {
            Err(e) => (Err(e), t_order1, q_order),
            Ok(t_off) => {
                let (qr, q_order1) = resolve_spec(q_sizes, q_order, rec.q_seqid@);
                match qr {
                    Err(e) => (Err(e), t_order1, q_order1),
                    Ok(q_off) => {
                        let tb = t_off + rec.t_start;
                        let qb = q_off + rec.q_start;
                        if tb + rec.aln_len > u64::MAX || qb + rec.aln_len > u64::MAX {
                            (Err(ProjectionError::Overflow), t_order1, q_order1)
                        } else {
                            (
                                Ok(run_spec(tb, qb, rec.aln_len as int, strand_color_spec(rec.strand))),
                                t_order1,
                                q_order1,
                            )
                        }
                    },
                }
            },
        }
    }
}

/// What a stream of records yields, record after record, stopping at the
/// first error.
pub open spec fn stream_spec(
    recs: Seq<AlignmentRecord>,
    t_sizes: Map<Seq<char>, u64>,
    t_order: Seq<Seq<char>>,
    q_sizes: Map<Seq<char>, u64>,
    q_order: Seq<Seq<char>>,
) -> (Result<Seq<PixelWrite>, ProjectionError>, Seq<Seq<char>>, Seq<Seq<char>>)
    decreases recs.len(),
{
    if recs.len() == 0 {
        (Ok(Seq::empty()), t_order, q_order)
    } else {
        let (prev, t1, q1) = stream_spec(recs.drop_last(), t_sizes, t_order, q_sizes, q_order);
        match prev {
            Err(e) => (Err(e), t1, q1),
            Ok(ws) => {
                let (cur, t2, q2) = record_spec(recs.last(), t_sizes, t1, q_sizes, q1);
                match cur {
                    Err(e) => (Err(e), t2, q2),
                    Ok(ws2) => (Ok(ws + ws2), t2, q2),
                }
            },
        }
    }
}

/// The colour of an alignment on `strand`.
pub fn strand_color(strand: char) -> (r: Color)
    ensures
        r == strand_color_spec(strand),
{
    if strand == '+' {
        Color::Red
    } else if strand == '-' {
        Color::Blue
    } else {
        Color::Yellow
    }
}

/// The scaled diagonal run of `n` points from global `(tb, qb)`.
pub fn pixel_run(tb: u64, qb: u64, n: u64, color: Color) -> (r: Vec<PixelWrite>)
    requires
        tb + n <= u64::MAX,
        qb + n <= u64::MAX,
    ensures
        r@ == run_spec(tb as int, qb as int, n as int, color),
{
    let mut out: Vec<PixelWrite> = Vec::new();
    let mut i: u64 = 0;
    while i < n
        invariant
            i <= n,
            tb + n <= u64::MAX,
            qb + n <= u64::MAX,
            out@ =~= run_spec(tb as int, qb as int, i as int, color),
        decreases n - i,
    {
        out.push(PixelWrite { x: (tb + i) / SCALE_FACTOR, y: (qb + i) / SCALE_FACTOR, color });
        i = i + 1;
        assert(out@ =~= run_spec(tb as int, qb as int, i as int, color));
    }
    out
}

/// Extent of an assembly's axis in scaled coordinates: its total length
/// divided by the scale factor.
pub fn scaled_extent(sizes: &ScaffoldSizeTable) -> (r: u128)
    requires
        sizes.wf(),
    ensures
        r == sizes.length_sum() / SCALE_FACTOR as int,
{
    sizes.total_length() / (SCALE_FACTOR as u128)
}

/// Projects one record: skips it when it is short, otherwise resolves its
/// target scaffold in `target` and its query scaffold in `query` and returns
/// its coloured pixel run.
pub fn project_record(
    rec: &AlignmentRecord,
    target: &mut CumulativeOffsetIndex,
    query: &mut CumulativeOffsetIndex,
) -> (r: Result<Vec<PixelWrite>, ProjectionError>)
    requires
        old(target).wf(),
        old(query).wf(),
    ensures
        final(target).wf(),
        final(query).wf(),
        final(target).size_map() == old(target).size_map(),
        final(query).size_map() == old(query).size_map(),
        ({
            let (res, t_order, q_order) = record_spec(
                *rec,
                old(target).size_map(),
                old(target).order(),
                old(query).size_map(),
                old(query).order(),
            );
            &&& final(target).order() == t_order
            &&& final(query).order() == q_order
            &&& match r {
                Ok(v) => res == Ok::<Seq<PixelWrite>, ProjectionError>(v@),
                Err(e) => res == Err::<Seq<PixelWrite>, ProjectionError>(e),
            }
        }),
{
    if rec.aln_len < MIN_ALIGNMENT_LENGTH {
        return Ok(Vec::new());
    }
    let t_off = match target.resolve(&rec.t_seqid) {
        Ok(o) => o,
        Err(e) => return Err(e),
    };
    let q_off = match query.resolve(&rec.q_seqid) {
        Ok(o) => o,
        Err(e) => return Err(e),
    };
    let tb = match t_off.checked_add(rec.t_start) {
        Some(v) => v,
        None => return Err(ProjectionError::Overflow),
    };
    let qb = match q_off.checked_add(rec.q_start) {
        Some(v) => v,
        None => return Err(ProjectionError::Overflow),
    };
    if tb.checked_add(rec.aln_len).is_none() || qb.checked_add(rec.aln_len).is_none() {
        return Err(ProjectionError::Overflow);
    }
    Ok(pixel_run(tb, qb, rec.aln_len, strand_color(rec.strand)))
}

/// Once a prefix of the stream has failed, every longer prefix fails with
/// the same error.
proof fn lemma_stream_error_persists(
    recs: Seq<AlignmentRecord>,
    t_sizes: Map<Seq<char>, u64>,
    q_sizes: Map<Seq<char>, u64>,
    k: int,
    m: int,
)
    requires
        0 <= k <= m <= recs.len(),
        stream_spec(recs.take(k), t_sizes, Seq::empty(), q_sizes, Seq::empty()).0 is Err,
    ensures
        stream_spec(recs.take(m), t_sizes, Seq::empty(), q_sizes, Seq::empty()).0
            == stream_spec(recs.take(k), t_sizes, Seq::empty(), q_sizes, Seq::empty()).0,
    decreases m - k,
{
    if k < m {
        lemma_stream_error_persists(recs, t_sizes, q_sizes, k, m - 1);
        assert(recs.take(m).drop_last() =~= recs.take(m - 1));
    }
}

/// Projects a whole alignment stream in one pass, with fresh offset indices
/// over `target_sizes` and `query_sizes`; the first error aborts the pass.
pub fn project_alignments(
    records: &Vec<AlignmentRecord>,
    target_sizes: ScaffoldSizeTable,
    query_sizes: ScaffoldSizeTable,
) -> (r: Result<Vec<PixelWrite>, ProjectionError>)
    requires
        target_sizes.wf(),
        query_sizes.wf(),
    ensures
        ({
            let res = stream_spec(records@, target_sizes@, Seq::empty(), query_sizes@, Seq::empty()).0;
            match r {
                Ok(v) => res == Ok::<Seq<PixelWrite>, ProjectionError>(v@),
                Err(e) => res == Err::<Seq<PixelWrite>, ProjectionError>(e),
            }
        }),
{
    let ghost ts = target_sizes@;
    let ghost qs = query_sizes@;
    let mut target = CumulativeOffsetIndex::new(target_sizes);
    let mut query = CumulativeOffsetIndex::new(query_sizes);
    let mut out: Vec<PixelWrite> = Vec::new();
    let mut i: usize = 0;
    while i < records.len()
        invariant
            i <= records@.len(),
            target.wf(),
            query.wf(),
            target.size_map() == ts,
            query.size_map() == qs,
            ts == target_sizes@,
            qs == query_sizes@,
            stream_spec(records@.take(i as int), ts, Seq::empty(), qs, Seq::empty())
                == (Ok::<Seq<PixelWrite>, ProjectionError>(out@), target.order(), query.order()),
        decreases records@.len() - i,
    {
        proof {
            assert(records@.take(i + 1).drop_last() =~= records@.take(i as int));
            assert(records@.take(i + 1).last() == records@[i as int]);
        }
        let ghost t_before = target.order();
        let ghost q_before = query.order();
        match project_record(&records[i], &mut target, &mut query) {
            Err(e) => {
                proof {
                    assert(record_spec(records@[i as int], ts, t_before, qs, q_before).0
                        == Err::<Seq<PixelWrite>, ProjectionError>(e));
                    assert(stream_spec(records@.take(i + 1), ts, Seq::empty(), qs, Seq::empty()).0
                        == Err::<Seq<PixelWrite>, ProjectionError>(e));
                    assert(records@.take(records@.len() as int) =~= records@);
                    lemma_stream_error_persists(records@, ts, qs, i + 1, records@.len() as int);
                    assert(stream_spec(records@, ts, Seq::empty(), qs, Seq::empty()).0
                        == Err::<Seq<PixelWrite>, ProjectionError>(e));
                }
                return Err(e);
            },
            Ok(ws) => {
                let mut ws = ws;
                out.append(&mut ws);
            },
        }
        i = i + 1;
    }
    proof {
        assert(records@.take(records@.len() as int) =~= records@);
    }
    Ok(out)
}

/// A record shorter than the minimum length yields no pixel and leaves both
/// indices as they were.
pub proof fn lemma_short_record_draws_nothing(
    rec: AlignmentRecord,
    t_sizes: Map<Seq<char>, u64>,
    t_order: Seq<Seq<char>>,
    q_sizes: Map<Seq<char>, u64>,
    q_order: Seq<Seq<char>>,
)
    requires
        rec.aln_len < MIN_ALIGNMENT_LENGTH,
    ensures
        record_spec(rec, t_sizes, t_order, q_sizes, q_order)
            == (Ok::<Seq<PixelWrite>, ProjectionError>(Seq::empty()), t_order, q_order),
{
}

/// Every pixel of a record has the colour of its strand: red for `+`, blue
/// for `-`, yellow for anything else.
pub proof fn lemma_record_color_follows_strand(
    rec: AlignmentRecord,
    t_sizes: Map<Seq<char>, u64>,
    t_order: Seq<Seq<char>>,
    q_sizes: Map<Seq<char>, u64>,
    q_order: Seq<Seq<char>>,
)
    ensures
        ({
            let res = record_spec(rec, t_sizes, t_order, q_sizes, q_order).0;
            res is Ok ==> forall|i: int| 0 <= i < res->Ok_0.len() ==> {
                &&& #[trigger] res->Ok_0[i].color == strand_color_spec(rec.strand)
                &&& rec.strand == '+' ==> res->Ok_0[i].color == Color::Red
                &&& rec.strand == '-' ==> res->Ok_0[i].color == Color::Blue
                &&& (rec.strand != '+' && rec.strand != '-') ==> res->Ok_0[i].color == Color::Yellow
            }
        }),
{
}

} // verus!
