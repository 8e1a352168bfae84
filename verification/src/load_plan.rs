//! Bulk-load planning: the exact ordered sequence of store operations a
//! full-replace ingestion run issues, with programs cut into bounded
//! chunks.
use crate::channel::Channel;
use crate::program::Program;
use crate::program_converter::{entity_to_row, row_view_of, ProgramRow, ProgramRowView};
use crate::reconcile::{
    chan_id_seq, chan_ids, id_seq, id_set, keep_program, known_pred, program_views,
    reconcile_feed, unknown_pred,
};
use vstd::arithmetic::div_mod::lemma_fundamental_div_mod_converse_div;
use vstd::prelude::*;

verus! {

/// How many program rows one batched write may carry.
pub const CHUNK_SIZE: usize = 10000;

/// One write or truncate the store is asked to perform, in plan order.
pub enum StoreOp {
    /// Empty the package-membership table (first: it references channels).
    TruncatePackages,
    /// Empty the channel table.
    TruncateChannels,
    /// Empty the program table.
    TruncatePrograms,
    /// Insert these channel rows.
    InsertChannels(Vec<Channel>),
    /// Insert one membership row per listed channel key, under the tag.
    InsertPackages(Vec<String>, String),
    /// Insert these program rows as one atomic batched write.
    InsertProgramChunk(Vec<ProgramRow>),
}

/// The images of a list of program rows, in order.
pub open spec fn row_views(s: Seq<ProgramRow>) -> Seq<ProgramRowView> {
    s.map_values(|r: ProgramRow| r@)
}

/// The rows a list of programs flattens to, in order.
pub open spec fn rows_of_programs(ps: Seq<Program>) -> Seq<ProgramRowView> {
    program_views(ps).map_values(|pv| row_view_of(pv))
}

/// How many chunks `n` rows need: zero for none, else the rounded-up
/// quotient by the chunk size.
pub open spec fn chunk_count(n: int) -> int {
    (n + CHUNK_SIZE as int - 1) / (CHUNK_SIZE as int)
}

/// Where chunk `i` of `n` rows ends: one chunk size further, or at `n`.
pub open spec fn chunk_end(n: int, i: int) -> int {
    if CHUNK_SIZE as int * (i + 1) <= n {
        CHUNK_SIZE as int * (i + 1)
    } else {
        n
    }
}

/// Chunk `i` of the rows `s`.
pub open spec fn chunk_of(s: Seq<ProgramRowView>, i: int) -> Seq<ProgramRowView> {
    s.subrange(CHUNK_SIZE as int * i, chunk_end(s.len() as int, i))
}

/// Cuts the rows into chunks of the fixed size, the last possibly
/// shorter, preserving order; `ceil(n / size)` chunks in all.
pub fn chunk_program_rows(rows: &Vec<ProgramRow>) -> (r: Vec<Vec<ProgramRow>>)
    ensures
        r@.len() == chunk_count(rows@.len() as int),
        forall|i: int|
            0 <= i < r@.len() ==> row_views(#[trigger] r@[i]@) == chunk_of(
                row_views(rows@),
                i,
            ),
{
    let n = rows.len();
    let mut out: Vec<Vec<ProgramRow>> = Vec::new();
    let mut cur: Vec<ProgramRow> = Vec::new();
    let mut i: usize = 0;
    #[verifier::loop_isolation(false)]
    while i < n
        invariant
            i <= n,
            i as int == CHUNK_SIZE as int * out@.len() + cur@.len(),
            cur@.len() < CHUNK_SIZE,
            forall|j: int|
                0 <= j < out@.len() ==> row_views(#[trigger] out@[j]@) == row_views(
                    rows@,
                ).subrange(CHUNK_SIZE as int * j, CHUNK_SIZE as int * (j + 1)),
            row_views(cur@) == row_views(rows@).subrange(
                CHUNK_SIZE as int * out@.len(),
                i as int,
            ),
        decreases n - i,
    {
        let ghost pre = cur@;
        cur.push(rows[i].clone());
        proof {
            assert(row_views(cur@) =~= row_views(rows@).subrange(
                CHUNK_SIZE as int * out@.len(),
                i as int + 1,
            ));
        }
        i = i + 1;
        if cur.len() == CHUNK_SIZE {
            let ghost k = out@.len() as int;
            out.push(cur);
            cur = Vec::new();
            proof {
                assert(row_views(out@[k]@) == row_views(rows@).subrange(
                    CHUNK_SIZE as int * k,
                    CHUNK_SIZE as int * (k + 1),
                ));
                assert(row_views(cur@) =~= row_views(rows@).subrange(
                    CHUNK_SIZE as int * out@.len(),
                    i as int,
                ));
            }
        }
    }
    let ghost k = out@.len() as int;
    let ghost c = cur@.len() as int;
    if cur.len() > 0 {
        out.push(cur);
    }
    proof {
        let b = CHUNK_SIZE as int;
        if c == 0 {
            lemma_fundamental_div_mod_converse_div(n as int + b - 1, b, k, b - 1);
            assert(out@.len() == chunk_count(n as int));
        } else {
            lemma_fundamental_div_mod_converse_div(n as int + b - 1, b, k + 1, c - 1);
            assert(out@.len() == chunk_count(n as int));
            assert(row_views(out@[k]@) == chunk_of(row_views(rows@), k)) by {
                assert(row_views(out@[k]@) == row_views(rows@).subrange(b * k, n as int));
            }
        }
        assert forall|j: int| 0 <= j < out@.len() implies row_views(#[trigger] out@[j]@)
            == chunk_of(row_views(rows@), j) by {
            if j < k {
                assert(row_views(out@[j]@) == row_views(rows@).subrange(b * j, b * (j + 1)));
                assert(chunk_end(n as int, j) == b * (j + 1));
            }
        }
    }
    out
}

/// Chunking covers: the chunks of a row list, laid end to end, are exactly
/// the rows, in order — no row is lost or duplicated across batches.
pub proof fn lemma_chunks_cover(rows: Seq<ProgramRowView>, chunks: Seq<Seq<ProgramRowView>>)
    requires
        chunks.len() == chunk_count(rows.len() as int),
        forall|i: int| 0 <= i < chunks.len() ==> #[trigger] chunks[i] == chunk_of(rows, i),
    ensures
        chunks.flatten() == rows,
{
    lemma_chunks_cover_from(rows, chunks, 0);
    assert(chunks.skip(0) =~~= chunks);
    assert(rows.subrange(0, rows.len() as int) =~= rows);
}

/// The chunks from `k` on, laid end to end, are the rows from the `k`th
/// chunk boundary on.
proof fn lemma_chunks_cover_from(rows: Seq<ProgramRowView>, chunks: Seq<Seq<ProgramRowView>>, k: int)
    requires
        chunks.len() == chunk_count(rows.len() as int),
        forall|i: int| 0 <= i < chunks.len() ==> #[trigger] chunks[i] == chunk_of(rows, i),
        0 <= k <= chunks.len(),
    ensures
        chunks.skip(k).flatten() == rows.subrange(
            if CHUNK_SIZE as int * k <= rows.len() {
                CHUNK_SIZE as int * k
            } else {
                rows.len() as int
            },
            rows.len() as int,
        ),
    decreases chunks.len() - k,
{
    let n = rows.len() as int;
    let b = CHUNK_SIZE as int;
    vstd::arithmetic::div_mod::lemma_fundamental_div_mod(n + b - 1, b);
    vstd::arithmetic::div_mod::lemma_mod_division_less_than_divisor(n + b - 1, b);
    if k == chunks.len() {
        assert(chunks.skip(k) =~~= Seq::<Seq<ProgramRowView>>::empty());
        assert(Seq::<Seq<ProgramRowView>>::empty().flatten() =~= Seq::<ProgramRowView>::empty());
        assert(n <= b * k);
        assert(rows.subrange(n, n) =~= Seq::<ProgramRowView>::empty());
    } else {
        lemma_chunks_cover_from(rows, chunks, k + 1);
        assert(b * k < n) by {
            assert(k <= chunks.len() - 1);
            assert(b * k <= b * (chunks.len() - 1));
        }
        let tail = chunks.skip(k);
        assert(tail.len() > 0);
        assert(tail.first() == chunks[k]);
        assert(tail.drop_first() =~~= chunks.skip(k + 1));
        assert(tail.flatten() == chunks[k] + chunks.skip(k + 1).flatten());
        let e = chunk_end(n, k);
        assert(e == if b * (k + 1) <= n {
            b * (k + 1)
        } else {
            n
        });
        assert(rows.subrange(b * k, e) + rows.subrange(e, n) =~= rows.subrange(b * k, n));
    }
}

/// A plan's program batches, laid end to end, are exactly the rows they
/// were cut from: across the batched writes no row is lost or duplicated.
/// `base` is where the batch operations start in the plan.
pub proof fn lemma_plan_chunks_cover(ops: Seq<StoreOp>, rows: Seq<ProgramRowView>, base: int)
    requires
        0 <= base <= ops.len(),
        ops.len() - base == chunk_count(rows.len() as int),
        forall|i: int|
            base <= i < ops.len() ==> chunk_rows_of(#[trigger] ops[i]) == chunk_of(
                rows,
                i - base,
            ),
    ensures
        ops.skip(base).map_values(|op: StoreOp| chunk_rows_of(op)).flatten() == rows,
{
    let chunks = ops.skip(base).map_values(|op: StoreOp| chunk_rows_of(op));
    assert(chunks.len() == chunk_count(rows.len() as int));
    assert forall|i: int| 0 <= i < chunks.len() implies #[trigger] chunks[i] == chunk_of(
        rows,
        i,
    ) by {
        assert(ops.skip(base)[i] == ops[base + i]);
        assert(chunks[i] == chunk_rows_of(ops[base + i]));
    }
    lemma_chunks_cover(rows, chunks);
}

/// The business keys of these channels, in order.
pub fn channel_id_list(channels: &Vec<Channel>) -> (r: Vec<String>)
    ensures
        id_seq(r@) =~= chan_id_seq(channels@),
{
    let mut out: Vec<String> = Vec::new();
    let mut i: usize = 0;
    while i < channels.len()
        invariant
            i <= channels@.len(),
            out@.len() == i,
            forall|j: int| 0 <= j < i ==> out@[j]@ == #[trigger] channels@[j].channel_id@,
        decreases channels@.len() - i,
    {
        out.push(channels[i].channel_id.clone());
        i = i + 1;
    }
    out
}

/// A fresh copy of the channel list.
pub fn clone_channels(channels: &Vec<Channel>) -> (r: Vec<Channel>)
    ensures
        r@ == channels@,
{
    let mut out: Vec<Channel> = Vec::new();
    let mut i: usize = 0;
    while i < channels.len()
        invariant
            i <= channels@.len(),
            out@ =~= channels@.take(i as int),
        decreases channels@.len() - i,
    {
        out.push(channels[i].clone());
        proof {
            assert(out@ =~= channels@.take(i as int + 1));
        }
        i = i + 1;
    }
    proof {
        assert(channels@.take(channels@.len() as int) =~= channels@);
    }
    out
}

/// Each program flattened to its storage row, in order.
pub fn programs_to_rows(programs: &Vec<Program>) -> (r: Vec<ProgramRow>)
    ensures
        row_views(r@) =~= rows_of_programs(programs@),
{
    let mut out: Vec<ProgramRow> = Vec::new();
    let mut i: usize = 0;
    while i < programs.len()
        invariant
            i <= programs@.len(),
            out@.len() == i,
            forall|j: int| 0 <= j < i ==> out@[j]@ == row_view_of(#[trigger] programs@[j]@),
        decreases programs@.len() - i,
    {
        out.push(entity_to_row(&programs[i]));
        i = i + 1;
    }
    proof {
        assert forall|j: int| 0 <= j < programs@.len() implies row_views(out@)[j]
            == rows_of_programs(programs@)[j] by {
            assert(row_views(out@)[j] == out@[j]@);
            assert(program_views(programs@)[j] == programs@[j]@);
        }
    }
    out
}

/// Whether `op` is a program chunk, and its rows if so.
pub open spec fn chunk_rows_of(op: StoreOp) -> Seq<ProgramRowView> {
    match op {
        StoreOp::InsertProgramChunk(c) => row_views(c@),
        _ => Seq::<ProgramRowView>::empty(),
    }
}

/// The base feed's full-replace plan: truncate memberships, channels and
/// programs in that order, insert every base channel, record its base
/// package membership, then the program rows in order, chunked.
pub fn plan_base_load(channels: &Vec<Channel>, programs: &Vec<Program>) -> (ops: Vec<StoreOp>)
    ensures
        ops@.len() == 5 + chunk_count(programs@.len() as int),
        ops@[0] is TruncatePackages,
        ops@[1] is TruncateChannels,
        ops@[2] is TruncatePrograms,
        ops@[3] matches StoreOp::InsertChannels(cs) && cs@ == channels@,
        ops@[4] matches StoreOp::InsertPackages(ids, pkg) && id_seq(ids@) == chan_id_seq(
            channels@,
        ) && pkg@ == "ALL"@,
        forall|i: int|
            5 <= i < ops@.len() ==> chunk_rows_of(#[trigger] ops@[i]) == chunk_of(
                rows_of_programs(programs@),
                i - 5,
            ) && ops@[i] is InsertProgramChunk,
{
    let mut ops: Vec<StoreOp> = Vec::new();
    ops.push(StoreOp::TruncatePackages);
    ops.push(StoreOp::TruncateChannels);
    ops.push(StoreOp::TruncatePrograms);
    ops.push(StoreOp::InsertChannels(clone_channels(channels)));
    ops.push(StoreOp::InsertPackages(channel_id_list(channels), String::from_str("ALL")));
    let rows = programs_to_rows(programs);
    let chunks = chunk_program_rows(&rows);
    let ghost gchunks = chunks@;
    push_chunk_ops(&mut ops, chunks);
    proof {
        assert(row_views(rows@).len() == rows@.len());
        assert(rows_of_programs(programs@).len() == program_views(programs@).len());
        assert(rows@.len() == programs@.len());
        assert(gchunks.len() == chunk_count(programs@.len() as int));
        assert forall|i: int| 5 <= i < ops@.len() implies chunk_rows_of(#[trigger] ops@[i])
            == chunk_of(rows_of_programs(programs@), i - 5) && ops@[i]
            is InsertProgramChunk by {
            let j = i - 5;
            assert(chunk_rows_of(ops@[5 + j]) == row_views(gchunks[j]@));
            assert(row_views(gchunks[j]@) == chunk_of(row_views(rows@), j));
            assert(ops@[5 + j] == ops@[i]);
        }
    }
    ops
}

/// Appends one insert per chunk, in order.
fn push_chunk_ops(ops: &mut Vec<StoreOp>, chunks: Vec<Vec<ProgramRow>>)
    ensures
        final(ops)@.len() == old(ops)@.len() + chunks@.len(),
        forall|i: int| 0 <= i < old(ops)@.len() ==> final(ops)@[i] == old(ops)@[i],
        forall|j: int|
            0 <= j < chunks@.len() ==> chunk_rows_of(
                #[trigger] final(ops)@[old(ops)@.len() + j],
            ) == row_views(chunks@[j]@) && final(ops)@[old(ops)@.len() + j]
                is InsertProgramChunk,
{
    let ghost base = ops@.len() as int;
    let ghost all = chunks@;
    let mut rest = chunks;
    #[verifier::loop_isolation(false)]
    while rest.len() > 0
        invariant
            rest@.len() <= all.len(),
            rest@ == all.skip(all.len() - rest@.len()),
            ops@.len() == base + all.len() - rest@.len(),
            forall|i: int| 0 <= i < base ==> ops@[i] == old(ops)@[i],
            forall|j: int|
                0 <= j < all.len() - rest@.len() ==> chunk_rows_of(#[trigger] ops@[base + j])
                    == row_views(all[j]@) && ops@[base + j] is InsertProgramChunk,
        decreases rest.len(),
    {
        let ghost done = all.len() - rest@.len();
        let c = remove_first(&mut rest);
        proof {
            assert(all.skip(done)[0] == all[done]);
            assert(c == all[done]);
            assert(all.skip(done).subrange(1, all.skip(done).len() as int) =~= all.skip(
                done + 1,
            ));
        }
        ops.push(StoreOp::InsertProgramChunk(c));
    }
    proof {
        assert(all.len() - rest@.len() == all.len());
    }
}

/// Takes the first element out, shifting the rest forward.
fn remove_first<T>(v: &mut Vec<T>) -> (r: T)
    requires
        old(v)@.len() > 0,
    ensures
        r == old(v)@[0],
        final(v)@ == old(v)@.subrange(1, old(v)@.len() as int),
{
    let r = v.remove(0);
    proof {
        assert(v@ =~= old(v)@.subrange(1, old(v)@.len() as int));
    }
    r
}

/// A secondary feed's plan and the identity state for the next feed:
/// membership rows for the feed's already-known channels, insertion of its
/// unknown channels with their membership rows, then the rows of programs
/// on unknown channels only, chunked.
pub fn plan_secondary_load(
    known_ids: &Vec<String>,
    package: &str,
    channels: &Vec<Channel>,
    programs: &Vec<Program>,
) -> (r: (Vec<StoreOp>, Vec<String>))
    ensures
        ({
            let b = id_set(known_ids@);
            let kept = program_views(programs@).filter(keep_program(b)).map_values(
                |pv: crate::program::ProgramView| row_view_of(pv),
            );
            let ops = r.0@;
            &&& ops.len() == 3 + chunk_count(kept.len() as int)
            &&& ops[0] matches StoreOp::InsertPackages(ids, pkg) && id_seq(ids@) == chan_id_seq(
                channels@.filter(known_pred(b)),
            ) && pkg@ == package@
            &&& ops[1] matches StoreOp::InsertChannels(cs) && cs@ == channels@.filter(
                unknown_pred(b),
            )
            &&& ops[2] matches StoreOp::InsertPackages(ids, pkg) && id_seq(ids@) == chan_id_seq(
                channels@.filter(unknown_pred(b)),
            ) && pkg@ == package@
            &&& forall|i: int|
                3 <= i < ops.len() ==> chunk_rows_of(#[trigger] ops[i]) == chunk_of(kept, i - 3)
                    && ops[i] is InsertProgramChunk
            &&& id_set(r.1@) == id_set(known_ids@).union(chan_ids(channels@))
        }),
{
    let rec = reconcile_feed(known_ids, channels, programs);
    let crate::reconcile::Reconciliation { known, unknown, programs: kept, updated_ids } = rec;
    let unknown_ids = channel_id_list(&unknown);
    let rows = programs_to_rows(&kept);
    proof {
        assert(rows_of_programs(kept@) =~= program_views(programs@).filter(
            keep_program(id_set(known_ids@)),
        ).map_values(|pv: crate::program::ProgramView| row_view_of(pv)));
    }
    let mut ops: Vec<StoreOp> = Vec::new();
    ops.push(StoreOp::InsertPackages(channel_id_list(&known), String::from_str(package)));
    ops.push(StoreOp::InsertChannels(unknown));
    ops.push(StoreOp::InsertPackages(unknown_ids, String::from_str(package)));
    let chunks = chunk_program_rows(&rows);
    let ghost gchunks = chunks@;
    push_chunk_ops(&mut ops, chunks);
    proof {
        let b = id_set(known_ids@);
        let keptv = program_views(programs@).filter(keep_program(b)).map_values(
            |pv: crate::program::ProgramView| row_view_of(pv),
        );
        assert(row_views(rows@) == keptv);
        assert(row_views(rows@).len() == rows@.len());
        assert(rows@.len() == keptv.len());
        assert(gchunks.len() == chunk_count(keptv.len() as int));
        assert forall|i: int| 3 <= i < ops@.len() implies chunk_rows_of(#[trigger] ops@[i])
            == chunk_of(keptv, i - 3) && ops@[i] is InsertProgramChunk by {
            let j = i - 3;
            assert(chunk_rows_of(ops@[3 + j]) == row_views(gchunks[j]@));
            assert(row_views(gchunks[j]@) == chunk_of(row_views(rows@), j));
            assert(ops@[3 + j] == ops@[i]);
        }
    }
    (ops, updated_ids)
}

} // verus!
