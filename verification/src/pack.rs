//! The result packer: traces become one contiguous byte buffer and an index
//! table that says where in the buffer each trace lies.

use crate::net::{spec_state_byte, state_byte, NetState};
use vstd::prelude::*;

verus! {

/// Where one trace lies in the packed buffer: the offset of its first byte
/// and its number of entries.
#[derive(Clone, Copy, Debug, PartialEq, Eq, Structural)]
pub struct TraceIndex {
    pub offset: u32,
    pub length: u32,
}

/// The traces as mathematical sequences.
pub open spec fn trace_views(traces: Seq<Vec<NetState>>) -> Seq<Seq<NetState>> {
    Seq::new(traces.len(), |i: int| traces[i]@)
}

/// One trace as bytes, one byte per entry.
pub open spec fn spec_trace_bytes(trace: Seq<NetState>) -> Seq<u8> {
    Seq::new(trace.len(), |j: int| spec_state_byte(trace[j]))
}

/// The number of entries in all traces together.
pub open spec fn spec_total_len(traces: Seq<Seq<NetState>>) -> nat
    decreases traces.len(),
{
    if traces.len() == 0 {
        0
    } else {
        spec_total_len(traces.drop_last()) + traces.last().len()
    }
}

/// The traces as bytes, one after another in the order given.
pub open spec fn spec_pack_bytes(traces: Seq<Seq<NetState>>) -> Seq<u8>
    decreases traces.len(),
{
    if traces.len() == 0 {
        Seq::empty()
    } else {
        spec_pack_bytes(traces.drop_last()) + spec_trace_bytes(traces.last())
    }
}

/// The offset of trace `k` in the packed buffer: the number of entries in
/// the traces before it.
pub open spec fn spec_offset(traces: Seq<Seq<NetState>>, k: int) -> nat {
    spec_total_len(traces.take(k))
}

/// Whether `indices` is the index table of `traces`.
pub open spec fn is_index_table(indices: Seq<TraceIndex>, traces: Seq<Seq<NetState>>) -> bool {
    &&& indices.len() == traces.len()
    &&& forall|k: int|
        0 <= k < traces.len() ==> (#[trigger] indices[k]).offset == spec_offset(traces, k)
            && indices[k].length == traces[k].len()
}

/// The packed buffer is as long as all traces together.
pub proof fn lemma_pack_len(traces: Seq<Seq<NetState>>)
    ensures
        spec_pack_bytes(traces).len() == spec_total_len(traces),
    decreases traces.len(),
{
    if traces.len() > 0 {
        lemma_pack_len(traces.drop_last());
    }
}

/// A prefix of the traces is no longer than all of them.
pub proof fn lemma_total_len_monotonic(traces: Seq<Seq<NetState>>, k: int)
    requires
        0 <= k <= traces.len(),
    ensures
        spec_total_len(traces.take(k)) <= spec_total_len(traces),
    decreases traces.len(),
{
    if k == traces.len() {
        assert(traces.take(k) == traces);
    } else {
        assert(traces.drop_last().take(k) == traces.take(k));
        lemma_total_len_monotonic(traces.drop_last(), k);
    }
}

/// Slicing the packed buffer by an entry of the index table gives back that
/// trace's bytes, so a caller never has to walk the buffer.
pub proof fn lemma_pack_slice(traces: Seq<Seq<NetState>>, k: int)
    requires
        0 <= k < traces.len(),
    ensures
        spec_offset(traces, k) + traces[k].len() <= spec_pack_bytes(traces).len(),
        spec_pack_bytes(traces).subrange(
            spec_offset(traces, k) as int,
            (spec_offset(traces, k) + traces[k].len()) as int,
        ) == spec_trace_bytes(traces[k]),
    decreases traces.len(),
{
    let front = traces.drop_last();
    lemma_pack_len(traces);
    lemma_pack_len(front);
    if k == traces.len() - 1 {
        assert(traces.take(k) == front);
        assert(spec_pack_bytes(traces).subrange(
            spec_offset(traces, k) as int,
            (spec_offset(traces, k) + traces[k].len()) as int,
        ) == spec_trace_bytes(traces[k]));
    } else {
        lemma_pack_slice(front, k);
        assert(front.take(k) == traces.take(k));
        assert(front[k] == traces[k]);
        assert(spec_pack_bytes(traces).subrange(
            spec_offset(traces, k) as int,
            (spec_offset(traces, k) + traces[k].len()) as int,
        ) == spec_pack_bytes(front).subrange(
            spec_offset(front, k) as int,
            (spec_offset(front, k) + front[k].len()) as int,
        ));
    }
}

/// When every trace has `length` entries, the first `k` traces together
/// have `k * length`.
pub proof fn lemma_uniform_total_len(traces: Seq<Seq<NetState>>, length: nat, k: int)
    requires
        0 <= k <= traces.len(),
        forall|i: int| 0 <= i < traces.len() ==> (#[trigger] traces[i]).len() == length,
    ensures
        spec_total_len(traces.take(k)) == k * length,
    decreases k,
{
    if k == 0 {
        assert(traces.take(0).len() == 0);
    } else {
        lemma_uniform_total_len(traces, length, k - 1);
        assert(traces.take(k).drop_last() == traces.take(k - 1));
        assert(traces.take(k).last() == traces[k - 1]);
        assert(k * length == (k - 1) * length + length) by (nonlinear_arith);
    }
}

/// Packs the traces into one buffer and builds the index table.
///
/// The buffer holds the traces one after another, one byte per entry, and
/// entry `k` of the table holds the offset and the length of trace `k`.
/// Returns `None` exactly when the traces together have more entries than
/// an offset can address.
pub fn pack_traces(traces: &Vec<Vec<NetState>>) -> (packed: Option<(Vec<u8>, Vec<TraceIndex>)>)
    ensures
        packed is None <==> spec_total_len(trace_views(traces@)) > u32::MAX,
        packed matches Some(p) ==> p.0@ == spec_pack_bytes(trace_views(traces@)) && is_index_table(
            p.1@,
            trace_views(traces@),
        ),
{
    let ghost views = trace_views(traces@);
    let mut bytes: Vec<u8> = Vec::new();
    let mut indices: Vec<TraceIndex> = Vec::new();
    let mut k: usize = 0;
    while k < traces.len()
        invariant
            k <= traces.len(),
            views == trace_views(traces@),
            bytes@ == spec_pack_bytes(views.take(k as int)),
            bytes.len() == spec_total_len(views.take(k as int)),
            bytes.len() <= u32::MAX,
            indices.len() == k,
            forall|m: int|
                0 <= m < k ==> (#[trigger] indices@[m]).offset == spec_offset(views, m)
                    && indices@[m].length == views[m].len(),
        decreases traces.len() - k,
    {
        let trace = &traces[k];
        proof {
            assert(views.take(k + 1).drop_last() == views.take(k as int));
            assert(views.take(k + 1).last() == trace@);
        }
        if trace.len() > u32::MAX as usize - bytes.len() {
            proof {
                lemma_total_len_monotonic(views, k + 1);
            }
            return None;
        }
        indices.push(TraceIndex { offset: bytes.len() as u32, length: trace.len() as u32 });
        let ghost front = bytes@;
        let mut j: usize = 0;
        while j < trace.len()
            invariant
                j <= trace.len(),
                front.len() + trace.len() <= u32::MAX,
                bytes@ == front + spec_trace_bytes(trace@).take(j as int),
            decreases trace.len() - j,
        {
            bytes.push(state_byte(trace[j]));
            assert(spec_trace_bytes(trace@).take(j + 1) == spec_trace_bytes(trace@).take(
                j as int,
            ).push(spec_state_byte(trace@[j as int])));
            j += 1;
        }
        assert(spec_trace_bytes(trace@).take(j as int) == spec_trace_bytes(trace@));
        k += 1;
    }
    assert(views.take(k as int) == views);
    Some((bytes, indices))
}

} // verus!
