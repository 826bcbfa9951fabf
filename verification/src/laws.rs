use vstd::prelude::*;

use crate::inner::spec_running_after;
use crate::runtime::{
    spec_advance_nbr, spec_clamp_u64, spec_concat_chunks, spec_full_chunks, spec_read_transition,
    spec_stream, spec_write_transition, RuntimeData,
};

verus! {

use vstd::arithmetic::div_mod::{lemma_fundamental_div_mod, lemma_fundamental_div_mod_converse};

/// Conservation of playback bytes: across any accepted write, the bytes
/// handed to the device queue plus the bytes left in the leftover buffer
/// grow by exactly the bytes the host handed in.
pub proof fn lemma_write_conserves_bytes(pre: RuntimeData, post: RuntimeData, input: Seq<u8>)
    requires
        pre.wf(),
        spec_write_transition(pre, post, input),
    ensures
        pre.chunk_bytes() * (post.sent_log@.len() - pre.sent_log@.len()) + post.leftovers_pos
            == pre.leftovers_pos + input.len(),
{
    let cb = pre.chunk_bytes();
    let s = spec_stream(pre.leftovers@, pre.leftovers_pos as int, input);
    assert(s.len() == pre.leftovers_pos + input.len());
    assert(post.sent_log@.len() - pre.sent_log@.len() == s.len() as int / cb);
    lemma_fundamental_div_mod(s.len() as int, cb);
}

/// After any accepted write the leftover buffer holds less than one
/// chunk.
pub proof fn lemma_write_keeps_leftovers_short(pre: RuntimeData, post: RuntimeData, input: Seq<u8>)
    requires
        pre.wf(),
        spec_write_transition(pre, post, input),
    ensures
        post.leftovers_pos < pre.chunk_bytes(),
{
}

/// After any successful read the leftover buffer holds less than one
/// chunk.
pub proof fn lemma_read_keeps_leftovers_short(
    pre: RuntimeData,
    post: RuntimeData,
    delta: Seq<(u64, Seq<u8>)>,
    out_pre: Seq<u8>,
    out_post: Seq<u8>,
    offset: int,
    len: int,
)
    requires
        pre.wf(),
        spec_read_transition(pre, post, delta, out_pre, out_post, offset, len),
    ensures
        post.leftovers_pos < pre.chunk_bytes(),
{
}

/// Writing `n` whole chunks plus `r` extra bytes onto empty leftovers
/// queues exactly `n` chunks and leaves exactly `r` bytes behind.
pub proof fn lemma_write_exact_chunks(
    pre: RuntimeData,
    post: RuntimeData,
    input: Seq<u8>,
    n: int,
    r: int,
)
    requires
        pre.wf(),
        pre.leftovers_pos == 0,
        spec_write_transition(pre, post, input),
        input.len() == n * pre.chunk_bytes() + r,
        0 <= r < pre.chunk_bytes(),
        0 <= n,
    ensures
        post.sent_log@.len() == pre.sent_log@.len() + n,
        post.leftovers_pos == r,
{
    let cb = pre.chunk_bytes();
    let s = spec_stream(pre.leftovers@, 0, input);
    assert(s.len() == input.len());
    lemma_fundamental_div_mod_converse(s.len() as int, cb, n, r);
}

/// A write of exactly one chunk onto empty leftovers queues one chunk
/// and leaves the leftovers empty.
pub proof fn lemma_write_one_chunk(pre: RuntimeData, post: RuntimeData, input: Seq<u8>)
    requires
        pre.wf(),
        pre.leftovers_pos == 0,
        spec_write_transition(pre, post, input),
        input.len() == pre.chunk_bytes(),
    ensures
        post.sent_log@.len() == pre.sent_log@.len() + 1,
        post.leftovers_pos == 0,
{
    lemma_write_exact_chunks(pre, post, input, 1, 0);
}

/// A write that still fits under one chunk together with the leftovers
/// only appends to the leftovers.
pub proof fn lemma_write_only_appends(pre: RuntimeData, post: RuntimeData, input: Seq<u8>)
    requires
        pre.wf(),
        spec_write_transition(pre, post, input),
        pre.leftovers_pos + input.len() < pre.chunk_bytes(),
    ensures
        post.sent_log@.len() == pre.sent_log@.len(),
        post.leftovers_pos == pre.leftovers_pos + input.len(),
{
    let cb = pre.chunk_bytes();
    let s = spec_stream(pre.leftovers@, pre.leftovers_pos as int, input);
    assert(s.len() == pre.leftovers_pos + input.len());
    lemma_fundamental_div_mod_converse(s.len() as int, cb, 0, s.len() as int);
}

/// The bytes a run of uniform whole chunks carries.
proof fn lemma_concat_len_uniform(delta: Seq<(u64, Seq<u8>)>, cb: int)
    requires
        forall|i: int| 0 <= i < delta.len() ==> (#[trigger] delta[i]).1.len() == cb,
    ensures
        spec_concat_chunks(delta).len() == delta.len() * cb,
    decreases delta.len(),
{
    if delta.len() == 0 {
    } else {
        lemma_concat_len_uniform(delta.drop_last(), cb);
        assert(delta.last() == delta[delta.len() - 1]);
        assert((delta.len() - 1) * cb + cb == delta.len() * cb) by (nonlinear_arith) {}
    }
}

/// Reading a whole number of chunks from empty leftovers dequeues
/// exactly that many chunks and leaves the leftovers empty, as long as
/// the device delivered whole chunks.
pub proof fn lemma_read_whole_chunks(
    pre: RuntimeData,
    post: RuntimeData,
    delta: Seq<(u64, Seq<u8>)>,
    out_pre: Seq<u8>,
    out_post: Seq<u8>,
    offset: int,
    n: int,
)
    requires
        pre.wf(),
        pre.leftovers_pos == 0,
        0 <= n,
        spec_read_transition(pre, post, delta, out_pre, out_post, offset, n * pre.chunk_bytes()),
        forall|i: int| 0 <= i < delta.len() ==> (#[trigger] delta[i]).1.len() == pre.chunk_bytes(),
    ensures
        delta.len() == n,
        post.leftovers_pos == 0,
{
    let cb = pre.chunk_bytes();
    lemma_concat_len_uniform(delta, cb);
    let s = pre.leftovers@.take(0) + spec_concat_chunks(delta);
    assert(s.len() == delta.len() * cb);
    assert(delta.len() * cb >= n * cb && delta.len() * cb - n * cb < cb ==> delta.len() == n)
        by (nonlinear_arith)
        requires
            cb >= 1,
            0 <= n,
    {}
}

/// Every read recycles exactly what it took: the buffers handed back to
/// the prealloc queue grow one for one with the chunks received, so the
/// inner loop's pool never starves across reads.
pub proof fn lemma_read_recycles_all(
    pre: RuntimeData,
    post: RuntimeData,
    delta: Seq<(u64, Seq<u8>)>,
    out_pre: Seq<u8>,
    out_post: Seq<u8>,
    offset: int,
    len: int,
)
    requires
        spec_read_transition(pre, post, delta, out_pre, out_post, offset, len),
    ensures
        post.recycled_total@ - pre.recycled_total@ == delta.len(),
        post.recv_log@.len() - pre.recv_log@.len() == delta.len(),
{
}

/// A start followed by a stop, with no data in between, leaves a stopped
/// stream stopped: the inner loop's stream state returns to where it
/// was.
pub proof fn lemma_start_stop_noop(running: bool)
    requires
        !running,
    ensures
        spec_running_after(spec_running_after(running, true, false), false, true) == running,
{
}

/// The expected capture chunk number never moves backwards across a
/// read.
pub proof fn lemma_chunk_nbr_monotonic(pre: RuntimeData, post: RuntimeData, delta: Seq<(u64, Seq<u8>)>)
    requires
        post.capt_last_chunk_nbr == spec_advance_nbr(
            pre.capt_last_chunk_nbr,
            pre.capt_flushed_cnt as nat,
            delta,
        ),
    ensures
        post.capt_last_chunk_nbr >= pre.capt_last_chunk_nbr,
{
    crate::runtime::lemma_advance_monotonic(
        pre.capt_last_chunk_nbr,
        pre.capt_flushed_cnt as nat,
        delta,
    );
}

/// A chunk whose number stays within one step plus the flushed count
/// advances the expected number by exactly that step: only a larger
/// number (a drop) can make it jump further.
pub proof fn lemma_chunk_nbr_no_drop(start: u64, flushed: nat, nbr: u64, data: Seq<u8>)
    requires
        nbr <= start + 1 + flushed,
        start + 1 + flushed <= u64::MAX,
    ensures
        spec_advance_nbr(start, flushed, seq![(nbr, data)]) == start + 1 + flushed,
{
    let delta = seq![(nbr, data)];
    assert(delta.first() == (nbr, data));
    assert(delta.drop_first() =~= Seq::<(u64, Seq<u8>)>::empty());
    let e = spec_clamp_u64(start + 1 + flushed);
    assert(e == start + 1 + flushed);
    assert(spec_advance_nbr(e, 0, Seq::<(u64, Seq<u8>)>::empty()) == e);
}

} // verus!
