use vstd::prelude::*;

use crate::errors::{DeviceError, ErrorKind, Res};

verus! {

use vstd::arithmetic::div_mod::{
    lemma_fundamental_div_mod,
    lemma_div_nonincreasing,
    lemma_div_non_zero,
    lemma_div_is_ordered,
    lemma_small_mod,
    lemma_mod_self_0,
};

/// Euclid's greatest common divisor.
pub open spec fn spec_gcd(x: nat, y: nat) -> nat
    decreases y,
{
    if y == 0 {
        x
    } else {
        spec_gcd(y, x % y)
    }
}

pub open spec fn spec_lcm(a: nat, b: nat) -> nat {
    a * b / spec_gcd(a, b)
}

proof fn lemma_gcd_pos(x: nat, y: nat)
    requires
        x >= 1,
    ensures
        spec_gcd(x, y) >= 1,
    decreases y,
{
    if y != 0 {
        lemma_gcd_pos(y, x % y);
    }
}

/// Lowest common multiple of two positive numbers.
pub fn lcm(n1: usize, n2: usize) -> (r: usize)
    requires
        1 <= n1,
        1 <= n2,
        n1 * n2 <= usize::MAX,
    ensures
        r == spec_lcm(n1 as nat, n2 as nat),
        n1 * n2 >= r >= 1,
{
    let (x0, y0) = if n1 > n2 {
        (n1, n2)
    } else {
        (n2, n1)
    };
    proof {
        // The two orders of arguments give the same divisor chain after
        // one step.
        if n1 < n2 {
            lemma_small_mod(n1 as nat, n2 as nat);
            assert(spec_gcd(n1 as nat, n2 as nat) == spec_gcd(n2 as nat, n1 as nat));
        } else if n1 == n2 {
            lemma_mod_self_0(n1 as int);
            assert(spec_gcd(n1 as nat, n2 as nat) == spec_gcd(n2 as nat, 0));
            assert(spec_gcd(n2 as nat, n1 as nat) == spec_gcd(n1 as nat, 0));
        }
    }
    let mut x = x0;
    let mut y = y0;
    let mut rem = x % y;
    while rem != 0
        invariant
            1 <= y <= x,
            y <= y0,
            y0 <= n2,
            rem == x % y,
            spec_gcd(x as nat, y as nat) == spec_gcd(x0 as nat, y0 as nat),
        decreases y,
    {
        x = y;
        y = rem;
        rem = x % y;
    }
    proof {
        assert(spec_gcd(x as nat, y as nat) == spec_gcd(y as nat, (x % y) as nat));
        assert(spec_gcd(y as nat, 0) == y as nat);
        assert(spec_gcd(n1 as nat, n2 as nat) == y as nat);
        lemma_gcd_pos(x0 as nat, y0 as nat);
        lemma_div_nonincreasing((n1 * n2) as int, y as int);
        assert(n1 * n2 >= n2) by (nonlinear_arith)
            requires
                n1 >= 1,
                n2 >= 0,
        {}
        lemma_div_non_zero((n1 * n2) as int, y as int);
    }
    n1 * n2 / y
}

/// The byte granularity one device period must align to: frames, and for
/// small channel counts also the 128-byte blocks of Intel HDA.
pub open spec fn spec_align_bytes(frame_bytes: nat, channels: nat) -> nat {
    if channels <= 16 {
        spec_lcm(frame_bytes, 128)
    } else {
        frame_bytes
    }
}

/// `num / den` rounded to the nearest whole number, halves up.
pub open spec fn spec_round_ratio(num: int, den: int) -> int {
    (2 * num + den) / (2 * den)
}

pub open spec fn spec_approx_period(min_period: int) -> int {
    if min_period < 300_000 {
        300_000
    } else {
        min_period
    }
}

/// The device period the opener asks for, in 100 ns ticks: roughly 30 ms,
/// rounded to a whole number of alignment segments, and never below the
/// device's minimum.
pub open spec fn spec_aligned_period(min_period: int, align_bytes: int, rate: int) -> int {
    let segments = spec_round_ratio(spec_approx_period(min_period) * rate, align_bytes * 10_000_000);
    let p = spec_round_ratio(segments * (align_bytes * 10_000_000), rate);
    if p < min_period {
        p + (align_bytes * 10_000_000) / rate
    } else {
        p
    }
}

/// Computes the exclusive-mode device period (§ device opening): around
/// 30 ms, aligned to whole frames and, up to 16 channels, to the least
/// common multiple of the frame size and 128 bytes.
pub fn compute_period(min_period_ns00: i64, frame_bytes: usize, channels: usize, rate: usize) -> (period: i64)
    requires
        1 <= frame_bytes <= 65536,
        1 <= rate <= 0x4000_0000,
        0 <= min_period_ns00 <= 0x100_0000_0000,
    ensures
        period == spec_aligned_period(
            min_period_ns00 as int,
            spec_align_bytes(frame_bytes as nat, channels as nat) as int,
            rate as int,
        ),
{
    let align_bytes: usize = if channels <= 16 {
        lcm(frame_bytes, 128)
    } else {
        frame_bytes
    };
    assert(1 <= align_bytes <= 0x800000);
    let approx: i64 = if min_period_ns00 < 300_000 {
        300_000
    } else {
        min_period_ns00
    };
    let ab: u128 = align_bytes as u128;
    let rt: u128 = rate as u128;
    let ap: u128 = approx as u128;
    let den: u128 = ab * 10_000_000;
    proof {
        assert(ap * rt <= 0x100_0000_0000 * 0x4000_0000) by (nonlinear_arith)
            requires
                0 <= ap <= 0x100_0000_0000,
                0 <= rt <= 0x4000_0000,
        {}
    }
    let prod: u128 = ap * rt;
    let num1: u128 = 2 * prod + den;
    let segments: u128 = num1 / (2 * den);
    proof {
        lemma_fundamental_div_mod(num1 as int, (2 * den) as int);
        assert((2 * den) * (segments as int) <= num1);
        assert(segments * den <= prod + den) by (nonlinear_arith)
            requires
                (2 * den) * (segments as int) <= 2 * prod + den,
                1 <= den,
                0 <= segments,
                0 <= prod,
        {}
    }
    let sprod: u128 = segments * den;
    let num2: u128 = 2 * sprod + rt;
    let p0: u128 = num2 / (2 * rt);
    proof {
        lemma_fundamental_div_mod(num2 as int, (2 * rt) as int);
        assert((2 * rt) * (p0 as int) <= num2);
        assert(p0 <= ap + den + 1) by (nonlinear_arith)
            requires
                (2 * rt) * (p0 as int) <= 2 * (ap * rt + den) + rt,
                1 <= rt,
                0 <= p0,
                0 <= ap,
                0 <= den,
        {}
    }
    let p0_i: i64 = p0 as i64;
    if p0_i < min_period_ns00 {
        let add: u128 = den / rt;
        proof {
            lemma_div_nonincreasing(den as int, rt as int);
        }
        p0_i + (add as i64)
    } else {
        p0_i
    }
}

/// The estimated frames per device chunk for a rate and period, and the
/// number of chunks the interthread buffer can hold for it.
pub open spec fn spec_chunk_frames_estimate(rate: int, period: int) -> int {
    rate * period / 10_000_000
}

/// Sizes the interthread buffering: how many frames one device chunk will
/// roughly hold, and how many whole chunks fit into the byte budget the
/// host gave. A period so short that no whole frame fits in it cannot be
/// buffered and is refused.
pub fn compute_buffer_geometry(rate: usize, period: i64, frame_bytes: usize, buffer_bytes: usize) -> (r: Res<
    (usize, usize)>)
    requires
        1 <= rate <= 0x4000_0000,
        1 <= frame_bytes,
        0 < period <= 0x2_0000_0000_0000,
    ensures
        r matches Err(e) ==> e.kind == ErrorKind::ClientInit,
        r is Err <==> (spec_chunk_frames_estimate(rate as int, period as int) == 0
            || spec_chunk_frames_estimate(rate as int, period as int) > usize::MAX),
        r matches Ok(g) ==> g.0 == spec_chunk_frames_estimate(rate as int, period as int) && g.1
            == (buffer_bytes / frame_bytes) / g.0,
{
    let rt: u128 = rate as u128;
    let pd: u128 = period as u128;
    proof {
        assert(rt * pd <= 0x4000_0000 * 0x2_0000_0000_0000) by (nonlinear_arith)
            requires
                0 <= rt <= 0x4000_0000,
                0 <= pd <= 0x2_0000_0000_0000,
        {}
        lemma_div_is_ordered(
            (rt * pd) as int,
            0x4000_0000int * 0x2_0000_0000_0000int,
            10_000_000int,
        );
    }
    let est128: u128 = (rt * pd) / 10_000_000;
    if est128 == 0 {
        return Err(DeviceError::with_kind(ErrorKind::ClientInit, "device period holds no frame"));
    }
    if est128 > usize::MAX as u128 {
        return Err(
            DeviceError::with_kind(ErrorKind::ClientInit, "device period beyond addressable size"),
        );
    }
    let est: usize = est128 as usize;
    let chunks: usize = (buffer_bytes / frame_bytes) / est;
    Ok((est, chunks))
}

/// Bytes to preallocate per capture chunk: one and a half times the
/// estimate, headroom for the real chunk size the device settles on.
pub fn prealloc_chunk_bytes(est_chunk_frames: usize, frame_bytes: usize) -> (r: usize)
    requires
        1 <= frame_bytes,
        3 * est_chunk_frames * frame_bytes <= usize::MAX,
    ensures
        r == 3 * est_chunk_frames * frame_bytes / 2,
{
    proof {
        assert(3 * est_chunk_frames <= 3 * est_chunk_frames * frame_bytes) by (nonlinear_arith)
            requires
                1 <= frame_bytes,
                0 <= est_chunk_frames,
        {}
    }
    3 * est_chunk_frames * frame_bytes / 2
}

/// COM's "already initialized" answer to initializing an apartment.
pub const S_FALSE_CODE: u32 = 1;

/// COM's "initialized before in another mode" answer.
pub const RPC_E_CHANGED_MODE_CODE: u32 = 0x8001_0106;

/// Whether an apartment-initialization result code still lets the thread
/// use the audio client: success, or one of the two already-initialized
/// answers, which are success in another guise.
pub fn apartment_init_recoverable(code: u32) -> (ok: bool)
    ensures
        ok <==> (code == 0 || code == S_FALSE_CODE || code == RPC_E_CHANGED_MODE_CODE),
{
    code == 0 || code == S_FALSE_CODE || code == RPC_E_CHANGED_MODE_CODE
}

} // verus!
