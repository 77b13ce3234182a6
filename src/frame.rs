use vstd::prelude::*;

use vstd::arithmetic::div_mod::{lemma_fundamental_div_mod, lemma_fundamental_div_mod_converse};

use crate::format::StreamConfig;

verus! {

/// The two bytes of a 16-bit signed sample, little-endian two's complement.
pub open spec fn sample_le(v: i16) -> Seq<u8> {
    let u: int = if v < 0 {
        v + 65536
    } else {
        v as int
    };
    seq![(u % 256) as u8, (u / 256) as u8]
}

/// Number of whole frames of `stride` bytes in a region of `len` bytes.
pub open spec fn frames_in(len: nat, stride: nat) -> nat {
    if stride == 0 {
        0
    } else {
        len / stride
    }
}

/// The region once frame `i` holds `val` in every channel slot.
pub open spec fn with_frame(region: Seq<u8>, stride: nat, i: nat, val: i16) -> Seq<u8> {
    Seq::new(
        region.len(),
        |k: int|
            if i * stride <= k < i * stride + stride {
                sample_le(val)[(k - i * stride) % 2]
            } else {
                region[k]
            },
    )
}

/// The region once every whole frame `i` holds `samples[i]` in every channel
/// slot; the bytes of a trailing partial frame stay as they were.
pub open spec fn filled(region: Seq<u8>, stride: nat, samples: Seq<i16>) -> Seq<u8> {
    Seq::new(
        region.len(),
        |k: int|
            if k < frames_in(region.len(), stride) * stride {
                sample_le(samples[k / stride as int])[(k % stride as int) % 2]
            } else {
                region[k]
            },
    )
}

/// What a filled transport buffer reports of its data: where the frames
/// start, the distance between them, and how many bytes they take.
#[derive(Clone, Copy, PartialEq, Eq, Structural, Debug)]
pub struct ChunkMeta {
    pub offset: u32,
    pub stride: i32,
    pub size: u32,
}

/// The low and the high byte of a sample.
fn sample_bytes(v: i16) -> (r: (u8, u8))
    ensures
        r.0 == sample_le(v)[0],
        r.1 == sample_le(v)[1],
{
    let u: u32 = if v < 0 {
        (v as i32 + 65536) as u32
    } else {
        v as u32
    };
    ((u % 256) as u8, (u / 256) as u8)
}

/// Number of whole frames that fit in a region of `len` bytes.
pub fn frame_count(len: usize, config: &StreamConfig) -> (n: usize)
    requires
        config.wf(),
    ensures
        n == frames_in(len as nat, config.stride_spec()),
{
    let stride = config.stride();
    (len as u64 / stride) as usize
}

/// Writes `val` into every channel slot of frame `i`; nothing else changes.
pub fn write_frame(region: &mut [u8], config: &StreamConfig, i: usize, val: i16)
    requires
        config.wf(),
        (i + 1) * config.stride_spec() <= old(region)@.len(),
    ensures
        final(region)@ == with_frame(old(region)@, config.stride_spec(), i as nat, val),
{
    let ghost s: nat = config.stride_spec();
    let ghost start: Seq<u8> = region@;
    let len = region.len();
    let stride = config.stride();
    proof {
        assert((i + 1) * s == i * s + s) by (nonlinear_arith);
        assert(i * s <= len);
    }
    let base: usize = (i as u64 * stride) as usize;
    let (lo, hi) = sample_bytes(val);
    let mut c: u32 = 0;
    while c < config.channel_count
        invariant
            config.wf(),
            s == config.stride_spec(),
            c <= config.channel_count,
            base == i * s,
            base + s <= start.len(),
            start.len() == len,
            lo == sample_le(val)[0],
            hi == sample_le(val)[1],
            region@ == Seq::new(
                start.len(),
                |k: int|
                    if base <= k < base + 2 * c {
                        sample_le(val)[(k - base) % 2]
                    } else {
                        start[k]
                    },
            ),
        decreases config.channel_count - c,
    {
        let off: usize = base + 2 * (c as usize);
        region[off] = lo;
        region[off + 1] = hi;
        c = c + 1;
        assert(region@ =~= Seq::new(
            start.len(),
            |k: int|
                if base <= k < base + 2 * c {
                    sample_le(val)[(k - base) % 2]
                } else {
                    start[k]
                },
        ));
    }
    assert(region@ =~= with_frame(start, s, i as nat, val));
}

/// Frame `i` spans bytes `i * stride .. i * stride + stride`: each of them
/// lies in frame `i`, at offset `k - i * stride` within it.
proof fn lemma_position_in_frame(k: int, stride: nat, i: int)
    requires
        stride > 0,
        i >= 0,
        i * stride <= k < i * stride + stride,
    ensures
        k / stride as int == i,
        k % stride as int == k - i * stride,
{
    lemma_fundamental_div_mod_converse(k, stride as int, i, k - i * stride);
}

/// A fill writes `floor(len / stride)` whole frames and leaves every byte
/// after the last whole frame as it was.
pub proof fn lemma_trailing_bytes_kept(region: Seq<u8>, stride: nat, samples: Seq<i16>)
    requires
        stride > 0,
    ensures
        frames_in(region.len(), stride) == region.len() / stride,
        frames_in(region.len(), stride) * stride <= region.len(),
        region.len() < (frames_in(region.len(), stride) + 1) * stride,
        filled(region, stride, samples).len() == region.len(),
        forall|k: int|
            frames_in(region.len(), stride) * stride <= k < region.len() ==> #[trigger] filled(
                region,
                stride,
                samples,
            )[k] == region[k],
{
    let len = region.len() as int;
    let st = stride as int;
    let n = len / st;
    lemma_fundamental_div_mod(len, st);
    assert(n * st <= len && len < (n + 1) * st) by (nonlinear_arith)
        requires
            len == st * n + len % st,
            0 <= len % st < st,
    ;
}

/// In every whole frame that a fill writes, each channel slot holds the
/// same two bytes: the frame's sample, little-endian.
pub proof fn lemma_channels_replicated(
    region: Seq<u8>,
    channel_count: nat,
    samples: Seq<i16>,
    i: nat,
    c: nat,
)
    requires
        channel_count > 0,
        i < frames_in(region.len(), 2 * channel_count),
        c < channel_count,
    ensures
        ({
            let s = 2 * channel_count;
            let f = filled(region, s, samples);
            let k: int = (i * s + 2 * c) as int;
            f[k] == sample_le(samples[i as int])[0] && f[k + 1] == sample_le(samples[i as int])[1]
                && f.subrange(k, k + 2) == sample_le(samples[i as int])
        }),
{
    let s = 2 * channel_count;
    let n = frames_in(region.len(), s);
    let k: int = (i * s + 2 * c) as int;
    assert((i + 1) * s <= n * s) by (nonlinear_arith)
        requires
            i + 1 <= n,
    ;
    assert((i + 1) * s == i * s + s) by (nonlinear_arith);
    lemma_trailing_bytes_kept(region, s, samples);
    lemma_position_in_frame(k, s, i as int);
    lemma_position_in_frame(k + 1, s, i as int);
    let f = filled(region, s, samples);
    assert(f.subrange(k, k + 2) =~= sample_le(samples[i as int]));
}

/// Filling two regions one after the other, the second with the samples
/// that follow those of the first, gives the same bytes as one fill of the
/// two regions joined, when the first holds whole frames only.
pub proof fn lemma_fills_concatenate(
    a: Seq<u8>,
    b: Seq<u8>,
    stride: nat,
    first: Seq<i16>,
    second: Seq<i16>,
)
    requires
        stride > 0,
        a.len() % stride == 0,
        first.len() >= frames_in(a.len(), stride),
        second.len() >= frames_in(b.len(), stride),
    ensures
        filled(a, stride, first) + filled(b, stride, second) == filled(
            a + b,
            stride,
            first.take(frames_in(a.len(), stride) as int) + second,
        ),
{
    let s = stride as int;
    let la = a.len() as int;
    let lb = b.len() as int;
    let ma = la / s;
    let fb = lb / s;
    let joined = first.take(ma) + second;
    lemma_fundamental_div_mod(la, s);
    lemma_fundamental_div_mod(lb, s);
    assert(la == ma * s) by (nonlinear_arith)
        requires
            la == s * ma + la % s,
            la % s == 0,
    ;
    assert((ma + fb) * s == ma * s + fb * s) by (nonlinear_arith);
    lemma_fundamental_div_mod_converse(la + lb, s, ma + fb, lb % s);
    assert(frames_in((a + b).len(), stride) == ma + fb);
    let lhs = filled(a, stride, first) + filled(b, stride, second);
    let rhs = filled(a + b, stride, joined);
    assert forall|k: int| 0 <= k < la + lb implies #[trigger] lhs[k] == rhs[k] by {
        lemma_fundamental_div_mod(k, s);
        if k < la {
            let q = k / s;
            assert(q < ma) by (nonlinear_arith)
                requires
                    k == s * q + k % s,
                    0 <= k % s,
                    k < la,
                    la == ma * s,
                    s > 0,
            ;
            assert(q >= 0) by (nonlinear_arith)
                requires
                    k == s * q + k % s,
                    k % s < s,
                    k >= 0,
                    s > 0,
            ;
            assert(joined[q] == first[q]);
        } else {
            let k2 = k - la;
            lemma_fundamental_div_mod(k2, s);
            let q2 = k2 / s;
            let r2 = k2 % s;
            assert(k == (ma + q2) * s + r2) by (nonlinear_arith)
                requires
                    k == la + k2,
                    k2 == s * q2 + r2,
                    la == ma * s,
            ;
            assert(q2 >= 0) by (nonlinear_arith)
                requires
                    k2 == s * q2 + r2,
                    r2 < s,
                    k2 >= 0,
                    s > 0,
            ;
            lemma_fundamental_div_mod_converse(k, s, ma + q2, r2);
            if k2 < fb * s {
                assert(q2 < fb) by (nonlinear_arith)
                    requires
                        k2 == s * q2 + r2,
                        0 <= r2,
                        k2 < fb * s,
                        s > 0,
                ;
                assert(joined[ma + q2] == second[q2]);
            }
        }
    }
    assert(lhs =~= rhs);
}

/// Fills every whole frame of `region`, frame `i` with `samples[i]` in each
/// channel slot, and returns the number of frames written: the region's
/// length divided by the stride, rounded down. The bytes of a trailing
/// partial frame are left as they were.
pub fn write_frames(region: &mut [u8], config: &StreamConfig, samples: &[i16]) -> (n: usize)
    requires
        config.wf(),
        samples@.len() >= frames_in(old(region)@.len(), config.stride_spec()),
    ensures
        n == frames_in(old(region)@.len(), config.stride_spec()),
        final(region)@ == filled(old(region)@, config.stride_spec(), samples@),
{
    let ghost s: nat = config.stride_spec();
    let ghost start: Seq<u8> = region@;
    let n = frame_count(region.len(), config);
    proof {
        lemma_fundamental_div_mod(start.len() as int, s as int);
        assert(n * s <= start.len()) by (nonlinear_arith)
            requires
                n == start.len() as int / s as int,
                start.len() as int == s * (start.len() as int / s as int) + start.len() as int % s as int,
                start.len() as int % s as int >= 0,
        ;
    }
    let mut i: usize = 0;
    while i < n
        invariant
            config.wf(),
            s == config.stride_spec(),
            i <= n,
            n == frames_in(start.len(), s),
            n * s <= start.len(),
            samples@.len() >= n,
            region@ == Seq::new(
                start.len(),
                |k: int|
                    if k < i * s {
                        sample_le(samples@[k / s as int])[(k % s as int) % 2]
                    } else {
                        start[k]
                    },
            ),
        decreases n - i,
    {
        proof {
            assert((i + 1) * s <= n * s) by (nonlinear_arith)
                requires
                    i + 1 <= n,
            ;
            assert((i + 1) * s == i * s + s) by (nonlinear_arith);
        }
        write_frame(region, config, i, samples[i]);
        proof {
            assert forall|k: int| i * s <= k < i * s + s implies #[trigger] (k / s as int) == i && k % s as int
                == k - i * s by {
                lemma_position_in_frame(k, s, i as int);
            }
        }
        i = i + 1;
        assert(region@ =~= Seq::new(
            start.len(),
            |k: int|
                if k < i * s {
                    sample_le(samples@[k / s as int])[(k % s as int) % 2]
                } else {
                    start[k]
                },
        ));
    }
    assert(region@ =~= filled(start, s, samples@));
    n
}

/// The chunk metadata after `frames` frames were written: offset 0, the
/// configuration's stride, and `stride * frames` bytes; `None` where the
/// stride does not fit an `i32` or the size a `u32`.
pub fn chunk_meta(config: &StreamConfig, frames: usize) -> (r: Option<ChunkMeta>)
    requires
        config.wf(),
    ensures
        r is Some <==> config.stride_spec() <= i32::MAX && config.stride_spec() * frames
            <= u32::MAX,
        r is Some ==> r->Some_0 == (ChunkMeta {
            offset: 0,
            stride: config.stride_spec() as i32,
            size: (config.stride_spec() * frames) as u32,
        }),
{
    let stride = config.stride();
    if stride > i32::MAX as u64 {
        return None;
    }
    if frames as u64 > u32::MAX as u64 / stride {
        proof {
            let m = u32::MAX as int;
            let st = stride as int;
            let q = m / st;
            lemma_fundamental_div_mod(m, st);
            assert(st * frames > m) by (nonlinear_arith)
                requires
                    frames >= q + 1,
                    m == st * q + m % st,
                    m % st < st,
            ;
        }
        return None;
    }
    proof {
        let m = u32::MAX as int;
        let st = stride as int;
        let q = m / st;
        lemma_fundamental_div_mod(m, st);
        assert(st * frames <= m) by (nonlinear_arith)
            requires
                frames <= q,
                m == st * q + m % st,
                m % st >= 0,
                st > 0,
        ;
    }
    let size = stride * frames as u64;
    Some(ChunkMeta { offset: 0, stride: stride as i32, size: size as u32 })
}

} // verus!
