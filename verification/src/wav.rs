use vstd::prelude::*;

verus! {

/// Little-endian `u16` at `at`.
pub open spec fn le16(b: Seq<u8>, at: int) -> u16 {
    (b[at] as int + 256 * (b[at + 1] as int)) as u16
}

/// Little-endian `u32` at `at`.
pub open spec fn le32(b: Seq<u8>, at: int) -> u32 {
    (b[at] as int + 256 * (b[at + 1] as int) + 65536 * (b[at + 2] as int) + 16777216 * (
    b[at + 3] as int)) as u32
}

/// The first two bytes of `b` as a little-endian `u16`, if there are two.
pub fn u16le(b: &[u8]) -> (r: Option<u16>)
    ensures
        r == if b@.len() >= 2 {
            Some(le16(b@, 0))
        } else {
            None::<u16>
        },
{
    if b.len() < 2 {
        return None;
    }
    Some(b[0] as u16 + 256 * (b[1] as u16))
}

/// The first four bytes of `b` as a little-endian `u32`, if there are four.
pub fn u32le(b: &[u8]) -> (r: Option<u32>)
    ensures
        r == if b@.len() >= 4 {
            Some(le32(b@, 0))
        } else {
            None::<u32>
        },
{
    if b.len() < 4 {
        return None;
    }
    Some(b[0] as u32 + 256 * (b[1] as u32) + 65536 * (b[2] as u32) + 16777216 * (b[3] as u32))
}

/// Layout of the sample data of a WAV file.
pub struct WavSpec {
    /// Offset of the first sample byte.
    pub data_start: u64,
    /// Bytes per frame: channels times bytes per sample.
    pub bytes_per_frame: u64,
    pub sample_rate: u32,
    /// 1 for integer PCM, 3 for IEEE float.
    pub format: u16,
    /// Bits per sample.
    pub bits: u16,
}

/// Whether the four bytes of `b` at `at` spell `tag`.
pub open spec fn tag_at(b: Seq<u8>, at: int, tag: Seq<u8>) -> bool {
    b.subrange(at, at + 4) == tag
}

/// `RIFF`, `WAVE`, `fmt ` and `data`.
pub open spec fn riff() -> Seq<u8> {
    seq![0x52u8, 0x49, 0x46, 0x46]
}

pub open spec fn wave() -> Seq<u8> {
    seq![0x57u8, 0x41, 0x56, 0x45]
}

pub open spec fn fmt_tag() -> Seq<u8> {
    seq![0x66u8, 0x6d, 0x74, 0x20]
}

pub open spec fn data_tag() -> Seq<u8> {
    seq![0x64u8, 0x61, 0x74, 0x61]
}

/// The format fields (format, channels, rate, bits) of a `fmt ` chunk at `off`.
pub open spec fn fmt_fields(b: Seq<u8>, off: int) -> (u16, u16, u32, u16) {
    (le16(b, off + 8), le16(b, off + 10), le32(b, off + 12), le16(b, off + 22))
}

/// Scan of the RIFF chunks of `head` from `off`, with `fmt` the format seen so
/// far: the layout given by the first `data` chunk.
pub open spec fn scan_chunks(head: Seq<u8>, off: int, fmt: Option<(u16, u16, u32, u16)>) -> Option<
    WavSpec,
>
    decreases (if off <= head.len() {
        head.len() - off
    } else {
        0
    }),
{
    if off < 0 || off + 8 > head.len() {
        None
    } else {
        let size = le32(head, off + 4) as int;
        let fmt2 = if tag_at(head, off, fmt_tag()) && size >= 16 && off + 24 <= head.len() {
            Some(fmt_fields(head, off))
        } else {
            fmt
        };
        if tag_at(head, off, data_tag()) {
            match fmt2 {
                None => None,
                Some(f) => {
                    let bpf = f.1 as int * (f.3 as int / 8);
                    if bpf == 0 {
                        None
                    } else {
                        Some(
                            WavSpec {
                                data_start: (off + 8) as u64,
                                bytes_per_frame: bpf as u64,
                                sample_rate: f.2,
                                format: f.0,
                                bits: f.3,
                            },
                        )
                    }
                },
            }
        } else {
            scan_chunks(head, off + 8 + size + size % 2, fmt2)
        }
    }
}

/// The sample layout described by the header bytes `head` of a WAV file.
pub open spec fn wav_layout(head: Seq<u8>) -> Option<WavSpec> {
    if head.len() < 44 || !tag_at(head, 0, riff()) || !tag_at(head, 8, wave()) {
        None
    } else {
        scan_chunks(head, 12, None)
    }
}

/// Whether the four bytes of `b` at `at` spell `tag`.
fn has_tag(b: &[u8], at: usize, tag: [u8; 4]) -> (r: bool)
    requires
        at + 4 <= b@.len(),
    ensures
        r == tag_at(b@, at as int, tag@),
{
    let r = b[at] == tag[0] && b[at + 1] == tag[1] && b[at + 2] == tag[2] && b[at + 3] == tag[3];
    assert(r == (b@.subrange(at as int, at + 4) =~= tag@));
    r
}

/// Reads the layout of the sample data from the first bytes of a WAV file:
/// a RIFF/WAVE header, then chunks up to the first `data` chunk, whose format
/// is the last complete `fmt ` chunk before it.
pub fn parse_wav_spec(head: &[u8]) -> (r: Option<WavSpec>)
    ensures
        r == wav_layout(head@),
{
    let riff_tag: [u8; 4] = [0x52, 0x49, 0x46, 0x46];
    let wave_tag: [u8; 4] = [0x57, 0x41, 0x56, 0x45];
    let fmt_t: [u8; 4] = [0x66, 0x6d, 0x74, 0x20];
    let data_t: [u8; 4] = [0x64, 0x61, 0x74, 0x61];
    assert(riff_tag@ =~= riff());
    assert(wave_tag@ =~= wave());
    assert(fmt_t@ =~= fmt_tag());
    assert(data_t@ =~= data_tag());
    if head.len() < 44 || !has_tag(head, 0, riff_tag) || !has_tag(head, 8, wave_tag) {
        return None;
    }
    let n = head.len();
    let mut fmt: Option<(u16, u16, u32, u16)> = None;
    let mut off: usize = 12;
    while n - off >= 8
        invariant
            n == head@.len(),
            12 <= off <= n,
            fmt_t@ == fmt_tag(),
            data_t@ == data_tag(),
            scan_chunks(head@, off as int, fmt) == wav_layout(head@),
        decreases n - off,
    {
        let ghost old_fmt = fmt;
        let size = u32le(&head[off + 4..off + 8]).unwrap();
        assert(head@.subrange(off + 4, off + 8 as int)[0] == head@[off + 4]);
        assert(head@.subrange(off + 4, off + 8 as int)[1] == head@[off + 5]);
        assert(head@.subrange(off + 4, off + 8 as int)[2] == head@[off + 6]);
        assert(head@.subrange(off + 4, off + 8 as int)[3] == head@[off + 7]);
        assert(size == le32(head@, off + 4));
        if has_tag(head, off, fmt_t) && size >= 16 && n - off >= 24 {
            let format = u16le(&head[off + 8..off + 10]).unwrap();
            let channels = u16le(&head[off + 10..off + 12]).unwrap();
            let rate = u32le(&head[off + 12..off + 16]).unwrap();
            let bits = u16le(&head[off + 22..off + 24]).unwrap();
            assert(head@.subrange(off + 8, off + 10 as int)[0] == head@[off + 8]);
            assert(head@.subrange(off + 8, off + 10 as int)[1] == head@[off + 9]);
            assert(head@.subrange(off + 10, off + 12 as int)[0] == head@[off + 10]);
            assert(head@.subrange(off + 12, off + 16 as int)[0] == head@[off + 12]);
            assert(head@.subrange(off + 12, off + 16 as int)[1] == head@[off + 13]);
            assert(head@.subrange(off + 12, off + 16 as int)[2] == head@[off + 14]);
            assert(head@.subrange(off + 22, off + 24 as int)[0] == head@[off + 22]);
            assert(head@.subrange(off + 10, off + 12 as int)[1] == head@[off + 11]);
            assert(head@.subrange(off + 12, off + 16 as int)[3] == head@[off + 15]);
            assert(head@.subrange(off + 22, off + 24 as int)[1] == head@[off + 23]);
            fmt = Some((format, channels, rate, bits));
        }
        assert(fmt == (if tag_at(head@, off as int, fmt_tag()) && size >= 16 && off + 24
            <= head@.len() {
            Some(fmt_fields(head@, off as int))
        } else {
            old_fmt
        }));
        if has_tag(head, off, data_t) {
            match fmt {
                None => return None,
                Some(f) => {
                    let ch = f.1 as u64;
                    let bps = f.3 as u64 / 8;
                    assert(ch * bps <= 65535 * 8191) by (nonlinear_arith)
                        requires
                            ch <= 65535,
                            bps <= 8191,
                    ;
                    let bpf: u64 = ch * bps;
                    assert(bpf as int == f.1 as int * (f.3 as int / 8));
                    if bpf == 0 {
                        return None;
                    }
                    let res = WavSpec {
                        data_start: (off + 8) as u64,
                        bytes_per_frame: bpf,
                        sample_rate: f.2,
                        format: f.0,
                        bits: f.3,
                    };
                    assert(tag_at(head@, off as int, data_tag()));
                    assert(scan_chunks(head@, off as int, old_fmt) == Some(res));
                    return Some(res);
                },
            }
        }
        let pad: usize = if size % 2 == 1 {
            1
        } else {
            0
        };
        if size as u64 + 8 + pad as u64 > (n - off) as u64 {
            assert(scan_chunks(head@, off + 8 + size + size % 2, fmt) == None::<WavSpec>);
            return None;
        }
        off = off + 8 + size as usize + pad;
    }
    None
}

/// Where the tail of the sample data lies that the level meter reads: about
/// 80 ms of frames (at least one, at most all) before the end of a file of
/// `len` bytes, as (offset, byte count). `None` for a sample format the meter
/// does not read, or when no whole frame is there yet.
pub fn tail_window(len: u64, spec: &WavSpec) -> (r: Option<(u64, u64)>)
    requires
        spec.bytes_per_frame > 0,
    ensures
        ({
            let avail = (if len >= spec.data_start {
                len - spec.data_start
            } else {
                0
            }) / (spec.bytes_per_frame as int);
            let want = if spec.sample_rate as int * 80 / 1000 >= 1 {
                spec.sample_rate as int * 80 / 1000
            } else {
                1
            };
            let frames = if want <= avail {
                want
            } else {
                avail
            };
            let readable = (spec.format == 1 || spec.format == 3) && (spec.bits == 8 || spec.bits
                == 16 || spec.bits == 24 || spec.bits == 32);
            r == if !readable || avail == 0 {
                None::<(u64, u64)>
            } else {
                Some(
                    ((len - frames * spec.bytes_per_frame) as u64, (frames
                        * spec.bytes_per_frame) as u64),
                )
            }
        }),
{
    if !(spec.format == 1 || spec.format == 3) || !(spec.bits == 8 || spec.bits == 16 || spec.bits
        == 24 || spec.bits == 32) {
        return None;
    }
    let avail = (if len >= spec.data_start {
        len - spec.data_start
    } else {
        0
    }) / spec.bytes_per_frame;
    if avail == 0 {
        return None;
    }
    let mut want = spec.sample_rate as u64 * 80 / 1000;
    if want < 1 {
        want = 1;
    }
    if want > avail {
        want = avail;
    }
    proof {
        let d: int = (if len >= spec.data_start {
            len - spec.data_start
        } else {
            0
        });
        assert(avail * spec.bytes_per_frame <= d) by (nonlinear_arith)
            requires
                avail == d / (spec.bytes_per_frame as int),
                spec.bytes_per_frame > 0,
                d >= 0,
        ;
        assert(want * spec.bytes_per_frame <= avail * spec.bytes_per_frame) by (nonlinear_arith)
            requires
                want <= avail,
        ;
    }
    let bytes = want * spec.bytes_per_frame;
    Some((len - bytes, bytes))
}


/// `|v|` as a natural number.
pub open spec fn magnitude(v: int) -> nat {
    if v < 0 {
        (-v) as nat
    } else {
        v as nat
    }
}

/// The magnitude of the sample of `bits` bits that starts at byte `at` of
/// `b`: 8-bit samples are unsigned around 128, wider ones little-endian two's
/// complement.
pub open spec fn sample_magnitude(b: Seq<u8>, at: int, bits: u16) -> nat {
    if bits == 8 {
        magnitude(b[at] - 128)
    } else if bits == 16 {
        let v = b[at] + 256 * b[at + 1];
        magnitude(
            if v >= 0x8000 {
                v - 0x1_0000
            } else {
                v
            },
        )
    } else if bits == 24 {
        let v = b[at] + 256 * b[at + 1] + 0x1_0000 * b[at + 2];
        magnitude(
            if v >= 0x80_0000 {
                v - 0x100_0000
            } else {
                v
            },
        )
    } else {
        let v = b[at] + 256 * b[at + 1] + 0x1_0000 * b[at + 2] + 0x100_0000 * b[at + 3];
        magnitude(
            if v >= 0x8000_0000 {
                v - 0x1_0000_0000
            } else {
                v
            },
        )
    }
}

/// Where sample `ch` of frame `k` starts.
pub open spec fn sample_offset(k: int, ch: int, bytes_per_frame: int, bytes_per_sample: int) -> int {
    k * bytes_per_frame + ch * bytes_per_sample
}

/// Whether `m` bounds the magnitude of every sample of the first `frames`
/// whole frames of `b`, `channels` samples each.
pub open spec fn bounds_samples(
    b: Seq<u8>,
    frames: int,
    channels: int,
    bytes_per_frame: int,
    bits: u16,
    m: nat,
) -> bool {
    forall|k: int, ch: int|
        0 <= k < frames && 0 <= ch < channels ==> sample_magnitude(
            b,
            #[trigger] sample_offset(k, ch, bytes_per_frame, (bits / 8) as int),
            bits,
        ) <= m
}

/// Whether some sample of the first `frames` whole frames of `b` has
/// magnitude `m`.
pub open spec fn has_sample(
    b: Seq<u8>,
    frames: int,
    channels: int,
    bytes_per_frame: int,
    bits: u16,
    m: nat,
) -> bool {
    exists|k: int, ch: int|
        0 <= k < frames && 0 <= ch < channels && sample_magnitude(
            b,
            #[trigger] sample_offset(k, ch, bytes_per_frame, (bits / 8) as int),
            bits,
        ) == m
}

fn magnitude_at(b: &[u8], at: usize, bits: u16) -> (r: u64)
    requires
        bits == 8 || bits == 16 || bits == 24 || bits == 32,
        at + bits / 8 <= b@.len(),
    ensures
        r == sample_magnitude(b@, at as int, bits),
{
    if bits == 8 {
        let v = b[at] as u64;
        if v >= 128 {
            v - 128
        } else {
            128 - v
        }
    } else if bits == 16 {
        let v = b[at] as u64 + 256 * b[at + 1] as u64;
        if v >= 0x8000 {
            0x1_0000 - v
        } else {
            v
        }
    } else if bits == 24 {
        let v = b[at] as u64 + 256 * b[at + 1] as u64 + 0x1_0000 * b[at + 2] as u64;
        if v >= 0x80_0000 {
            0x100_0000 - v
        } else {
            v
        }
    } else {
        let v = b[at] as u64 + 256 * b[at + 1] as u64 + 0x1_0000 * b[at + 2] as u64 + 0x100_0000
            * b[at + 3] as u64;
        if v >= 0x8000_0000 {
            0x1_0000_0000 - v
        } else {
            v
        }
    }
}

/// The loudest integer sample of the whole frames of `bytes`: the largest
/// sample magnitude, each frame holding `bytes_per_frame / (bits / 8)`
/// samples; 0 when there is none.
pub fn peak_magnitude(bytes: &[u8], bytes_per_frame: u64, bits: u16) -> (r: u64)
    requires
        bits == 8 || bits == 16 || bits == 24 || bits == 32,
        bytes_per_frame > 0,
    ensures
        bounds_samples(
            bytes@,
            (bytes@.len() as int) / (bytes_per_frame as int),
            (bytes_per_frame as int) / ((bits / 8) as int),
            bytes_per_frame as int,
            bits,
            r as nat,
        ),
        r == 0 || has_sample(
            bytes@,
            (bytes@.len() as int) / (bytes_per_frame as int),
            (bytes_per_frame as int) / ((bits / 8) as int),
            bytes_per_frame as int,
            bits,
            r as nat,
        ),
{
    let bps: u64 = (bits / 8) as u64;
    let channels: u64 = bytes_per_frame / bps;
    let frames: u64 = bytes.len() as u64 / bytes_per_frame;
    let ghost bpf = bytes_per_frame as int;
    assert(channels * bps <= bytes_per_frame) by (nonlinear_arith)
        requires
            channels == bytes_per_frame / bps,
            bps >= 1,
    ;
    assert(frames * bytes_per_frame <= bytes@.len()) by (nonlinear_arith)
        requires
            frames == (bytes@.len() as int) / (bytes_per_frame as int),
            bytes_per_frame > 0,
    ;
    let mut peak: u64 = 0;
    let mut k: u64 = 0;
    while k < frames
        invariant
            bps == bits / 8,
            1 <= bps <= 4,
            channels == bytes_per_frame / bps,
            channels * bps <= bytes_per_frame,
            frames == (bytes@.len() as int) / (bytes_per_frame as int),
            frames * bytes_per_frame <= bytes@.len(),
            bytes@.len() == bytes.len(),
            bpf == bytes_per_frame,
            bytes_per_frame > 0,
            k <= frames,
            bits == 8 || bits == 16 || bits == 24 || bits == 32,
            bounds_samples(bytes@, k as int, channels as int, bpf, bits, peak as nat),
            peak == 0 || has_sample(bytes@, k as int, channels as int, bpf, bits, peak as nat),
        decreases frames - k,
    {
        assert((k + 1) * bytes_per_frame <= frames * bytes_per_frame) by (nonlinear_arith)
            requires
                k + 1 <= frames,
        ;
        let mut ch: u64 = 0;
        while ch < channels
            invariant
                bps == bits / 8,
                1 <= bps <= 4,
                channels == bytes_per_frame / bps,
                channels * bps <= bytes_per_frame,
                frames == (bytes@.len() as int) / (bytes_per_frame as int),
                frames * bytes_per_frame <= bytes@.len(),
                (k + 1) * bytes_per_frame <= frames * bytes_per_frame,
                bytes@.len() == bytes.len(),
                bpf == bytes_per_frame,
                bytes_per_frame > 0,
                k < frames,
                ch <= channels,
                bits == 8 || bits == 16 || bits == 24 || bits == 32,
                bounds_samples(bytes@, k as int, channels as int, bpf, bits, peak as nat),
                forall|c: int|
                    0 <= c < ch ==> sample_magnitude(
                        bytes@,
                        #[trigger] sample_offset(k as int, c, bpf, (bits / 8) as int),
                        bits,
                    ) <= peak,
                peak == 0 || has_sample(bytes@, k as int, channels as int, bpf, bits, peak as nat)
                    || exists|c: int|
                    0 <= c < ch && sample_magnitude(
                        bytes@,
                        #[trigger] sample_offset(k as int, c, bpf, (bits / 8) as int),
                        bits,
                    ) == peak,
            decreases channels - ch,
        {
            assert(k * bytes_per_frame + ch * bps + bps <= bytes@.len()) by (nonlinear_arith)
                requires
                    ch + 1 <= channels,
                    channels * bps <= bytes_per_frame,
                    bps >= 1,
                    (k + 1) * bytes_per_frame <= frames * bytes_per_frame,
                    frames * bytes_per_frame <= bytes@.len(),
            ;
            let base: u64 = k * bytes_per_frame;
            let off: u64 = ch * bps;
            let at: usize = (base + off) as usize;
            assert(at == sample_offset(k as int, ch as int, bpf, (bits / 8) as int));
            let v = magnitude_at(bytes, at, bits);
            if v > peak {
                peak = v;
            }
            ch += 1;
        }
        proof {
            assert forall|kk: int, c: int|
                0 <= kk < k + 1 && 0 <= c < channels implies sample_magnitude(
                bytes@,
                #[trigger] sample_offset(kk, c, bpf, (bits / 8) as int),
                bits,
            ) <= peak by {
                if kk < k {
                } else {
                }
            }
            if peak != 0 && !has_sample(bytes@, k as int, channels as int, bpf, bits, peak as nat) {
                let c = choose|c: int|
                    0 <= c < ch && sample_magnitude(
                        bytes@,
                        #[trigger] sample_offset(k as int, c, bpf, (bits / 8) as int),
                        bits,
                    ) == peak;
                assert(sample_magnitude(bytes@, sample_offset(k as int, c, bpf, (bits / 8) as int), bits)
                    == peak);
            } else if peak != 0 {
                let (kk, c) = choose|kk: int, c: int|
                    0 <= kk < k && 0 <= c < channels && sample_magnitude(
                        bytes@,
                        #[trigger] sample_offset(kk, c, bpf, (bits / 8) as int),
                        bits,
                    ) == peak;
                assert(sample_magnitude(bytes@, sample_offset(kk, c, bpf, (bits / 8) as int), bits)
                    == peak);
            }
        }
        k += 1;
    }
    peak
}


/// The two little-endian bytes of `v`.
pub open spec fn le16_bytes(v: u16) -> Seq<u8> {
    seq![(v % 256) as u8, (v / 256) as u8]
}

/// The four little-endian bytes of `v`.
pub open spec fn le32_bytes(v: u32) -> Seq<u8> {
    seq![(v % 256) as u8, (v / 256 % 256) as u8, (v / 65536 % 256) as u8, (v / 16777216) as u8]
}

/// A WAV file as recorders write it: `RIFF`, the RIFF size, `WAVE`, a
/// 16-byte `fmt ` chunk, the `data` chunk header, then `samples`.
pub open spec fn canonical_wav(
    riff_size: u32,
    format: u16,
    channels: u16,
    rate: u32,
    byte_rate: u32,
    block_align: u16,
    bits: u16,
    data_size: u32,
    samples: Seq<u8>,
) -> Seq<u8> {
    riff() + le32_bytes(riff_size) + wave() + fmt_tag() + le32_bytes(16) + le16_bytes(format)
        + le16_bytes(channels) + le32_bytes(rate) + le32_bytes(byte_rate) + le16_bytes(
        block_align,
    ) + le16_bytes(bits) + data_tag() + le32_bytes(data_size) + samples
}

proof fn lemma_le16_bytes(b: Seq<u8>, at: int, v: u16)
    requires
        0 <= at,
        at + 2 <= b.len(),
        b.subrange(at, at + 2) == le16_bytes(v),
    ensures
        le16(b, at) == v,
{
    assert(b[at] == b.subrange(at, at + 2)[0]);
    assert(b[at + 1] == b.subrange(at, at + 2)[1]);
    assert((v % 256) as u8 as int + 256 * ((v / 256) as u8 as int) == v) by (nonlinear_arith);
}

proof fn lemma_le32_bytes(b: Seq<u8>, at: int, v: u32)
    requires
        0 <= at,
        at + 4 <= b.len(),
        b.subrange(at, at + 4) == le32_bytes(v),
    ensures
        le32(b, at) == v,
{
    assert(b[at] == b.subrange(at, at + 4)[0]);
    assert(b[at + 1] == b.subrange(at, at + 4)[1]);
    assert(b[at + 2] == b.subrange(at, at + 4)[2]);
    assert(b[at + 3] == b.subrange(at, at + 4)[3]);
    assert((v % 256) as u8 as int + 256 * ((v / 256 % 256) as u8 as int) + 65536 * ((v / 65536
        % 256) as u8 as int) + 16777216 * ((v / 16777216) as u8 as int) == v) by (nonlinear_arith);
}

/// Reading a recorder's header gives back what it wrote: the samples start
/// after the 44 header bytes, a frame holds one sample of each channel, and
/// the rate, format and sample width are those of the `fmt ` chunk. A format
/// with no whole byte per frame is refused.
#[verifier::spinoff_prover]
#[verifier::rlimit(60)]
pub proof fn lemma_canonical_wav_layout(
    riff_size: u32,
    format: u16,
    channels: u16,
    rate: u32,
    byte_rate: u32,
    block_align: u16,
    bits: u16,
    data_size: u32,
    samples: Seq<u8>,
)
    ensures
        wav_layout(
            canonical_wav(
                riff_size,
                format,
                channels,
                rate,
                byte_rate,
                block_align,
                bits,
                data_size,
                samples,
            ),
        ) == if channels as int * (bits as int / 8) == 0 {
            None::<WavSpec>
        } else {
            Some(
                WavSpec {
                    data_start: 44,
                    bytes_per_frame: (channels as int * (bits as int / 8)) as u64,
                    sample_rate: rate,
                    format,
                    bits,
                },
            )
        },
{
    let h = canonical_wav(
        riff_size,
        format,
        channels,
        rate,
        byte_rate,
        block_align,
        bits,
        data_size,
        samples,
    );
    assert(h.len() == 44 + samples.len());
    assert(h.subrange(0, 4) =~= riff());
    assert(h.subrange(8, 12) =~= wave());
    assert(h.subrange(12, 16) =~= fmt_tag());
    assert(h.subrange(16, 20) =~= le32_bytes(16));
    assert(h.subrange(20, 22) =~= le16_bytes(format));
    assert(h.subrange(22, 24) =~= le16_bytes(channels));
    assert(h.subrange(24, 28) =~= le32_bytes(rate));
    assert(h.subrange(34, 36) =~= le16_bytes(bits));
    assert(h.subrange(36, 40) =~= data_tag());
    assert(h.subrange(40, 44) =~= le32_bytes(data_size));
    lemma_le32_bytes(h, 16, 16);
    lemma_le16_bytes(h, 20, format);
    lemma_le16_bytes(h, 22, channels);
    lemma_le32_bytes(h, 24, rate);
    lemma_le16_bytes(h, 34, bits);
    lemma_le32_bytes(h, 40, data_size);
    assert(tag_at(h, 0, riff()));
    assert(tag_at(h, 8, wave()));
    assert(tag_at(h, 12, fmt_tag()));
    assert(!tag_at(h, 12, data_tag())) by {
        assert(h.subrange(12, 16)[0] != data_tag()[0]);
    }
    assert(tag_at(h, 36, data_tag()));
    assert(!tag_at(h, 36, fmt_tag())) by {
        assert(h.subrange(36, 40)[0] != fmt_tag()[0]);
    }
    assert(fmt_fields(h, 12) == (format, channels, rate, bits));
    assert(scan_chunks(h, 12, None) == scan_chunks(h, 36, Some((format, channels, rate, bits))));
}


/// A WAV file whose `fmt ` chunk declares `fmt_size` bytes: the sixteen
/// standard bytes, then `fmt_rest` (the rest of the chunk and its pad byte),
/// then the `data` chunk header and `samples`.
pub open spec fn wav_with_fmt_size(
    riff_size: u32,
    fmt_size: u32,
    format: u16,
    channels: u16,
    rate: u32,
    byte_rate: u32,
    block_align: u16,
    bits: u16,
    fmt_rest: Seq<u8>,
    data_size: u32,
    samples: Seq<u8>,
) -> Seq<u8> {
    fmt_prefix(riff_size, fmt_size, format, channels, rate, byte_rate, block_align, bits) + fmt_rest
        + data_tag() + le32_bytes(data_size) + samples
}

/// The sixteen standard bytes of a `fmt ` chunk declaring `fmt_size` bytes,
/// behind the RIFF/WAVE header and the chunk header.
#[verifier::opaque]
pub open spec fn fmt_prefix(
    riff_size: u32,
    fmt_size: u32,
    format: u16,
    channels: u16,
    rate: u32,
    byte_rate: u32,
    block_align: u16,
    bits: u16,
) -> Seq<u8> {
    riff() + le32_bytes(riff_size) + wave() + fmt_tag() + le32_bytes(fmt_size) + le16_bytes(
        format,
    ) + le16_bytes(channels) + le32_bytes(rate) + le32_bytes(byte_rate) + le16_bytes(block_align)
        + le16_bytes(bits)
}

#[verifier::spinoff_prover]
#[verifier::rlimit(60)]
proof fn lemma_fmt_prefix_fields(
    riff_size: u32,
    fmt_size: u32,
    format: u16,
    channels: u16,
    rate: u32,
    byte_rate: u32,
    block_align: u16,
    bits: u16,
)
    ensures
        ({
            let p = fmt_prefix(riff_size, fmt_size, format, channels, rate, byte_rate, block_align, bits);
            &&& p.len() == 36
            &&& tag_at(p, 0, riff())
            &&& tag_at(p, 8, wave())
            &&& tag_at(p, 12, fmt_tag())
            &&& !tag_at(p, 12, data_tag())
            &&& le32(p, 16) == fmt_size
            &&& fmt_fields(p, 12) == (format, channels, rate, bits)
        }),
{
    reveal(fmt_prefix);
    let p = fmt_prefix(riff_size, fmt_size, format, channels, rate, byte_rate, block_align, bits);
    assert(p.subrange(0, 4) =~= riff());
    assert(p.subrange(8, 12) =~= wave());
    assert(p.subrange(12, 16) =~= fmt_tag());
    assert(p.subrange(16, 20) =~= le32_bytes(fmt_size));
    assert(p.subrange(20, 22) =~= le16_bytes(format));
    assert(p.subrange(22, 24) =~= le16_bytes(channels));
    assert(p.subrange(24, 28) =~= le32_bytes(rate));
    assert(p.subrange(34, 36) =~= le16_bytes(bits));
    lemma_le32_bytes(p, 16, fmt_size);
    lemma_le16_bytes(p, 20, format);
    lemma_le16_bytes(p, 22, channels);
    lemma_le32_bytes(p, 24, rate);
    lemma_le16_bytes(p, 34, bits);
    assert(p.subrange(12, 16)[0] != data_tag()[0]);
}

/// The layout of a header whose first chunk is a `fmt ` chunk of declared
/// size at least 16 followed, after its pad byte, by the `data` chunk.
proof fn lemma_layout_after_fmt(h: Seq<u8>, d: int)
    requires
        36 <= d,
        d + 8 <= h.len(),
        tag_at(h, 0, riff()),
        tag_at(h, 8, wave()),
        tag_at(h, 12, fmt_tag()),
        !tag_at(h, 12, data_tag()),
        le32(h, 16) >= 16,
        d == 20 + le32(h, 16) + le32(h, 16) % 2,
        tag_at(h, d, data_tag()),
    ensures
        ({
            let f = fmt_fields(h, 12);
            wav_layout(h) == if f.1 as int * (f.3 as int / 8) == 0 {
                None::<WavSpec>
            } else {
                Some(
                    WavSpec {
                        data_start: (d + 8) as u64,
                        bytes_per_frame: (f.1 as int * (f.3 as int / 8)) as u64,
                        sample_rate: f.2,
                        format: f.0,
                        bits: f.3,
                    },
                )
            }
        }),
{
    assert(!tag_at(h, d, fmt_tag())) by {
        assert(h.subrange(d, d + 4)[0] == data_tag()[0]);
    }
    assert(scan_chunks(h, 12, None) == scan_chunks(h, d, Some(fmt_fields(h, 12))));
}

/// The `fmt ` chunk is skipped by its declared size, whatever that size
/// (sixteen or more, as with the 18-byte `WAVEFORMATEX`), plus its pad byte:
/// the samples start 8 bytes after the end of the chunk, and the format
/// fields are those of the chunk's first sixteen bytes.
#[verifier::spinoff_prover]
#[verifier::rlimit(60)]
pub proof fn lemma_fmt_chunk_skipped_by_size(
    riff_size: u32,
    fmt_size: u32,
    format: u16,
    channels: u16,
    rate: u32,
    byte_rate: u32,
    block_align: u16,
    bits: u16,
    fmt_rest: Seq<u8>,
    data_size: u32,
    samples: Seq<u8>,
)
    requires
        fmt_size >= 16,
        fmt_rest.len() == fmt_size - 16 + fmt_size % 2,
    ensures
        wav_layout(
            wav_with_fmt_size(
                riff_size,
                fmt_size,
                format,
                channels,
                rate,
                byte_rate,
                block_align,
                bits,
                fmt_rest,
                data_size,
                samples,
            ),
        ) == if channels as int * (bits as int / 8) == 0 {
            None::<WavSpec>
        } else {
            Some(
                WavSpec {
                    data_start: (12 + 8 + fmt_size + fmt_size % 2 + 8) as u64,
                    bytes_per_frame: (channels as int * (bits as int / 8)) as u64,
                    sample_rate: rate,
                    format,
                    bits,
                },
            )
        },
{
    let p = fmt_prefix(riff_size, fmt_size, format, channels, rate, byte_rate, block_align, bits);
    lemma_fmt_prefix_fields(riff_size, fmt_size, format, channels, rate, byte_rate, block_align, bits);
    let h = wav_with_fmt_size(
        riff_size,
        fmt_size,
        format,
        channels,
        rate,
        byte_rate,
        block_align,
        bits,
        fmt_rest,
        data_size,
        samples,
    );
    let d: int = 36 + fmt_rest.len() as int;
    assert(h.len() == d + 8 + samples.len());
    assert forall|k: int| 0 <= k < 36 implies h[k] == p[k] by {}
    assert forall|k: int| 0 <= k < 4 implies h[d + k] == data_tag()[k] by {}
    assert(h.subrange(0, 4) =~= p.subrange(0, 4));
    assert(h.subrange(8, 12) =~= p.subrange(8, 12));
    assert(h.subrange(12, 16) =~= p.subrange(12, 16));
    assert(le32(h, 16) == le32(p, 16));
    assert(fmt_fields(h, 12) == fmt_fields(p, 12));
    assert(h.subrange(d, d + 4) =~= data_tag());
    lemma_layout_after_fmt(h, d);
}

} // verus!
