//! PWG-Raster body codec: run-length encoding of one scanline, and the
//! band layer that folds runs of identical adjacent scanlines into a single
//! encoded scanline with a repeat count.
//!
//! A scanline is a sequence of packets. Each packet opens with a signed count
//! byte `n`: for `n >= 0` the packet repeats one pixel `n + 1` times; for
//! `n < 0` it carries `-n + 1` distinct literal pixels. The encoder scans the
//! row right to left to settle, for each position, whether the greedy choice
//! is a same-colour run or a literal run, then emits packets left to right.
use vstd::prelude::*;

use crate::color::SrgbColor;
use crate::error::IppError;
use vstd::pervasive::unreached;

verus! {

/// The three bytes of one pixel on the wire.
pub open spec fn pixel_bytes(c: SrgbColor) -> Seq<u8> {
    seq![c.r, c.g, c.b]
}

/// The bytes of `n` consecutive pixels of `row` starting at `x`.
pub open spec fn pixels_bytes(row: Seq<SrgbColor>, x: int, n: int) -> Seq<u8>
    decreases n,
{
    if n <= 0 {
        Seq::empty()
    } else {
        pixel_bytes(row[x]) + pixels_bytes(row, x + 1, n - 1)
    }
}

/// The greedy signed count chosen for position `x`: positive when the pixel
/// opens a same-colour run, negative when it joins a literal run, computed
/// from the count at `x + 1` exactly as the right-to-left scan does, with
/// runs capped at 127 and literals floored at -128.
pub open spec fn comm_at(row: Seq<SrgbColor>, x: int) -> int
    decreases row.len() - x,
{
    if x + 1 >= row.len() {
        0
    } else if row[x + 1] == row[x] {
        if comm_at(row, x + 1) < 0 {
            1
        } else if comm_at(row, x + 1) == 127 {
            0
        } else {
            comm_at(row, x + 1) + 1
        }
    } else {
        if comm_at(row, x + 1) > 0 {
            0
        } else if comm_at(row, x + 1) <= -128 {
            0
        } else {
            comm_at(row, x + 1) - 1
        }
    }
}

/// The wire form of a signed count: its low byte in two's complement.
pub open spec fn count_byte(c: int) -> u8 {
    if c >= 0 {
        c as u8
    } else {
        (c + 256) as u8
    }
}

/// How many pixels the packet that opens at `x` covers.
pub open spec fn packet_advance(row: Seq<SrgbColor>, x: int) -> int {
    if comm_at(row, x) >= 0 {
        comm_at(row, x) + 1
    } else {
        1 - comm_at(row, x)
    }
}

/// The bytes of the packet that opens at `x`.
pub open spec fn packet_bytes(row: Seq<SrgbColor>, x: int) -> Seq<u8> {
    if comm_at(row, x) >= 0 {
        seq![count_byte(comm_at(row, x))] + pixel_bytes(row[x])
    } else {
        seq![count_byte(comm_at(row, x))] + pixels_bytes(row, x, packet_advance(row, x))
    }
}

/// The run-length encoding of the scanline suffix that starts at `x`.
pub open spec fn spec_encode_row_from(row: Seq<SrgbColor>, x: int) -> Seq<u8>
    decreases row.len() - x,
{
    if x < 0 || x >= row.len() {
        Seq::empty()
    } else {
        let adv = packet_advance(row, x);
        let next = if x + adv <= row.len() {
            x + adv
        } else {
            row.len() as int
        };
        packet_bytes(row, x) + spec_encode_row_from(row, next)
    }
}

/// The run-length encoding of one whole scanline.
pub open spec fn spec_encode_row(row: Seq<SrgbColor>) -> Seq<u8> {
    spec_encode_row_from(row, 0)
}

/// The greedy count always fits a signed byte, and never reaches past the
/// end of the row.
pub proof fn lemma_comm_bounds(row: Seq<SrgbColor>, x: int)
    requires
        0 <= x < row.len(),
    ensures
        -128 <= comm_at(row, x) <= 127,
        packet_advance(row, x) >= 1,
        x + packet_advance(row, x) <= row.len(),
    decreases row.len() - x,
{
    if x + 1 < row.len() {
        lemma_comm_bounds(row, x + 1);
    }
}

/// A non-negative count at `x` means the whole run it covers is one colour.
pub proof fn lemma_comm_run(row: Seq<SrgbColor>, x: int)
    requires
        0 <= x < row.len(),
        comm_at(row, x) >= 0,
    ensures
        forall|i: int| x <= i <= x + comm_at(row, x) ==> row[i] == row[x],
    decreases row.len() - x,
{
    if x + 1 < row.len() && row[x + 1] == row[x] && comm_at(row, x + 1) >= 0 && comm_at(row, x + 1)
        != 127 {
        lemma_comm_run(row, x + 1);
    }
}

/// Appending one more pixel to a pixel block.
pub proof fn lemma_pixels_bytes_snoc(row: Seq<SrgbColor>, x: int, n: int)
    requires
        n >= 0,
    ensures
        pixels_bytes(row, x, n + 1) =~= pixels_bytes(row, x, n) + pixel_bytes(row[x + n]),
    decreases n,
{
    if n == 0 {
        assert(pixels_bytes(row, x + 1, 0) == Seq::<u8>::empty());
        assert(pixels_bytes(row, x, 0) == Seq::<u8>::empty());
        assert(pixels_bytes(row, x, 1) =~= pixels_bytes(row, x, 0) + pixel_bytes(row[x]));
    } else {
        lemma_pixels_bytes_snoc(row, x + 1, n - 1);
        assert(pixels_bytes(row, x, n + 1) =~= pixel_bytes(row[x]) + pixels_bytes(row, x + 1, n));
        assert(pixels_bytes(row, x, n) == pixel_bytes(row[x]) + pixels_bytes(row, x + 1, n - 1));
    }
}

/// A pixel block is three bytes per pixel.
pub proof fn lemma_pixels_bytes_len(row: Seq<SrgbColor>, x: int, n: int)
    requires
        n >= 0,
    ensures
        pixels_bytes(row, x, n).len() == 3 * n,
    decreases n,
{
    if n > 0 {
        lemma_pixels_bytes_len(row, x + 1, n - 1);
    }
}

/// The bytes of pixel `k` inside a pixel block.
pub proof fn lemma_pixels_bytes_index(row: Seq<SrgbColor>, x: int, n: int, k: int)
    requires
        0 <= k < n,
    ensures
        pixels_bytes(row, x, n).len() == 3 * n,
        pixels_bytes(row, x, n)[3 * k] == row[x + k].r,
        pixels_bytes(row, x, n)[3 * k + 1] == row[x + k].g,
        pixels_bytes(row, x, n)[3 * k + 2] == row[x + k].b,
    decreases k,
{
    lemma_pixels_bytes_len(row, x, n);
    lemma_pixels_bytes_len(row, x + 1, n - 1);
    if k > 0 {
        lemma_pixels_bytes_index(row, x + 1, n - 1, k - 1);
    }
}

/// The encoder writes at most four bytes per pixel of the suffix.
pub proof fn lemma_encode_row_len(row: Seq<SrgbColor>, x: int)
    requires
        0 <= x <= row.len(),
    ensures
        spec_encode_row_from(row, x).len() <= 4 * (row.len() - x),
    decreases row.len() - x,
{
    if x < row.len() {
        lemma_comm_bounds(row, x);
        let adv = packet_advance(row, x);
        lemma_encode_row_len(row, x + adv);
        if comm_at(row, x) < 0 {
            lemma_pixels_bytes_len(row, x, adv);
        }
    }
}

/// Run-length encode one scanline into `out`, exactly as
/// [`spec_encode_row`] describes, and return the number of bytes written.
///
/// The row must not be empty: an empty scanline has no packets, and callers
/// are expected never to hand one in.
fn do_encode_row_bytes(out: &mut Vec<u8>, row: &Vec<SrgbColor>) -> (written: usize)
    requires
        row@.len() >= 1,
    ensures
        final(out)@ == old(out)@ + spec_encode_row(row@),
        written == spec_encode_row(row@).len(),
{
    let n: usize = row.len();
    let start_len: usize = out.len();
    let ghost out0 = out@;

    // Right-to-left scan: comm[x] is the greedy signed count for position x.
    let mut comm: Vec<i16> = Vec::new();
    let mut fill: usize = 0;
    while fill < n
        invariant
            comm@.len() == fill,
            fill <= n,
            forall|j: int| 0 <= j < fill ==> comm@[j] == 0i16,
        decreases n - fill,
    {
        comm.push(0i16);
        fill = fill + 1;
    }

    let mut x: usize = n - 1;
    while x > 0
        invariant
            n == row@.len(),
            comm@.len() == n,
            n >= 1,
            x <= n - 1,
            forall|j: int| x <= j < n ==> comm@[j] as int == comm_at(row@, j),
        decreases x,
    {
        let xm = x - 1;
        proof {
            lemma_comm_bounds(row@, x as int);
        }
        let next = comm[x];
        let c: i16 = if row[x] == row[xm] {
            if next < 0 {
                1
            } else if next == 127 {
                0
            } else {
                next + 1
            }
        } else {
            if next > 0 {
                0
            } else if next <= -128 {
                0
            } else {
                next - 1
            }
        };
        comm.set(xm, c);
        x = xm;
    }

    // Left-to-right emission, one packet per iteration.
    let mut x: usize = 0;
    while x < n
        invariant
            n == row@.len(),
            n >= 1,
            comm@.len() == n,
            x <= n,
            out@.len() >= out0.len(),
            forall|j: int| 0 <= j < n ==> comm@[j] as int == comm_at(row@, j),
            out@ + spec_encode_row_from(row@, x as int) == out0 + spec_encode_row(row@),
        decreases n - x,
    {
        proof {
            lemma_comm_bounds(row@, x as int);
        }
        let ghost x_spec = x as int;
        let ghost out_start = out@;
        let c = comm[x];
        let cb: u8 = if c >= 0 {
            c as u8
        } else {
            (c + 256) as u8
        };
        assert(cb == count_byte(comm_at(row@, x_spec)));
        out.push(cb);
        if c < 0 {
            let m: usize = ((-c) as usize) + 1;
            assert(m == packet_advance(row@, x_spec));
            let mut i: usize = 0;
            while i < m
                invariant
                    n == row@.len(),
                    i <= m,
                    x + m <= n,
                    x < n,
                    m == packet_advance(row@, x as int),
                    out@ == out_start + seq![count_byte(comm_at(row@, x as int))] + pixels_bytes(
                        row@,
                        x as int,
                        i as int,
                    ),
                decreases m - i,
            {
                let ghost before = out@;
                let p = row[x + i];
                out.push(p.r);
                out.push(p.g);
                out.push(p.b);
                proof {
                    lemma_pixels_bytes_snoc(row@, x as int, i as int);
                    assert(out@ =~= before + pixel_bytes(row@[x as int + i as int]));
                    assert(out@ =~= out_start + seq![count_byte(comm_at(row@, x as int))]
                        + pixels_bytes(row@, x as int, i as int + 1));
                }
                i = i + 1;
            }
            x = x + m;
        } else {
            let p = row[x];
            out.push(p.r);
            out.push(p.g);
            out.push(p.b);
            assert(out@ =~= out_start + seq![count_byte(comm_at(row@, x_spec))] + pixel_bytes(
                row@[x_spec],
            ));
            x = x + (c as usize) + 1;
        }
        proof {
            assert(out@ =~= out_start + packet_bytes(row@, x_spec));
            assert(spec_encode_row_from(row@, x_spec) == packet_bytes(row@, x_spec)
                + spec_encode_row_from(row@, x as int));
            assert(out@ + spec_encode_row_from(row@, x as int) =~= out_start
                + spec_encode_row_from(row@, x_spec));
        }
    }
    assert(out@ =~= out0 + spec_encode_row(row@));
    out.len() - start_len
}

/// What decoding packets from position `i` of `bytes` produces, until `need`
/// pixels have materialised: the pixels and the position after the last
/// packet read. `None` when the input runs dry first. A packet that would
/// overshoot `need` is truncated: a run stops repeating early, a literal run
/// stops being read early.
pub open spec fn spec_decode_row_from(bytes: Seq<u8>, i: int, need: int) -> Option<
    (Seq<SrgbColor>, int),
>
    decreases need,
{
    if need <= 0 {
        Some((Seq::empty(), i))
    } else if i < 0 || i >= bytes.len() {
        None
    } else {
        let cb = bytes[i] as int;
        if cb < 128 {
            if i + 4 > bytes.len() {
                None
            } else {
                let c = SrgbColor { r: bytes[i + 1], g: bytes[i + 2], b: bytes[i + 3] };
                let take = if cb + 1 <= need {
                    cb + 1
                } else {
                    need
                };
                match spec_decode_row_from(bytes, i + 4, need - take) {
                    Some(rest) => Some((Seq::new(take as nat, |k: int| c) + rest.0, rest.1)),
                    None => None,
                }
            }
        } else {
            let m = 257 - cb;
            let take = if m <= need {
                m
            } else {
                need
            };
            if i + 1 + 3 * take > bytes.len() {
                None
            } else {
                let lits = Seq::new(
                    take as nat,
                    |k: int|
                        SrgbColor {
                            r: bytes[i + 1 + 3 * k],
                            g: bytes[i + 2 + 3 * k],
                            b: bytes[i + 3 + 3 * k],
                        },
                );
                match spec_decode_row_from(bytes, i + 1 + 3 * take, need - take) {
                    Some(rest) => Some((lits + rest.0, rest.1)),
                    None => None,
                }
            }
        }
    }
}

/// Decoding one whole scanline of `width` pixels from position `start`.
pub open spec fn spec_decode_row(bytes: Seq<u8>, start: int, width: int) -> Option<
    (Seq<SrgbColor>, int),
> {
    spec_decode_row_from(bytes, start, width)
}

/// Pixels already produced, prepended to what decoding still yields.
pub open spec fn with_prefix(acc: Seq<SrgbColor>, o: Option<(Seq<SrgbColor>, int)>) -> Option<
    (Seq<SrgbColor>, int),
> {
    match o {
        None => None,
        Some(rest) => Some((acc + rest.0, rest.1)),
    }
}

/// Decoding is translation invariant: packets read after a fixed prefix are
/// the packets of the suffix, at shifted positions.
pub proof fn lemma_decode_shift(b1: Seq<u8>, b2: Seq<u8>, i: int, need: int)
    requires
        i >= 0,
    ensures
        spec_decode_row_from(b1 + b2, b1.len() + i, need) == match spec_decode_row_from(
            b2,
            i,
            need,
        ) {
            None => None::<(Seq<SrgbColor>, int)>,
            Some(rest) => Some((rest.0, rest.1 + b1.len())),
        },
    decreases need,
{
    let all = b1 + b2;
    if need <= 0 {
    } else if i >= b2.len() {
        assert(b1.len() + i >= all.len());
    } else {
        let cb = b2[i] as int;
        assert(all[b1.len() + i] == b2[i]);
        if cb < 128 {
            if i + 4 <= b2.len() {
                assert(all[b1.len() + i + 1] == b2[i + 1]);
                assert(all[b1.len() + i + 2] == b2[i + 2]);
                assert(all[b1.len() + i + 3] == b2[i + 3]);
                let take = if cb + 1 <= need {
                    cb + 1
                } else {
                    need
                };
                lemma_decode_shift(b1, b2, i + 4, need - take);
            }
        } else {
            let m = 257 - cb;
            let take = if m <= need {
                m
            } else {
                need
            };
            if i + 1 + 3 * take <= b2.len() {
                lemma_decode_shift(b1, b2, i + 1 + 3 * take, need - take);
                let lits_all = Seq::new(
                    take as nat,
                    |k: int|
                        SrgbColor {
                            r: all[b1.len() + i + 1 + 3 * k],
                            g: all[b1.len() + i + 2 + 3 * k],
                            b: all[b1.len() + i + 3 + 3 * k],
                        },
                );
                let lits_b2 = Seq::new(
                    take as nat,
                    |k: int|
                        SrgbColor {
                            r: b2[i + 1 + 3 * k],
                            g: b2[i + 2 + 3 * k],
                            b: b2[i + 3 + 3 * k],
                        },
                );
                assert(lits_all =~= lits_b2);
            }
        }
    }
}

/// Decoding what the scanline encoder wrote from position `x` on yields the
/// scanline suffix back, consuming the encoding exactly.
pub proof fn lemma_row_round_trip_from(row: Seq<SrgbColor>, x: int)
    requires
        0 <= x <= row.len(),
    ensures
        spec_decode_row_from(spec_encode_row_from(row, x), 0, row.len() - x) == Some(
            (row.skip(x), spec_encode_row_from(row, x).len() as int),
        ),
    decreases row.len() - x,
{
    if x == row.len() {
        assert(row.skip(x) =~= Seq::empty());
    } else {
        lemma_comm_bounds(row, x);
        let c = comm_at(row, x);
        let adv = packet_advance(row, x);
        let head = packet_bytes(row, x);
        let rest = spec_encode_row_from(row, x + adv);
        let enc = spec_encode_row_from(row, x);
        assert(enc == head + rest);
        let need = row.len() - x;
        lemma_row_round_trip_from(row, x + adv);
        if c >= 0 {
            assert(head.len() == 4);
            assert(enc[0] == count_byte(c));
            assert(enc[0] as int == c);
            assert(enc[1] == row[x].r && enc[2] == row[x].g && enc[3] == row[x].b);
            lemma_decode_shift(head, rest, 0, need - adv);
            lemma_comm_run(row, x);
            let c0 = SrgbColor { r: enc[1], g: enc[2], b: enc[3] };
            assert(c0 == row[x]);
            assert(Seq::new(adv as nat, |k: int| c0) + row.skip(x + adv) =~= row.skip(x));
        } else {
            let m = adv;
            lemma_pixels_bytes_len(row, x, m);
            assert(head.len() == 1 + 3 * m);
            assert(enc[0] == count_byte(c));
            assert(enc[0] as int == c + 256);
            assert(257 - (c + 256) == m);
            lemma_decode_shift(head, rest, 0, need - adv);
            let lits = Seq::new(
                m as nat,
                |k: int|
                    SrgbColor {
                        r: enc[0 + 1 + 3 * k],
                        g: enc[0 + 2 + 3 * k],
                        b: enc[0 + 3 + 3 * k],
                    },
            );
            assert forall|k: int| 0 <= k < m implies lits[k] == row[x + k] by {
                lemma_pixels_bytes_index(row, x, m, k);
                assert(enc[1 + 3 * k] == head[1 + 3 * k]);
                assert(head[1 + 3 * k] == pixels_bytes(row, x, m)[3 * k]);
                assert(enc[2 + 3 * k] == pixels_bytes(row, x, m)[3 * k + 1]);
                assert(enc[3 + 3 * k] == pixels_bytes(row, x, m)[3 * k + 2]);
            }
            assert(lits + row.skip(x + adv) =~= row.skip(x));
        }
    }
}

/// Scanline round trip: decoding what the encoder wrote yields the scanline
/// back, and consumes exactly the bytes the encoder wrote.
pub proof fn lemma_rle_round_trip(row: Seq<SrgbColor>)
    ensures
        spec_decode_row(spec_encode_row(row), 0, row.len() as int) == Some(
            (row, spec_encode_row(row).len() as int),
        ),
{
    lemma_row_round_trip_from(row, 0);
    assert(row.skip(0) =~= row);
}

/// Decode one scanline of `width` pixels from `data`, starting at byte
/// `start`, exactly as [`spec_decode_row`] describes. Returns the pixels and
/// the position just past the last packet read; an input that runs dry is an
/// I/O error.
pub fn decode_row(data: &Vec<u8>, start: usize, width: usize) -> (r: Result<
    (Vec<SrgbColor>, usize),
    IppError,
>)
    ensures
        match r {
            Ok(p) => spec_decode_row(data@, start as int, width as int) == Some(
                (p.0@, p.1 as int),
            ) && p.0@.len() == width,
            Err(e) => spec_decode_row(data@, start as int, width as int) is None && e
                == IppError::Io,
        },
{
    let ghost full = spec_decode_row_from(data@, start as int, width as int);
    let mut acc: Vec<SrgbColor> = Vec::new();
    let mut i: usize = start;
    let mut need: usize = width;
    while need > 0
        invariant
            need <= width,
            acc@.len() == width - need,
            full == spec_decode_row_from(data@, start as int, width as int),
            with_prefix(acc@, spec_decode_row_from(data@, i as int, need as int)) == full,
        decreases need,
    {
        let ghost acc0 = acc@;
        let ghost i0 = i as int;
        let ghost need0 = need as int;
        if i >= data.len() {
            proof {
                assert(spec_decode_row_from(data@, i as int, need as int) is None);
                assert(spec_decode_row_from(data@, start as int, width as int) is None);
            }
            return Err(IppError::Io);
        }
        let cb = data[i];
        if cb < 128 {
            if data.len() - i < 4 {
                proof {
                    assert(spec_decode_row_from(data@, i as int, need as int) is None);
                    assert(spec_decode_row_from(data@, start as int, width as int) is None);
                }
                return Err(IppError::Io);
            }
            let c = SrgbColor { r: data[i + 1], g: data[i + 2], b: data[i + 3] };
            let t = (cb as usize) + 1;
            let take = if t <= need {
                t
            } else {
                need
            };
            let mut k: usize = 0;
            while k < take
                invariant
                    k <= take,
                    acc@ == acc0 + Seq::new(k as nat, |j: int| c),
                decreases take - k,
            {
                let ghost before = acc@;
                acc.push(c);
                proof {
                    assert(acc@ =~= acc0 + Seq::new((k + 1) as nat, |j: int| c));
                }
                k = k + 1;
            }
            i = i + 4;
            need = need - take;
            proof {
                let o = spec_decode_row_from(data@, i as int, need as int);
                match o {
                    Some(rest) => {
                        assert(acc@ + rest.0 =~= acc0 + (Seq::new(take as nat, |j: int| c)
                            + rest.0));
                    },
                    None => {},
                }
            }
        } else {
            let m: usize = 257 - (cb as usize);
            let take = if m <= need {
                m
            } else {
                need
            };
            if data.len() - (i + 1) < 3 * take {
                proof {
                    assert(i0 + 1 + 3 * (take as int) > data@.len());
                    assert(spec_decode_row_from(data@, i as int, need as int) is None);
                    assert(spec_decode_row_from(data@, start as int, width as int) is None);
                }
                return Err(IppError::Io);
            }
            let mut k: usize = 0;
            while k < take
                invariant
                    k <= take,
                    i + 1 + 3 * take <= data@.len(),
                    data@.len() <= usize::MAX,
                    i == i0,
                    take <= need0,
                    acc@ == acc0 + Seq::new(
                        k as nat,
                        |j: int|
                            SrgbColor {
                                r: data@[i0 + 1 + 3 * j],
                                g: data@[i0 + 2 + 3 * j],
                                b: data@[i0 + 3 * j + 3],
                            },
                    ),
                decreases take - k,
            {
                let p = SrgbColor {
                    r: data[i + 1 + 3 * k],
                    g: data[i + 2 + 3 * k],
                    b: data[i + 3 + 3 * k],
                };
                acc.push(p);
                proof {
                    assert(acc@ =~= acc0 + Seq::new(
                        (k + 1) as nat,
                        |j: int|
                            SrgbColor {
                                r: data@[i0 + 1 + 3 * j],
                                g: data@[i0 + 2 + 3 * j],
                                b: data@[i0 + 3 * j + 3],
                            },
                    ));
                }
                k = k + 1;
            }
            i = i + 1 + 3 * take;
            need = need - take;
            proof {
                let lits = Seq::new(
                    take as nat,
                    |j: int|
                        SrgbColor {
                            r: data@[i0 + 1 + 3 * j],
                            g: data@[i0 + 2 + 3 * j],
                            b: data@[i0 + 3 * j + 3],
                        },
                );
                let lits_spec = Seq::new(
                    take as nat,
                    |j: int|
                        SrgbColor {
                            r: data@[i0 + 1 + 3 * j],
                            g: data@[i0 + 2 + 3 * j],
                            b: data@[i0 + 3 + 3 * j],
                        },
                );
                assert(lits =~= lits_spec);
                let o = spec_decode_row_from(data@, i as int, need as int);
                match o {
                    Some(rest) => {
                        assert(acc@ + rest.0 =~= acc0 + (lits_spec + rest.0));
                    },
                    None => {},
                }
            }
        }
    }
    proof {
        assert(acc@ + Seq::<SrgbColor>::empty() =~= acc@);
    }
    Ok((acc, i))
}

/// What decoding bands from position `i` of `bytes` produces, until
/// `remaining` scanlines have materialised: each band is a repeat-count byte
/// (one less than the number of rows it stands for) followed by one encoded
/// scanline, replicated. A band that would overshoot the page is truncated.
pub open spec fn spec_decode_bands(bytes: Seq<u8>, i: int, width: int, remaining: int) -> Option<
    (Seq<Seq<SrgbColor>>, int),
>
    decreases remaining,
{
    if remaining <= 0 {
        Some((Seq::empty(), i))
    } else if i < 0 || i >= bytes.len() {
        None
    } else {
        let reps0 = bytes[i] as int + 1;
        let reps = if reps0 <= remaining {
            reps0
        } else {
            remaining
        };
        match spec_decode_row_from(bytes, i + 1, width) {
            None => None,
            Some(rowp) => match spec_decode_bands(bytes, rowp.1, width, remaining - reps) {
                None => None,
                Some(rest) => Some((Seq::new(reps as nat, |k: int| rowp.0) + rest.0, rest.1)),
            },
        }
    }
}

/// Copy a scanline.
fn clone_row(v: &Vec<SrgbColor>) -> (r: Vec<SrgbColor>)
    ensures
        r@ == v@,
{
    let mut r: Vec<SrgbColor> = Vec::new();
    let mut k: usize = 0;
    while k < v.len()
        invariant
            k <= v@.len(),
            r@ == v@.subrange(0, k as int),
        decreases v@.len() - k,
    {
        r.push(v[k]);
        proof {
            assert(r@ =~= v@.subrange(0, k as int + 1));
        }
        k = k + 1;
    }
    proof {
        assert(r@ =~= v@);
    }
    r
}

/// Decode `height` scanlines of `width` pixels from the band-encoded body
/// that starts at byte `start` of `data`, exactly as [`spec_decode_bands`]
/// describes. Returns the scanlines, top to bottom, and the position just
/// past the last band read.
pub fn decode_bands(data: &Vec<u8>, start: usize, width: usize, height: usize) -> (r: Result<
    (Vec<Vec<SrgbColor>>, usize),
    IppError,
>)
    ensures
        match r {
            Ok(p) => {
                &&& spec_decode_bands(data@, start as int, width as int, height as int) matches
                    Some(sp)
                &&& sp.1 == p.1 as int
                &&& sp.0.len() == p.0@.len()
                &&& forall|k: int| 0 <= k < p.0@.len() ==> p.0@[k]@ == sp.0[k]
            },
            Err(e) => spec_decode_bands(data@, start as int, width as int, height as int) is None
                && e == IppError::Io,
        },
{
    let mut acc: Vec<Vec<SrgbColor>> = Vec::new();
    let ghost mut acc_view: Seq<Seq<SrgbColor>> = Seq::empty();
    let mut i: usize = start;
    let mut remaining: usize = height;
    while remaining > 0
        invariant
            remaining <= height,
            acc_view.len() == acc@.len(),
            forall|k: int| 0 <= k < acc@.len() ==> acc@[k]@ == acc_view[k],
            (match spec_decode_bands(data@, i as int, width as int, remaining as int) {
                None => spec_decode_bands(data@, start as int, width as int, height as int) is None,
                Some(rest) => spec_decode_bands(data@, start as int, width as int, height as int)
                    == Some::<(Seq<Seq<SrgbColor>>, int)>((acc_view + rest.0, rest.1)),
            }),
        decreases remaining,
    {
        let ghost acc_view0 = acc_view;
        if i >= data.len() {
            return Err(IppError::Io);
        }
        let reps0 = (data[i] as usize) + 1;
        let reps = if reps0 <= remaining {
            reps0
        } else {
            remaining
        };
        let (row, next) = match decode_row(data, i + 1, width) {
            Ok(p) => p,
            Err(e) => {
                return Err(IppError::Io);
            },
        };
        let mut k: usize = 0;
        while k < reps
            invariant
                k <= reps,
                acc_view.len() == acc@.len(),
                acc_view == acc_view0 + Seq::new(k as nat, |j: int| row@),
                forall|j: int| 0 <= j < acc@.len() ==> acc@[j]@ == acc_view[j],
            decreases reps - k,
        {
            let copy = clone_row(&row);
            acc.push(copy);
            proof {
                acc_view = acc_view.push(row@);
                assert(acc_view =~= acc_view0 + Seq::new((k + 1) as nat, |j: int| row@));
            }
            k = k + 1;
        }
        i = next;
        remaining = remaining - reps;
        proof {
            let o = spec_decode_bands(data@, i as int, width as int, remaining as int);
            match o {
                Some(rest) => {
                    assert(acc_view + rest.0 =~= acc_view0 + (Seq::new(
                        reps as nat,
                        |j: int| row@,
                    ) + rest.0));
                },
                None => {},
            }
        }
    }
    proof {
        assert(acc_view + Seq::<Seq<SrgbColor>>::empty() =~= acc_view);
    }
    Ok((acc, i))
}

/// Whether two scanlines hold the same pixels.
pub fn rows_equal(a: &Vec<SrgbColor>, b: &Vec<SrgbColor>) -> (r: bool)
    ensures
        r <==> a@ == b@,
{
    if a.len() != b.len() {
        return false;
    }
    let mut j: usize = 0;
    while j < a.len()
        invariant
            j <= a@.len(),
            a@.len() == b@.len(),
            forall|k: int| 0 <= k < j ==> a@[k] == b@[k],
        decreases a@.len() - j,
    {
        if a[j].r != b[j].r || a[j].g != b[j].g || a[j].b != b[j].b {
            return false;
        }
        j = j + 1;
    }
    proof {
        assert(a@ =~= b@);
    }
    true
}

/// The abstract state of the band encoder: the page geometry, the scanline a
/// band is currently being collected for, how many scanlines have been taken
/// in, and how many repeats of the collected scanline are pending.
pub struct EncoderModel {
    pub width: int,
    pub height: int,
    pub prev: Option<Seq<SrgbColor>>,
    pub written: int,
    pub pending: int,
}

/// A flushed band: the repeat-count byte, then the scanline's encoding.
pub open spec fn band_flush_bytes(pending: int, prow: Seq<SrgbColor>) -> Seq<u8> {
    seq![pending as u8] + spec_encode_row(prow)
}

/// One step of the band layer. A first scanline is only collected; a
/// scanline equal to the collected one bumps the pending repeat count while
/// the band stays below 128 rows; any other scanline flushes the collected
/// band and starts a new one. After the step that completes the page, the
/// final band is flushed unconditionally.
pub open spec fn spec_step(m: EncoderModel, row: Seq<SrgbColor>) -> (EncoderModel, Seq<u8>) {
    let stepped = if m.prev is None {
        (
            EncoderModel {
                width: m.width,
                height: m.height,
                prev: Some(row),
                written: m.written + 1,
                pending: 0,
            },
            Seq::<u8>::empty(),
        )
    } else if m.prev.unwrap() == row && m.pending < 127 {
        (
            EncoderModel {
                width: m.width,
                height: m.height,
                prev: m.prev,
                written: m.written + 1,
                pending: m.pending + 1,
            },
            Seq::<u8>::empty(),
        )
    } else {
        (
            EncoderModel {
                width: m.width,
                height: m.height,
                prev: Some(row),
                written: m.written + 1,
                pending: 0,
            },
            band_flush_bytes(m.pending, m.prev.unwrap()),
        )
    };
    if stepped.0.written == m.height {
        (
            (EncoderModel {
                width: stepped.0.width,
                height: stepped.0.height,
                prev: stepped.0.prev,
                written: stepped.0.written,
                pending: 0,
            }),
            stepped.1 + band_flush_bytes(stepped.0.pending, stepped.0.prev.unwrap()),
        )
    } else {
        stepped
    }
}

/// How many consecutive scanlines equal to `rows[i]` start at `i`.
pub open spec fn run_len(rows: Seq<Seq<SrgbColor>>, i: int) -> int
    decreases rows.len() - i,
{
    if i + 1 >= rows.len() || rows[i + 1] != rows[i] {
        1
    } else {
        1 + run_len(rows, i + 1)
    }
}

/// The greedy band decomposition of the scanlines from `i` on: each band
/// covers the longest run of identical scanlines, capped at 128 rows, and
/// is one repeat-count byte followed by the scanline's encoding.
pub open spec fn spec_bands_from(rows: Seq<Seq<SrgbColor>>, i: int) -> Seq<u8>
    decreases rows.len() - i,
{
    if i < 0 || i >= rows.len() {
        Seq::empty()
    } else {
        let r = run_len(rows, i);
        let k0 = if r <= 128 {
            r
        } else {
            128
        };
        let k1 = if k0 < 1 {
            1
        } else {
            k0
        };
        let k = if k1 <= rows.len() - i {
            k1
        } else {
            rows.len() - i
        };
        seq![(k - 1) as u8] + spec_encode_row(rows[i]) + spec_bands_from(rows, i + k)
    }
}

/// A run never reaches past the end of the scanlines.
proof fn lemma_run_len_bound(rows: Seq<Seq<SrgbColor>>, i: int)
    requires
        0 <= i < rows.len(),
    ensures
        1 <= run_len(rows, i) <= rows.len() - i,
    decreases rows.len() - i,
{
    if i + 1 < rows.len() && rows[i + 1] == rows[i] {
        lemma_run_len_bound(rows, i + 1);
    }
}

/// Scanlines `j` to `y` all equal to `rows[j]`.
pub open spec fn all_equal(rows: Seq<Seq<SrgbColor>>, j: int, y: int) -> bool {
    forall|k: int| j <= k < y ==> rows[k] == rows[j]
}

/// A run of equal scanlines ended by a different one (or the end of the
/// page) has exactly that length.
proof fn lemma_run_len_exact(rows: Seq<Seq<SrgbColor>>, j: int, y: int)
    requires
        0 <= j < y <= rows.len(),
        all_equal(rows, j, y),
        y == rows.len() || rows[y] != rows[j],
    ensures
        run_len(rows, j) == y - j,
    decreases y - j,
{
    if j + 1 == y {
        if y < rows.len() {
            assert(rows[j + 1] != rows[j]);
        }
    } else {
        assert(rows[j + 1] == rows[j]);
        assert(all_equal(rows, j + 1, y)) by {
            assert(forall|k: int| j + 1 <= k < y ==> rows[k] == rows[j]);
        }
        if y < rows.len() {
            assert(rows[y] != rows[j + 1]);
        }
        lemma_run_len_exact(rows, j + 1, y);
    }
}

/// The band layer emits the greedy band decomposition: starting mid-band at
/// scanline `y`, with the band opened at scanline `j` still pending, the
/// remaining output is the band decomposition from `j` on.
proof fn lemma_step_bands(rows: Seq<Seq<SrgbColor>>, j: int, y: int, m: EncoderModel)
    requires
        0 <= j < y <= rows.len() - 1,
        y - j <= 128,
        all_equal(rows, j, y),
        m.height == rows.len(),
        m.written == y,
        m.prev == Some(rows[j]),
        m.pending == y - j - 1,
    ensures
        crate::pwgraster::spec_encode_image_from(m, rows, y) == spec_bands_from(rows, j),
    decreases rows.len() - y,
{
    let row = rows[y];
    let stepped = spec_step(m, row);
    lemma_run_len_bound(rows, j);
    if row == rows[j] && m.pending < 127 {
        // the band grows
        if y + 1 == rows.len() {
            // final flush: the band is everything that is left
            assert(all_equal(rows, j, y + 1));
            lemma_run_len_exact(rows, j, y + 1);
            assert(spec_bands_from(rows, y + 1) == Seq::<u8>::empty());
            assert(crate::pwgraster::spec_encode_image_from(stepped.0, rows, y + 1) == Seq::<
                u8,
            >::empty());
            assert(stepped.1 =~= spec_bands_from(rows, j));
            assert(crate::pwgraster::spec_encode_image_from(m, rows, y) =~= spec_bands_from(
                rows,
                j,
            ));
        } else {
            assert(all_equal(rows, j, y + 1));
            lemma_step_bands(rows, j, y + 1, stepped.0);
            assert(stepped.1 =~= Seq::<u8>::empty());
            assert(crate::pwgraster::spec_encode_image_from(m, rows, y) =~= spec_bands_from(
                rows,
                j,
            ));
        }
    } else {
        // the pending band is flushed: it ends here, either because the
        // next scanline differs or because it reached the 128-row cap
        if row == rows[j] {
            assert(m.pending == 127 && y - j == 128);
            assert(run_len(rows, j) >= 128) by {
                lemma_run_len_min(rows, j, y);
            }
        } else {
            lemma_run_len_exact(rows, j, y);
        }
        let flushed = band_flush_bytes(m.pending, rows[j]);
        assert(spec_bands_from(rows, j) == flushed + spec_bands_from(rows, y)) by {
            assert((y - j - 1) as u8 == m.pending as u8);
        }
        if y + 1 == rows.len() {
            // the new band holds the last scanline alone and is flushed too
            lemma_run_len_exact(rows, y, y + 1);
            assert(spec_bands_from(rows, y + 1) == Seq::<u8>::empty());
            assert(spec_bands_from(rows, y) =~= seq![0u8] + spec_encode_row(rows[y]));
            assert(stepped.1 =~= flushed + (seq![0u8] + spec_encode_row(rows[y])));
            assert(crate::pwgraster::spec_encode_image_from(stepped.0, rows, y + 1) == Seq::<
                u8,
            >::empty());
            assert(crate::pwgraster::spec_encode_image_from(m, rows, y) =~= spec_bands_from(
                rows,
                j,
            ));
        } else {
            assert(all_equal(rows, y, y + 1));
            lemma_step_bands(rows, y, y + 1, stepped.0);
            assert(stepped.1 =~= flushed);
            assert(crate::pwgraster::spec_encode_image_from(m, rows, y) =~= spec_bands_from(
                rows,
                j,
            ));
        }
    }
}

/// Equal scanlines keep the run going at least that long.
proof fn lemma_run_len_min(rows: Seq<Seq<SrgbColor>>, j: int, y: int)
    requires
        0 <= j < y <= rows.len(),
        all_equal(rows, j, y),
    ensures
        run_len(rows, j) >= y - j,
    decreases y - j,
{
    lemma_run_len_bound(rows, j);
    if j + 1 < y {
        assert(rows[j + 1] == rows[j]);
        assert(all_equal(rows, j + 1, y));
        lemma_run_len_min(rows, j + 1, y);
    }
}

/// The whole-image band theorem: feeding the scanlines of a page through
/// the band layer, from a fresh encoder, emits exactly the greedy band
/// decomposition — the longest runs of identical scanlines, capped at 128
/// rows, each encoded once with its repeat count.
pub proof fn lemma_image_encodes_greedy_bands(rows: Seq<Seq<SrgbColor>>, width: int)
    requires
        rows.len() >= 1,
    ensures
        crate::pwgraster::spec_encode_image_from(
            crate::pwgraster::initial_encoder(width, rows.len() as int),
            rows,
            0,
        ) == spec_bands_from(rows, 0),
{
    let m0 = crate::pwgraster::initial_encoder(width, rows.len() as int);
    let stepped = spec_step(m0, rows[0]);
    if rows.len() == 1 {
        lemma_run_len_exact(rows, 0, 1);
        assert(spec_bands_from(rows, 1) == Seq::<u8>::empty());
        assert(crate::pwgraster::spec_encode_image_from(stepped.0, rows, 1) == Seq::<u8>::empty());
        assert(stepped.1 =~= spec_bands_from(rows, 0));
        assert(crate::pwgraster::spec_encode_image_from(m0, rows, 0) =~= spec_bands_from(rows, 0));
    } else {
        assert(all_equal(rows, 0, 1));
        lemma_step_bands(rows, 0, 1, stepped.0);
        assert(stepped.1 =~= Seq::<u8>::empty());
        assert(crate::pwgraster::spec_encode_image_from(m0, rows, 0) =~= spec_bands_from(rows, 0));
    }
}

/// A run covers only scanlines equal to its first.
proof fn lemma_run_len_all_equal(rows: Seq<Seq<SrgbColor>>, j: int, y: int)
    requires
        0 <= j < rows.len(),
        j < y <= j + run_len(rows, j),
    ensures
        all_equal(rows, j, y),
    decreases y - j,
{
    if j + 1 < y {
        assert(rows[j + 1] == rows[j]);
        lemma_run_len_all_equal(rows, j + 1, y);
    }
}

/// The position a successful scanline decode returns never moves backwards.
proof fn lemma_decode_row_pos(bytes: Seq<u8>, i: int, need: int)
    requires
        i >= 0,
    ensures
        (match spec_decode_row_from(bytes, i, need) {
            Some(p) => p.1 >= i,
            None => true,
        }),
    decreases need,
{
    if need > 0 && i < bytes.len() {
        let cb = bytes[i] as int;
        if cb < 128 {
            let take = if cb + 1 <= need {
                cb + 1
            } else {
                need
            };
            lemma_decode_row_pos(bytes, i + 4, need - take);
        } else {
            let m = 257 - cb;
            let take = if m <= need {
                m
            } else {
                need
            };
            lemma_decode_row_pos(bytes, i + 1 + 3 * take, need - take);
        }
    }
}

/// Extending the buffer does not change a decode that already fits in it.
proof fn lemma_decode_extend(b: Seq<u8>, ext: Seq<u8>, i: int, need: int)
    requires
        i >= 0,
    ensures
        (match spec_decode_row_from(b, i, need) {
            Some(p) => spec_decode_row_from(b + ext, i, need) == Some(p),
            None => true,
        }),
    decreases need,
{
    let all = b + ext;
    if need <= 0 {
    } else if i >= b.len() {
    } else {
        assert(all[i] == b[i]);
        let cb = b[i] as int;
        if cb < 128 {
            if i + 4 <= b.len() {
                assert(all[i + 1] == b[i + 1] && all[i + 2] == b[i + 2] && all[i + 3] == b[i + 3]);
                let take = if cb + 1 <= need {
                    cb + 1
                } else {
                    need
                };
                lemma_decode_extend(b, ext, i + 4, need - take);
            }
        } else {
            let m = 257 - cb;
            let take = if m <= need {
                m
            } else {
                need
            };
            if i + 1 + 3 * take <= b.len() {
                let lits_b = Seq::new(
                    take as nat,
                    |q: int|
                        SrgbColor { r: b[i + 1 + 3 * q], g: b[i + 2 + 3 * q], b: b[i + 3 * q + 3] },
                );
                let lits_all = Seq::new(
                    take as nat,
                    |q: int|
                        SrgbColor {
                            r: all[i + 1 + 3 * q],
                            g: all[i + 2 + 3 * q],
                            b: all[i + 3 * q + 3],
                        },
                );
                assert(lits_b =~= lits_all);
                lemma_decode_extend(b, ext, i + 1 + 3 * take, need - take);
            }
        }
    }
}

/// Band decoding is translation invariant: bands read after a fixed prefix
/// are the bands of the suffix, at shifted positions.
proof fn lemma_decode_bands_shift(b1: Seq<u8>, b2: Seq<u8>, i: int, width: int, remaining: int)
    requires
        i >= 0,
    ensures
        spec_decode_bands(b1 + b2, b1.len() + i, width, remaining) == (
        match spec_decode_bands(b2, i, width, remaining) {
            None => None::<(Seq<Seq<SrgbColor>>, int)>,
            Some(rest) => Some((rest.0, rest.1 + b1.len())),
        }),
    decreases remaining,
{
    let all = b1 + b2;
    if remaining <= 0 {
    } else if i >= b2.len() {
        assert(b1.len() + i >= all.len());
    } else {
        assert(all[b1.len() + i] == b2[i]);
        let reps0 = b2[i] as int + 1;
        let reps = if reps0 <= remaining {
            reps0
        } else {
            remaining
        };
        lemma_decode_shift(b1, b2, i + 1, width);
        match spec_decode_row_from(b2, i + 1, width) {
            None => {},
            Some(rowp) => {
                lemma_decode_row_pos(b2, i + 1, width);
                lemma_decode_bands_shift(b1, b2, rowp.1, width, remaining - reps);
            },
        }
    }
}

/// Decoding the greedy band decomposition of the scanlines from `j` on
/// yields those scanlines back, consuming the bands exactly.
proof fn lemma_bands_round_trip_from(rows: Seq<Seq<SrgbColor>>, width: int, j: int)
    requires
        0 <= j <= rows.len(),
        forall|y: int| 0 <= y < rows.len() ==> (#[trigger] rows[y]).len() == width,
    ensures
        spec_decode_bands(spec_bands_from(rows, j), 0, width, rows.len() - j) == Some(
            (rows.skip(j), spec_bands_from(rows, j).len() as int),
        ),
    decreases rows.len() - j,
{
    if j == rows.len() {
        assert(rows.skip(j) =~= Seq::<Seq<SrgbColor>>::empty());
    } else {
        lemma_run_len_bound(rows, j);
        let r = run_len(rows, j);
        let k = if r <= 128 {
            r
        } else {
            128
        };
        let head = seq![(k - 1) as u8];
        let rowb = spec_encode_row(rows[j]);
        let rest = spec_bands_from(rows, j + k);
        let bb = spec_bands_from(rows, j);
        assert(bb == head + rowb + rest);
        assert(bb[0] == (k - 1) as u8);
        assert(bb[0] as int + 1 == k);
        assert(rows[j].len() == width);
        lemma_rle_round_trip(rows[j]);
        lemma_decode_extend(rowb, rest, 0, width);
        lemma_decode_shift(head, rowb + rest, 0, width);
        assert(head + (rowb + rest) =~= bb);
        assert(spec_decode_row_from(bb, 1, width) == Some((rows[j], 1 + rowb.len() as int)));
        lemma_bands_round_trip_from(rows, width, j + k);
        lemma_decode_bands_shift(head + rowb, rest, 0, width, rows.len() - j - k);
        assert((head + rowb) + rest =~= bb);
        lemma_run_len_all_equal(rows, j, j + k);
        assert(Seq::new(k as nat, |q: int| rows[j]) + rows.skip(j + k) =~= rows.skip(j));
        assert(bb.len() == 1 + rowb.len() + rest.len());
    }
}

/// PWG-Raster image round trip: decoding the body the band encoder writes
/// for a page's scanlines yields the scanlines back.
pub proof fn lemma_image_round_trip(rows: Seq<Seq<SrgbColor>>, width: int)
    requires
        rows.len() >= 1,
        forall|y: int| 0 <= y < rows.len() ==> (#[trigger] rows[y]).len() == width,
    ensures
        spec_decode_bands(
            crate::pwgraster::spec_encode_image_from(
                crate::pwgraster::initial_encoder(width, rows.len() as int),
                rows,
                0,
            ),
            0,
            width,
            rows.len() as int,
        ) == Some(
            (
                rows,
                crate::pwgraster::spec_encode_image_from(
                    crate::pwgraster::initial_encoder(width, rows.len() as int),
                    rows,
                    0,
                ).len() as int,
            ),
        ),
{
    lemma_image_encodes_greedy_bands(rows, width);
    lemma_bands_round_trip_from(rows, width, 0);
    assert(rows.skip(0) =~= rows);
}

/// Incremental PWG-Raster body encoder: scanlines go in one at a time, bands
/// of up to 128 identical scanlines come out.
#[derive(Debug)]
pub struct ImageEncoder {
    pub width: u32,
    pub height: u32,
    pub prev_row: Option<Vec<SrgbColor>>,
    pub written_rows: u32,
    pub comm_rows: u8,
}

impl View for ImageEncoder {
    type V = EncoderModel;

    open spec fn view(&self) -> EncoderModel {
        EncoderModel {
            width: self.width as int,
            height: self.height as int,
            prev: match self.prev_row {
                Some(p) => Some(p@),
                None => None,
            },
            written: self.written_rows as int,
            pending: self.comm_rows as int,
        }
    }
}

impl ImageEncoder {
    /// The state invariant: the pending repeat count fits the band cap, a
    /// collected scanline always spans the page width, and a completed page
    /// has no band left to flush.
    pub open spec fn wf(&self) -> bool {
        &&& self@.written <= self@.height
        &&& 0 <= self@.pending <= 127
        &&& match self@.prev {
            Some(p) => p.len() == self@.width && self@.width >= 1,
            None => self@.pending == 0 && self@.written == 0,
        }
        &&& self@.written == self@.height ==> self@.pending == 0
    }

    pub fn new(width: u32, height: u32) -> (e: Self)
        ensures
            e.wf(),
            e@ == (EncoderModel {
                width: width as int,
                height: height as int,
                prev: None::<Seq<SrgbColor>>,
                written: 0,
                pending: 0,
            }),
    {
        Self { width, height, prev_row: None, written_rows: 0, comm_rows: 0 }
    }

    /// Run-length encode one scanline into `out`; see [`spec_encode_row`].
    pub fn do_encode_row(out: &mut Vec<u8>, row: &Vec<SrgbColor>) -> (written: usize)
        requires
            row@.len() >= 1,
        ensures
            final(out)@ == old(out)@ + spec_encode_row(row@),
            written == spec_encode_row(row@).len(),
    {
        do_encode_row_bytes(out, row)
    }

    /// Take in the next scanline, top to bottom, and append whatever bands
    /// the step settles to `out`, exactly as [`spec_step`] describes.
    pub fn write_row(&mut self, out: &mut Vec<u8>, row: Vec<SrgbColor>) -> (written: usize)
        requires
            old(self).wf(),
            row@.len() == old(self)@.width,
            row@.len() >= 1,
            old(self)@.written < old(self)@.height,
        ensures
            final(self).wf(),
            final(self)@ == spec_step(old(self)@, row@).0,
            final(out)@ == old(out)@ + spec_step(old(self)@, row@).1,
            written == spec_step(old(self)@, row@).1.len(),
    {
        let start_len = out.len();
        let ghost out0 = out@;
        let ghost m0 = self@;
        let is_dup = match &self.prev_row {
            Some(p) => self.comm_rows < 127 && rows_equal(p, &row),
            None => false,
        };
        if self.prev_row.is_none() {
            self.prev_row = Some(row);
            self.written_rows = self.written_rows + 1;
        } else if is_dup {
            self.comm_rows = self.comm_rows + 1;
            self.written_rows = self.written_rows + 1;
        } else {
            let pending = self.comm_rows;
            let mut tmp: Option<Vec<SrgbColor>> = Some(row);
            core::mem::swap(&mut self.prev_row, &mut tmp);
            let prev_vec = match tmp {
                Some(v) => v,
                None => unreached(),
            };
            out.push(pending);
            Self::do_encode_row(out, &prev_vec);
            self.comm_rows = 0;
            self.written_rows = self.written_rows + 1;
            proof {
                assert(out@ =~= out0 + band_flush_bytes(m0.pending, m0.prev.unwrap()));
            }
        }
        if self.written_rows == self.height {
            let ghost out_mid = out@;
            let ghost mid_pending = self@.pending;
            let ghost mid_prev = self@.prev.unwrap();
            let pending = self.comm_rows;
            out.push(pending);
            match &self.prev_row {
                Some(v) => {
                    Self::do_encode_row(out, v);
                },
                None => {
                    let _: usize = unreached();
                },
            }
            self.comm_rows = 0;
            proof {
                assert(out@ =~= out_mid + band_flush_bytes(mid_pending, mid_prev));
                assert(out@ =~= out0 + (out_mid.skip(out0.len() as int) + band_flush_bytes(
                    mid_pending,
                    mid_prev,
                )));
            }
        }
        proof {
            assert(out@ =~= out0 + spec_step(m0, row@).1);
            assert(self@ == spec_step(m0, row@).0);
        }
        out.len() - start_len
    }
}

} // verus!


