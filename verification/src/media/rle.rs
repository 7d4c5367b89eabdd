//! The run-length encoding of pixel streams as a reader sees it: what each
//! byte of an encoded stream stands for, and that the bit reader delivers
//! exactly that.

use vstd::prelude::*;
use crate::stream::{bit_of, bit_reset, bit_step, bit_step_defined, lemma_bit_of, BitState, Encoding};
use super::pkg::stream_bit;

verus! {

/// The bits one byte of an encoded stream stands for: with the top bit set,
/// bit 6 repeated (low six bits) times; else its seven low bits, lowest
/// first.
pub open spec fn token_bits(b: u8) -> Seq<u8> {
    if bit_of(b, 7) == 1 {
        Seq::new((b as int % 64) as nat, |k: int| bit_of(b, 6))
    } else {
        Seq::new(7, |k: int| bit_of(b, k))
    }
}

/// The bits that the encoded bytes of `e` from `j` on stand for.
pub open spec fn rle_decode(e: Seq<u8>, j: int) -> Seq<u8>
    decreases e.len() - j,
{
    if j < 0 || j >= e.len() {
        Seq::empty()
    } else {
        token_bits(e[j]) + rle_decode(e, j + 1)
    }
}

/// Every repeat byte of `e` from `j` on repeats at least once.
pub open spec fn valid_tokens(e: Seq<u8>, j: int) -> bool {
    forall|i: int| j <= i < e.len() && bit_of(e[i], 7) == 1 ==> #[trigger] e[i] as int % 64 >= 1
}

/// The bits that `n` reads give from the reader state `s` on `data`.
pub open spec fn bits_read(data: Seq<u8>, s: BitState, n: nat) -> Seq<u8>
    decreases n,
{
    if n == 0 {
        Seq::empty()
    } else {
        seq![bit_step(data, s).1] + bits_read(data, bit_step(data, s).0, (n - 1) as nat)
    }
}

/// Whether each of `n` reads from `s` on `data` has a bit to deliver.
pub open spec fn reads_defined(data: Seq<u8>, s: BitState, n: nat) -> bool
    decreases n,
{
    n == 0 || (bit_step_defined(data, s) && reads_defined(data, bit_step(data, s).0, (n - 1) as nat))
}

/// A reader at the start of byte `j` of a run-length encoded stream.
pub open spec fn at_token(s: BitState, j: int) -> bool {
    &&& s.pos == 8 * j
    &&& s.rpt_cnt == 0
    &&& s.raw_cnt == 0
    &&& s.encoding == Encoding::RLEFixed
}

/// `n` reads from `s` are all defined and deliver the first `n` bits that
/// the bytes from `j` on stand for.
pub open spec fn reads_prefix(data: Seq<u8>, s: BitState, n: nat, j: int) -> bool {
    reads_defined(data, s, n) && forall|k: int| 0 <= k < n ==> bits_read(data, s, n)[k] == rle_decode(data, j)[k]
}

/// From the start of byte `j` any number of reads up to what the bytes from
/// `j` on stand for delivers those bits.
pub open spec fn decodes_from(data: Seq<u8>, j: int) -> bool {
    forall|n: nat, s: BitState| at_token(s, j) && n <= rle_decode(data, j).len() ==> #[trigger] reads_prefix(data, s, n, j)
}

/// The stream is short enough for the reader's position never to overflow.
pub open spec fn readable(e: Seq<u8>) -> bool {
    8 * e.len() + 16 <= usize::MAX
}

pub proof fn lemma_bits_read_len(data: Seq<u8>, s: BitState, n: nat)
    ensures
        bits_read(data, s, n).len() == n,
    decreases n,
{
    if n > 0 {
        lemma_bits_read_len(data, bit_step(data, s).0, (n - 1) as nat);
    }
}

/// Inside a repeat byte `j` with `m` repeats left.
proof fn lemma_run(data: Seq<u8>, s: BitState, j: int, m: int, n: nat)
    requires
        0 <= j < data.len(),
        readable(data),
        valid_tokens(data, j + 1),
        s.pos == 8 * j,
        s.raw_cnt == 0,
        s.encoding == Encoding::RLEFixed,
        s.rpt_cnt == m,
        1 <= m,
        n <= m + rle_decode(data, j + 1).len(),
        decodes_from(data, j + 1),
    ensures
        reads_defined(data, s, n),
        forall|k: int| 0 <= k < n ==> bits_read(data, s, n)[k] == (Seq::new(m as nat, |t: int| s.rpt_val) + rle_decode(data, j + 1))[k],
    decreases m,
{
    if n > 0 {
        let s1 = bit_step(data, s).0;
        assert(bit_step(data, s).1 == s.rpt_val);
        lemma_bits_read_len(data, s1, (n - 1) as nat);
        let run = Seq::new(m as nat, |t: int| s.rpt_val);
        let x = rle_decode(data, j + 1);
        if m == 1 {
            assert(at_token(s1, j + 1));
            assert(reads_prefix(data, s1, (n - 1) as nat, j + 1));
            assert forall|k: int| 0 <= k < n implies bits_read(data, s, n)[k] == (run + x)[k] by {
                if k > 0 {
                    assert(bits_read(data, s, n)[k] == bits_read(data, s1, (n - 1) as nat)[k - 1]);
                }
            }
        } else {
            lemma_run(data, s1, j, m - 1, (n - 1) as nat);
            let run1 = Seq::new((m - 1) as nat, |t: int| s1.rpt_val);
            assert forall|k: int| 0 <= k < n implies bits_read(data, s, n)[k] == (run + x)[k] by {
                if k > 0 {
                    assert(bits_read(data, s, n)[k] == bits_read(data, s1, (n - 1) as nat)[k - 1]);
                    assert((run1 + x)[k - 1] == (run + x)[k]);
                }
            }
        }
    }
}

/// Inside a raw byte `j` with bit `k0` next.
proof fn lemma_raw(data: Seq<u8>, s: BitState, j: int, k0: int, n: nat)
    requires
        0 <= j < data.len(),
        readable(data),
        valid_tokens(data, j + 1),
        s.pos == 8 * j + k0,
        s.raw_cnt == 7 - k0,
        s.rpt_cnt == 0,
        s.encoding == Encoding::RLEFixed,
        0 <= k0 < 7,
        n <= (7 - k0) + rle_decode(data, j + 1).len(),
        decodes_from(data, j + 1),
    ensures
        reads_defined(data, s, n),
        forall|k: int| 0 <= k < n ==> bits_read(data, s, n)[k]
            == (Seq::new((7 - k0) as nat, |t: int| bit_of(data[j], k0 + t)) + rle_decode(data, j + 1))[k],
    decreases 7 - k0,
{
    if n > 0 {
        let s1 = bit_step(data, s).0;
        assert((8 * j + k0) / 8 == j) by (nonlinear_arith)
            requires
                0 <= k0 < 7,
        ;
        assert((8 * j + k0) % 8 == k0) by (nonlinear_arith)
            requires
                0 <= k0 < 7,
        ;
        assert(bit_step(data, s).1 == bit_of(data[j], k0));
        lemma_bits_read_len(data, s1, (n - 1) as nat);
        let raw = Seq::new((7 - k0) as nat, |t: int| bit_of(data[j], k0 + t));
        let x = rle_decode(data, j + 1);
        if k0 == 6 {
            assert(at_token(s1, j + 1));
            assert(reads_prefix(data, s1, (n - 1) as nat, j + 1));
            assert forall|k: int| 0 <= k < n implies bits_read(data, s, n)[k] == (raw + x)[k] by {
                if k > 0 {
                    assert(bits_read(data, s, n)[k] == bits_read(data, s1, (n - 1) as nat)[k - 1]);
                }
            }
        } else {
            lemma_raw(data, s1, j, k0 + 1, (n - 1) as nat);
            let raw1 = Seq::new((7 - (k0 + 1)) as nat, |t: int| bit_of(data[j], k0 + 1 + t));
            assert forall|k: int| 0 <= k < n implies bits_read(data, s, n)[k] == (raw + x)[k] by {
                if k > 0 {
                    assert(bits_read(data, s, n)[k] == bits_read(data, s1, (n - 1) as nat)[k - 1]);
                    assert((raw1 + x)[k - 1] == (raw + x)[k]);
                }
            }
        }
    }
}

/// From the start of byte `j`, the reader delivers the bits that the bytes
/// from `j` on stand for, each read with a bit to deliver.
pub proof fn lemma_decode(data: Seq<u8>, j: int, s: BitState, n: nat)
    requires
        0 <= j <= data.len(),
        readable(data),
        valid_tokens(data, j),
        at_token(s, j),
        n <= rle_decode(data, j).len(),
    ensures
        reads_defined(data, s, n),
        forall|k: int| 0 <= k < n ==> bits_read(data, s, n)[k] == rle_decode(data, j)[k],
    decreases data.len() - j,
{
    if n > 0 {
        assert(j < data.len());
        assert(decodes_from(data, j + 1)) by {
            assert forall|n2: nat, s2: BitState| at_token(s2, j + 1) && n2 <= rle_decode(data, j + 1).len()
                implies #[trigger] reads_prefix(data, s2, n2, j + 1) by {
                lemma_decode(data, j + 1, s2, n2);
            }
        }
        let b = data[j];
        assert((8 * j) / 8 == j) by (nonlinear_arith);
        assert((8 * j) % 8 == 0) by (nonlinear_arith);
        if bit_of(b, 7) == 1 {
            assert(b as int % 64 >= 1);
            let s1 = BitState { rpt_val: bit_of(b, 6), rpt_cnt: b as int % 64, ..s };
            assert(bit_step_defined(data, s));
            lemma_run(data, s1, j, b as int % 64, n);
            assert(bit_step(data, s) == bit_step(data, s1));
            assert(bits_read(data, s, n) == bits_read(data, s1, n));
            assert(token_bits(b) =~= Seq::new((b as int % 64) as nat, |t: int| s1.rpt_val));
        } else {
            let s1 = BitState { raw_cnt: 7, ..s };
            assert(bit_step_defined(data, s));
            lemma_raw(data, s1, j, 0, n);
            assert(bit_step(data, s) == bit_step(data, s1));
            assert(bits_read(data, s, n) == bits_read(data, s1, n));
            assert(token_bits(b) =~= Seq::new(7, |t: int| bit_of(data[j], 0 + t)));
        }
    }
}

/// Decoding a stream with one byte more gives the bits of that byte more.
pub proof fn lemma_decode_push(e: Seq<u8>, t: u8, j: int)
    requires
        0 <= j <= e.len(),
    ensures
        rle_decode(e.push(t), j) == rle_decode(e, j) + token_bits(t),
    decreases e.len() - j,
{
    if j < e.len() {
        lemma_decode_push(e, t, j + 1);
        assert(e.push(t)[j] == e[j]);
        assert(rle_decode(e.push(t), j) =~= rle_decode(e, j) + token_bits(t));
    } else {
        assert(rle_decode(e.push(t), j + 1) == Seq::<u8>::empty());
        assert(rle_decode(e.push(t), j) =~= rle_decode(e, j) + token_bits(t));
    }
}

/// A repeat byte: `cnt` times the bit `last`.
pub proof fn lemma_run_byte(last: u8, cnt: u8)
    requires
        last <= 1,
        1 <= cnt <= 63,
    ensures
        token_bits(0x80 | (last << 6u8) | (cnt & 0x3f)) == Seq::new(cnt as nat, |k: int| last),
        (0x80 | (last << 6u8) | (cnt & 0x3f)) as int % 64 >= 1,
        bit_of(0x80 | (last << 6u8) | (cnt & 0x3f), 7) == 1,
{
    let b: u8 = 0x80 | (last << 6u8) | (cnt & 0x3f);
    lemma_bit_of(b, 7);
    lemma_bit_of(b, 6);
    assert((b >> 7u32) & 1 == 1) by (bit_vector)
        requires
            b == 0x80 | (last << 6u8) | (cnt & 0x3f),
    ;
    assert((b >> 6u32) & 1 == last) by (bit_vector)
        requires
            b == 0x80 | (last << 6u8) | (cnt & 0x3f),
            last <= 1,
    ;
    assert(b & 0x3f == cnt) by (bit_vector)
        requires
            b == 0x80 | (last << 6u8) | (cnt & 0x3f),
            cnt <= 63,
            last <= 1,
    ;
    assert(b & 0x3f == b % 64) by (bit_vector);
    assert(token_bits(b) =~= Seq::new(cnt as nat, |k: int| last));
}

/// Seven bits pushed into `raw` from the top: the new bit lands at bit 6,
/// the others move one down.
pub proof fn lemma_raw_push(raw: u8, bit: u8)
    requires
        raw < 128,
        bit <= 1,
    ensures
        ((raw >> 1u8) | (bit << 6u8)) < 128,
        bit_of((raw >> 1u8) | (bit << 6u8), 6) == bit,
        forall|j: int| 0 <= j < 6 ==> #[trigger] bit_of((raw >> 1u8) | (bit << 6u8), j) == bit_of(raw, j + 1),
{
    let r2: u8 = (raw >> 1u8) | (bit << 6u8);
    assert(r2 < 128) by (bit_vector)
        requires
            r2 == (raw >> 1u8) | (bit << 6u8),
            raw < 128,
            bit <= 1,
    ;
    lemma_bit_of(r2, 6);
    assert((r2 >> 6u32) & 1 == bit) by (bit_vector)
        requires
            r2 == (raw >> 1u8) | (bit << 6u8),
            raw < 128,
            bit <= 1,
    ;
    assert forall|j: int| 0 <= j < 6 implies #[trigger] bit_of(r2, j) == bit_of(raw, j + 1) by {
        let jj = j as u32;
        lemma_bit_of(r2, jj);
        lemma_bit_of(raw, (jj + 1) as u32);
        assert((r2 >> jj) & 1 == (raw >> (jj + 1)) & 1) by (bit_vector)
            requires
                r2 == (raw >> 1u8) | (bit << 6u8),
                jj < 6,
                bit <= 1,
        ;
    }
}

/// A full raw byte: its seven low bits.
pub proof fn lemma_raw_byte(raw: u8)
    requires
        raw < 128,
    ensures
        token_bits(raw & 0x7f) == Seq::new(7, |k: int| bit_of(raw, k)),
        bit_of(raw & 0x7f, 7) == 0,
{
    let b: u8 = raw & 0x7f;
    assert(b == raw) by (bit_vector)
        requires
            b == raw & 0x7f,
            raw < 128,
    ;
    lemma_bit_of(b, 7);
    assert((b >> 7u32) & 1 == 0) by (bit_vector)
        requires
            b < 128,
    ;
    assert(token_bits(b) =~= Seq::new(7, |k: int| bit_of(raw, k)));
}

/// The last raw byte of a stream with `c` bits pending: they come first.
pub proof fn lemma_partial_byte(raw: u8, c: u8)
    requires
        raw < 128,
        1 <= c < 7,
    ensures
        bit_of((raw >> ((7 - c) as u8)) & 0x7f, 7) == 0,
        forall|k: int| 0 <= k < c ==> #[trigger] token_bits((raw >> ((7 - c) as u8)) & 0x7f)[k] == bit_of(raw, 7 - c + k),
        token_bits((raw >> ((7 - c) as u8)) & 0x7f).len() == 7,
{
    let sh: u8 = (7 - c) as u8;
    let b: u8 = (raw >> sh) & 0x7f;
    lemma_bit_of(b, 7);
    assert((b >> 7u32) & 1 == 0) by (bit_vector)
        requires
            b == (raw >> sh) & 0x7f,
    ;
    assert forall|k: int| 0 <= k < c implies #[trigger] token_bits(b)[k] == bit_of(raw, 7 - c + k) by {
        let kk = k as u32;
        lemma_bit_of(b, kk);
        lemma_bit_of(raw, (7 - c + k) as u32);
        assert((b >> kk) & 1 == (raw >> ((sh as u32) + kk)) & 1) by (bit_vector)
            requires
                b == (raw >> sh) & 0x7f,
                kk < 7,
                sh <= 6,
                (sh as u32) + kk < 7,
        ;
    }
}

/// A stream whose encoded bytes stand for at least the bits of `source`,
/// first, is read back as `source`: a reader started on it delivers the
/// bits of `source`, each read with a bit to deliver.
pub proof fn lemma_rle_read_back(source: Seq<u8>, e: Seq<u8>, s0: BitState)
    requires
        e.len() >= 1,
        e[0] == 1,
        readable(e),
        valid_tokens(e, 1),
        rle_decode(e, 1).len() >= 8 * source.len(),
        forall|k: int| 0 <= k < 8 * source.len() ==> #[trigger] rle_decode(e, 1)[k] == stream_bit(source, k),
    ensures
        reads_defined(e, bit_reset(e, s0), (8 * source.len()) as nat),
        forall|k: int| 0 <= k < 8 * source.len() ==> #[trigger] bits_read(e, bit_reset(e, s0), (8 * source.len()) as nat)[k]
            == stream_bit(source, k),
{
    let s = bit_reset(e, s0);
    assert(at_token(s, 1));
    let n = (8 * source.len()) as nat;
    lemma_decode(e, 1, s, n);
    assert forall|k: int| 0 <= k < 8 * source.len() implies #[trigger] bits_read(e, s, n)[k] == stream_bit(source, k) by {
        assert(bits_read(e, s, n)[k] == rle_decode(e, 1)[k]);
        assert(rle_decode(e, 1)[k] == stream_bit(source, k));
    }
}

} // verus!
