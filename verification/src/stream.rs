//! Readers over media data: a little-endian byte reader and a bit reader for
//! raw or run-length encoded one-bit pixel streams.

use vstd::prelude::*;

verus! {

/// Encoding of a bit stream, stored in its first byte.
#[derive(PartialEq, Eq, Structural, Copy, Clone)]
pub enum Encoding {
    Raw,
    RLEFixed,
    EOL,
}

impl Encoding {
    pub open spec fn spec_code(self) -> u8 {
        match self {
            Encoding::Raw => 0,
            Encoding::RLEFixed => 1,
            Encoding::EOL => 2,
        }
    }

    /// The byte that announces this encoding at the start of a stream.
    pub fn code(self) -> (r: u8)
        ensures
            r == self.spec_code(),
    {
        match self {
            Encoding::Raw => 0,
            Encoding::RLEFixed => 1,
            Encoding::EOL => 2,
        }
    }
}

/// Little-endian value of two bytes.
pub open spec fn le_u16(b0: u8, b1: u8) -> int {
    b0 + 256 * b1
}

/// Little-endian value of four bytes.
pub open spec fn le_u32(b0: u8, b1: u8, b2: u8, b3: u8) -> int {
    b0 + 256 * b1 + 65536 * b2 + 16777216 * b3
}

/// The signed value of a byte in two's complement.
pub open spec fn byte_as_i8(b: u8) -> i8 {
    if b < 128 { b as i8 } else { (b - 256) as i8 }
}

/// Sequential reader of bytes; `ok` tells whether the last read had data.
pub struct Stream<'a> {
    pub data: &'a [u8],
    pub ok: bool,
    pub pos: usize,
}

impl<'a> Stream<'a> {
    pub open spec fn data_view(&self) -> Seq<u8> {
        self.data@
    }

    pub open spec fn pos_view(&self) -> int {
        self.pos as int
    }

    /// Number of bytes left behind `pos`.
    pub open spec fn spec_available(&self) -> int {
        if self.pos_view() >= self.data_view().len() {
            0
        } else {
            self.data_view().len() - self.pos_view()
        }
    }

    pub fn new(data: &'a [u8]) -> (r: Self)
        ensures
            r.data_view() == data@,
            r.pos_view() == 0,
            r.ok,
    {
        Stream { data: data, ok: true, pos: 0 }
    }

    pub fn get_pos(&self) -> (r: usize)
        ensures
            r as int == self.pos_view(),
    {
        self.pos
    }

    pub fn set_pos(&mut self, pos: usize)
        ensures
            final(self).data_view() == old(self).data_view(),
            final(self).pos_view() == pos as int,
            final(self).ok == (pos < old(self).data_view().len()),
    {
        self.pos = pos;
        self.ok = self.pos < self.data.len();
    }

    pub fn available(&self) -> (r: usize)
        ensures
            r as int == self.spec_available(),
    {
        if self.pos >= self.data.len() {
            0
        } else {
            self.data.len() - self.pos
        }
    }

    /// Reads one byte; past the end it yields 0 and clears `ok`.
    pub fn read_u8(&mut self) -> (r: u8)
        ensures
            final(self).data_view() == old(self).data_view(),
            old(self).pos_view() < old(self).data_view().len() ==> {
                &&& r == old(self).data_view()[old(self).pos_view()]
                &&& final(self).pos_view() == old(self).pos_view() + 1
                &&& final(self).ok
            },
            old(self).pos_view() >= old(self).data_view().len() ==> {
                &&& r == 0
                &&& final(self).pos_view() == old(self).pos_view()
                &&& !final(self).ok
            },
    {
        if self.pos < self.data.len() {
            self.ok = true;
            let byte = self.data[self.pos];
            self.pos += 1;
            byte
        } else {
            self.ok = false;
            0
        }
    }

    /// Reads one byte as a two's-complement signed value.
    pub fn read_i8(&mut self) -> (r: i8)
        ensures
            final(self).data_view() == old(self).data_view(),
            old(self).pos_view() < old(self).data_view().len() ==> {
                &&& r == byte_as_i8(old(self).data_view()[old(self).pos_view()])
                &&& final(self).pos_view() == old(self).pos_view() + 1
                &&& final(self).ok
            },
            old(self).pos_view() >= old(self).data_view().len() ==> {
                &&& r == 0
                &&& final(self).pos_view() == old(self).pos_view()
                &&& !final(self).ok
            },
    {
        if self.pos < self.data.len() {
            self.ok = true;
            let byte = self.data[self.pos];
            self.pos += 1;
            if byte < 128 {
                byte as i8
            } else {
                (byte as i16 - 256) as i8
            }
        } else {
            self.ok = false;
            0
        }
    }

    /// Reads a little-endian `u16`; it needs more than two bytes behind `pos`.
    pub fn read_u16(&mut self) -> (r: u16)
        ensures
            final(self).data_view() == old(self).data_view(),
            old(self).spec_available() > 2 ==> {
                &&& r == le_u16(
                    old(self).data_view()[old(self).pos_view()],
                    old(self).data_view()[old(self).pos_view() + 1],
                )
                &&& final(self).pos_view() == old(self).pos_view() + 2
                &&& final(self).ok
            },
            old(self).spec_available() <= 2 ==> {
                &&& r == 0
                &&& final(self).pos_view() == old(self).pos_view()
                &&& !final(self).ok
            },
    {
        if self.pos < self.data.len() && self.data.len() - self.pos > 2 {
            self.ok = true;
            let word = self.data[self.pos] as u16 + (self.data[self.pos + 1] as u16) * 256;
            self.pos += 2;
            word
        } else {
            self.ok = false;
            0
        }
    }

    /// Reads a little-endian `u32`; it needs more than four bytes behind `pos`.
    pub fn read_u32(&mut self) -> (r: u32)
        ensures
            final(self).data_view() == old(self).data_view(),
            old(self).spec_available() > 4 ==> {
                &&& r == le_u32(
                    old(self).data_view()[old(self).pos_view()],
                    old(self).data_view()[old(self).pos_view() + 1],
                    old(self).data_view()[old(self).pos_view() + 2],
                    old(self).data_view()[old(self).pos_view() + 3],
                )
                &&& final(self).pos_view() == old(self).pos_view() + 4
                &&& final(self).ok
            },
            old(self).spec_available() <= 4 ==> {
                &&& r == 0
                &&& final(self).pos_view() == old(self).pos_view()
                &&& !final(self).ok
            },
    {
        if self.pos < self.data.len() && self.data.len() - self.pos > 4 {
            self.ok = true;
            let long = self.data[self.pos] as u32 + (self.data[self.pos + 1] as u32) * 256 + (
            self.data[self.pos + 2] as u32) * 65536 + (self.data[self.pos + 3] as u32)
                * 16777216;
            self.pos += 4;
            long
        } else {
            self.ok = false;
            0
        }
    }
}

/// Bit `k` (0 = least significant) of `b`.
pub open spec fn bit_of(b: u8, k: int) -> u8 {
    ((b as int / vstd::arithmetic::power2::pow2(k as nat) as int) % 2) as u8
}

/// Reader of one-bit pixels, raw (most significant bit first) or run-length
/// encoded; `ok` is cleared once it runs out of data.
pub struct BinaryStream<'a> {
    pub data: &'a [u8],
    pub ok: bool,
    pub pos: usize,
    pub rpt_cnt: usize,
    pub rpt_val: u8,
    pub raw_cnt: usize,
    pub encoding: Encoding,
}

/// The observable state of a bit reader.
pub struct BitState {
    pub ok: bool,
    pub pos: int,
    pub rpt_cnt: int,
    pub rpt_val: u8,
    pub raw_cnt: int,
    pub encoding: Encoding,
}

/// One `read_bit` on `data` from state `s`: the next state and the bit.
pub open spec fn bit_step(data: Seq<u8>, s: BitState) -> (BitState, u8) {
    if s.pos / 8 >= data.len() || s.pos + 9 > usize::MAX {
        (BitState { ok: false, ..s }, 0)
    } else {
        let byte = data[s.pos / 8];
        match s.encoding {
            Encoding::Raw => (BitState { pos: s.pos + 1, ..s }, bit_of(byte, 7 - s.pos % 8)),
            Encoding::RLEFixed => {
                let s1 = if s.rpt_cnt == 0 && s.raw_cnt == 0 {
                    if bit_of(byte, 7) == 0 {
                        BitState { raw_cnt: 7, ..s }
                    } else {
                        BitState { rpt_val: bit_of(byte, 6), rpt_cnt: byte as int % 64, ..s }
                    }
                } else {
                    s
                };
                if s1.rpt_cnt > 0 {
                    let c = s1.rpt_cnt - 1;
                    (BitState { rpt_cnt: c, pos: if c == 0 { s1.pos + 8 } else { s1.pos }, ..s1 }, s1.rpt_val)
                } else {
                    let c = s1.raw_cnt - 1;
                    (
                        BitState { raw_cnt: c, pos: if c == 0 { s1.pos + 2 } else { s1.pos + 1 }, ..s1 },
                        bit_of(byte, s1.pos % 8),
                    )
                }
            },
            Encoding::EOL => (s, 0),
        }
    }
}

/// Whether `read_bit` from state `s` is defined: a run-length header with
/// the repeat flag and a count of zero has no bit to deliver.
pub open spec fn bit_step_defined(data: Seq<u8>, s: BitState) -> bool {
    !(s.pos / 8 < data.len() && s.pos + 9 <= usize::MAX && s.encoding == Encoding::RLEFixed
        && s.rpt_cnt == 0 && s.raw_cnt == 0 && bit_of(data[s.pos / 8], 7) == 1
        && data[s.pos / 8] as int % 64 == 0)
}

/// The state that `reset` leaves behind.
pub open spec fn bit_reset(data: Seq<u8>, s: BitState) -> BitState {
    if data.len() > 0 {
        if data[0] >= 2 {
            BitState { pos: 0, rpt_cnt: 0, raw_cnt: 0, ok: false, ..s }
        } else {
            BitState {
                pos: 8,
                rpt_cnt: 0,
                raw_cnt: 0,
                ok: true,
                encoding: if data[0] == 0 { Encoding::Raw } else { Encoding::RLEFixed },
                ..s
            }
        }
    } else {
        BitState { pos: 0, rpt_cnt: 0, raw_cnt: 0, ok: false, encoding: Encoding::Raw, ..s }
    }
}

/// The state of a reader made afresh on `data`.
pub open spec fn fresh_bits(data: Seq<u8>) -> BitState {
    bit_reset(data, BitState { ok: false, pos: 0, rpt_cnt: 0, rpt_val: 0, raw_cnt: 0, encoding: Encoding::EOL })
}

/// Two states that differ at most in the value of a repeat that is not
/// running.
pub open spec fn same_but_idle_repeat(s: BitState, t: BitState) -> bool {
    s == t || (BitState { rpt_val: t.rpt_val, ..s } == t && s.rpt_cnt == 0)
}

proof fn lemma_reads_same(data: Seq<u8>, s: BitState, t: BitState, n: nat)
    requires
        same_but_idle_repeat(s, t),
    ensures
        crate::media::rle::bits_read(data, s, n) == crate::media::rle::bits_read(data, t, n),
    decreases n,
{
    if n > 0 {
        let (s2, b) = bit_step(data, s);
        let (t2, c) = bit_step(data, t);
        assert(same_but_idle_repeat(s2, t2) && b == c);
        assert(s2.encoding == s.encoding);
        lemma_reads_same(data, s2, t2, (n - 1) as nat);
    }
}

/// A read never changes the encoding of a reader.
pub proof fn lemma_step_keeps_encoding(data: Seq<u8>, s: BitState)
    ensures
        bit_step(data, s).0.encoding == s.encoding,
{
}

/// After `reset`, a reader reads what a fresh reader of the same data
/// reads, and has its `ok`: for a stream with a known encoding (or no
/// data) whatever state it was in, else from any state with the encoding a
/// fresh reader has (reads never change the encoding).
pub proof fn lemma_reset_reads_fresh(data: Seq<u8>, s: BitState, n: nat)
    requires
        data.len() == 0 || data[0] < 2 || s.encoding == fresh_bits(data).encoding,
    ensures
        bit_reset(data, s).ok == fresh_bits(data).ok,
        crate::media::rle::bits_read(data, bit_reset(data, s), n) == crate::media::rle::bits_read(data, fresh_bits(data), n),
{
    lemma_reads_same(data, bit_reset(data, s), fresh_bits(data), n);
}

pub proof fn lemma_bit_of(b: u8, k: u32)
    requires
        k < 8,
    ensures
        (b >> k) & 1 == bit_of(b, k as int),
{
    vstd::bits::lemma_u8_shr_is_div(b, k as u8);
    vstd::arithmetic::power2::lemma_pow2_pos(k as nat);
    assert((b >> k) & 1 == (b >> k) % 2) by (bit_vector);
    assert((b >> k) == (b >> (k as u8))) by (bit_vector)
        requires
            k < 8,
    ;
}

impl<'a> BinaryStream<'a> {
    pub open spec fn data_view(&self) -> Seq<u8> {
        self.data@
    }

    pub open spec fn state(&self) -> BitState {
        BitState {
            ok: self.ok,
            pos: self.pos as int,
            rpt_cnt: self.rpt_cnt as int,
            rpt_val: self.rpt_val,
            raw_cnt: self.raw_cnt as int,
            encoding: self.encoding,
        }
    }

    pub fn new(data: &'a [u8]) -> (r: Self)
        ensures
            r.data_view() == data@,
            r.state() == bit_reset(
                data@,
                BitState { ok: false, pos: 0, rpt_cnt: 0, rpt_val: 0, raw_cnt: 0, encoding: Encoding::EOL },
            ),
    {
        let mut reader = BinaryStream {
            data: data,
            ok: false,
            pos: 0,
            rpt_cnt: 0,
            rpt_val: 0,
            raw_cnt: 0,
            encoding: Encoding::EOL,
        };
        reader.reset();
        reader
    }

    /// Whether the next `read_bit` has a bit to deliver.
    pub fn can_read_bit(&self) -> (r: bool)
        ensures
            r == bit_step_defined(self.data_view(), self.state()),
    {
        if self.pos / 8 < self.data.len() && self.pos <= usize::MAX - 9 && self.encoding
            == Encoding::RLEFixed && self.rpt_cnt == 0 && self.raw_cnt == 0 {
            let byte = self.data[self.pos / 8];
            proof {
                lemma_bit_of(byte, 7);
                assert(byte & 0x3f == byte % 64) by (bit_vector);
            }
            !((byte >> 7u32) & 1 == 1 && byte & 0x3f == 0)
        } else {
            true
        }
    }

    /// Reads the next pixel bit; past the end it yields 0 and clears `ok`.
    pub fn read_bit(&mut self) -> (r: u8)
        requires
            bit_step_defined(old(self).data_view(), old(self).state()),
        ensures
            final(self).data_view() == old(self).data_view(),
            (final(self).state(), r) == bit_step(old(self).data_view(), old(self).state()),
    {
        if self.pos / 8 >= self.data.len() || self.pos > usize::MAX - 9 {
            self.ok = false;
            return 0;
        }
        let byte = self.data[self.pos / 8];
        proof {
            lemma_bit_of(byte, 7);
            lemma_bit_of(byte, 6);
            lemma_bit_of(byte, (self.pos % 8) as u32);
            lemma_bit_of(byte, (7 - self.pos % 8) as u32);
            assert(byte & 0x3f == byte % 64) by (bit_vector);
        }
        match self.encoding {
            Encoding::Raw => {
                let res = (byte >> ((7 - self.pos % 8) as u32)) & 1;
                self.pos += 1;
                res
            },
            Encoding::RLEFixed => {
                if self.rpt_cnt == 0 && self.raw_cnt == 0 {
                    if (byte >> 7u32) & 1 == 0 {
                        self.raw_cnt = 7;
                    } else {
                        self.rpt_val = (byte >> 6u32) & 1;
                        self.rpt_cnt = (byte & 0x3f) as usize;
                    }
                }
                if self.rpt_cnt > 0 {
                    self.rpt_cnt -= 1;
                    if self.rpt_cnt == 0 {
                        self.pos += 8;
                    }
                    self.rpt_val
                } else {
                    let ret = (byte >> ((self.pos % 8) as u32)) & 1;
                    self.pos += 1;
                    self.raw_cnt -= 1;
                    if self.raw_cnt == 0 {
                        self.pos += 1;
                    }
                    ret
                }
            },
            Encoding::EOL => 0,
        }
    }

    /// Rewinds to the first pixel, rereading the encoding byte.
    pub fn reset(&mut self)
        ensures
            final(self).data_view() == old(self).data_view(),
            final(self).state() == bit_reset(old(self).data_view(), old(self).state()),
    {
        self.pos = 0;
        self.rpt_cnt = 0;
        self.raw_cnt = 0;
        if self.data.len() > 0 {
            let byte = self.data[0];
            if byte >= 2 {
                self.ok = false;
            } else {
                self.encoding = if byte == 0 { Encoding::Raw } else { Encoding::RLEFixed };
                self.pos = 8;
                self.ok = true;
            }
        } else {
            self.encoding = Encoding::Raw;
            self.ok = false;
        }
    }
}

} // verus!
