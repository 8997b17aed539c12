//! A bit cursor over octets: fields are read most significant bit first and
//! may span octet boundaries.
use vstd::arithmetic::power2::{lemma_pow2_unfold, lemma2_to64, pow2};
use vstd::prelude::*;

verus! {

/// What can go wrong with a fixed-width field.
#[derive(Debug, PartialEq, Eq, Structural, Copy, Clone)]
pub enum CodecError {
    /// Fewer bits remain than the field needs.
    InsufficientData,
    /// The value does not fit in the field's width.
    FieldOverflow,
}

/// Bit `i` of `bytes` (0 or 1), counting from the most significant bit of
/// the first octet.
pub open spec fn bit_at(bytes: Seq<u8>, i: int) -> u8 {
    (bytes[i / 8] >> ((7 - i % 8) as u8)) & 1u8
}

/// The unsigned integer that the `n` bits of `bytes` from bit `start` on
/// spell, most significant bit first.
pub open spec fn bits_value(bytes: Seq<u8>, start: int, n: nat) -> nat
    decreases n,
{
    if n == 0 {
        0
    } else {
        (2 * bits_value(bytes, start, (n - 1) as nat) + bit_at(bytes, start + n - 1)) as nat
    }
}

proof fn lemma_bit_at_is_bit(x: u8, s: u8)
    ensures
        (x >> s) & 1u8 <= 1,
{
    assert((x >> s) & 1u8 <= 1) by (bit_vector);
}

/// An `n`-bit field holds less than `2^n`.
pub proof fn lemma_bits_value_bound(bytes: Seq<u8>, start: int, n: nat)
    ensures
        bits_value(bytes, start, n) < pow2(n),
    decreases n,
{
    if n == 0 {
        lemma2_to64();
    } else {
        let i = start + n - 1;
        lemma_bit_at_is_bit(bytes[i / 8], (7 - i % 8) as u8);
        lemma_bits_value_bound(bytes, start, (n - 1) as nat);
        lemma_pow2_unfold(n);
    }
}

/// The big-endian 16-bit word at octets `k` and `k + 1` of `bytes`.
pub open spec fn word_at(bytes: Seq<u8>, k: int) -> u32 {
    (bytes[k] * 256 + bytes[k + 1]) as u32
}

/// The `n` low bits set.
pub open spec fn low_mask(n: u32) -> u32 {
    ((1u32 << n) - 1) as u32
}

proof fn lemma_word_bit(w: u32, hi: u8, lo: u8, t: u32)
    by (bit_vector)
    requires
        w == hi * 256 + lo,
        t < 16,
    ensures
        t < 8 ==> (w >> ((15 - t) as u32)) & 1u32 == ((hi >> ((7 - t) as u8)) & 1u8) as u32,
        t >= 8 ==> (w >> ((15 - t) as u32)) & 1u32 == ((lo >> ((15 - t) as u8)) & 1u8) as u32,
{
}

proof fn lemma_mask_step(w: u32, m: u32, n: u32)
    by (bit_vector)
    requires
        w < 0x10000,
        1 <= n,
        m + n <= 16,
    ensures
        2 * ((w >> (m + 1)) & low_mask((n - 1) as u32)) + ((w >> m) & 1u32) == (w >> m) & low_mask(n),
{
}

/// Bits that lie within one big-endian 16-bit word spell the word shifted
/// right past the bits after them, masked to their width.
pub proof fn lemma_bits_in_word(bytes: Seq<u8>, k: int, start: int, n: nat)
    requires
        0 <= k,
        k + 1 < bytes.len(),
        8 * k <= start,
        start + n <= 8 * k + 16,
    ensures
        bits_value(bytes, start, n) == (word_at(bytes, k) >> ((8 * k + 16 - start - n) as u32))
            & low_mask(n as u32),
    decreases n,
{
    let w = word_at(bytes, k);
    let m = (8 * k + 16 - start - n) as u32;
    if n == 0 {
        assert((w >> m) & low_mask(0) == 0) by (bit_vector);
    } else {
        lemma_bits_in_word(bytes, k, start, (n - 1) as nat);
        let j = start + n - 1;
        let t = (j - 8 * k) as u32;
        assert(0 <= t < 16);
        if t < 8 {
            assert(j / 8 == k && j % 8 == t) by (nonlinear_arith)
                requires
                    j == 8 * k + t,
                    0 <= t < 8,
            ;
        } else {
            assert(j / 8 == k + 1 && j % 8 == t - 8) by (nonlinear_arith)
                requires
                    j == 8 * k + t,
                    8 <= t < 16,
            ;
        }
        lemma_word_bit(w, bytes[k], bytes[k + 1], t);
        assert(15 - t == m);
        lemma_mask_step(w, m, n as u32);
    }
}

/// Reads fields of 1 to 16 bits from a borrowed octet buffer.
pub struct BitReader<'a> {
    buf: &'a [u8],
    byte: usize,
    bit: u8,
}

impl<'a> BitReader<'a> {
    /// The octets under the cursor.
    pub closed spec fn bytes(&self) -> Seq<u8> {
        self.buf@
    }

    /// How many bits have been read.
    pub closed spec fn position(&self) -> nat {
        (self.byte * 8 + self.bit) as nat
    }

    pub closed spec fn inv(&self) -> bool {
        &&& self.bit < 8
        &&& self.byte <= self.buf@.len()
        &&& self.byte == self.buf@.len() ==> self.bit == 0
    }

    /// A cursor at the first bit of `buf`.
    pub fn new(buf: &'a [u8]) -> (r: BitReader<'a>)
        ensures
            r.inv(),
            r.bytes() == buf@,
            r.position() == 0,
    {
        BitReader { buf, byte: 0, bit: 0 }
    }

    proof fn lemma_position(&self)
        requires
            self.inv(),
        ensures
            self.position() / 8 == self.byte,
            self.position() % 8 == self.bit,
            self.position() <= 8 * self.bytes().len(),
    {
        let p = self.byte * 8 + self.bit;
        assert(p / 8 == self.byte && p % 8 == self.bit) by (nonlinear_arith)
            requires
                p == self.byte * 8 + self.bit,
                self.bit < 8,
        ;
    }

    /// Whether the cursor stands at an octet boundary.
    pub fn is_aligned(&self) -> (r: bool)
        requires
            self.inv(),
        ensures
            r == (self.position() % 8 == 0),
    {
        proof {
            self.lemma_position();
        }
        self.bit == 0
    }

    /// The index of the octet that the cursor stands at, once aligned.
    pub fn byte_position(&self) -> (r: usize)
        requires
            self.inv(),
            self.position() % 8 == 0,
        ensures
            r == self.position() / 8,
            r <= self.bytes().len(),
    {
        proof {
            self.lemma_position();
        }
        self.byte
    }

    /// The octets after the cursor, once aligned, borrowed from the buffer.
    pub fn remaining_bytes(&self) -> (r: &'a [u8])
        requires
            self.inv(),
            self.position() % 8 == 0,
        ensures
            r@ == self.bytes().subrange((self.position() / 8) as int, self.bytes().len() as int),
    {
        proof {
            self.lemma_position();
        }
        vstd::slice::slice_subrange(self.buf, self.byte, self.buf.len())
    }

    /// Whether `n` more bits can be read.
    pub fn has_bits(&self, n: u8) -> (r: bool)
        requires
            self.inv(),
            n <= 16,
        ensures
            r == (self.position() + n <= 8 * self.bytes().len()),
    {
        proof {
            self.lemma_position();
        }
        let left = self.buf.len() - self.byte;
        if left >= 3 {
            true
        } else {
            (left as u8) * 8 - self.bit >= n
        }
    }

    /// Reads the next `n` bits as an unsigned integer, most significant bit
    /// first, and moves past them. Fails, and leaves the cursor where it was,
    /// when fewer than `n` bits remain.
    pub fn take(&mut self, n: u8) -> (r: Result<u16, CodecError>)
        requires
            old(self).inv(),
            0 < n <= 16,
        ensures
            final(self).inv(),
            final(self).bytes() == old(self).bytes(),
            old(self).position() + n <= 8 * old(self).bytes().len() ==> {
                &&& r == Ok::<u16, CodecError>(
                    bits_value(old(self).bytes(), old(self).position() as int, n as nat) as u16,
                )
                &&& final(self).position() == old(self).position() + n
            },
            old(self).position() + n > 8 * old(self).bytes().len() ==> {
                &&& r == Err::<u16, CodecError>(CodecError::InsufficientData)
                &&& final(self).position() == old(self).position()
            },
    {
        if !self.has_bits(n) {
            return Err(CodecError::InsufficientData);
        }
        let ghost start = self.position() as int;
        let ghost bytes = self.bytes();
        let mut v: u32 = 0;
        let mut i: u8 = 0;
        proof {
            lemma2_to64();
        }
        while i < n
            invariant
                0 <= i <= n <= 16,
                self.inv(),
                self.bytes() == bytes,
                self.position() == start + i,
                start + n <= 8 * bytes.len(),
                v == bits_value(bytes, start, i as nat),
                v < pow2(i as nat),
            decreases n - i,
        {
            proof {
                self.lemma_position();
                lemma_bit_at_is_bit(bytes[self.byte as int], (7 - self.bit) as u8);
                lemma_pow2_unfold((i + 1) as nat);
                lemma_bits_value_bound(bytes, start, 16);
                lemma2_to64();
            }
            let b = (self.buf[self.byte] >> (7 - self.bit)) & 1u8;
            v = v * 2 + b as u32;
            if self.bit == 7 {
                self.bit = 0;
                self.byte = self.byte + 1;
            } else {
                self.bit = self.bit + 1;
            }
            i = i + 1;
        }
        proof {
            lemma2_to64();
            vstd::arithmetic::power2::lemma_pow2_strictly_increases(n as nat, 17);
        }
        Ok(v as u16)
    }
}

/// Bits equal on a range spell the same value there.
pub proof fn lemma_bits_value_ext(a: Seq<u8>, b: Seq<u8>, start: int, n: nat)
    requires
        forall|i: int| start <= i < start + n ==> #[trigger] bit_at(a, i) == bit_at(b, i),
    ensures
        bits_value(a, start, n) == bits_value(b, start, n),
    decreases n,
{
    if n > 0 {
        lemma_bits_value_ext(a, b, start, (n - 1) as nat);
    }
}

proof fn lemma_set_bit(x: u8, b: u8, k: u8, j: u8)
    by (bit_vector)
    requires
        b <= 1,
        k < 8,
        j < 8,
        (x >> (7 - k) as u8) & 1u8 == 0,
    ensures
        j == k ==> ((x | (b << (7 - k) as u8)) >> (7 - j) as u8) & 1u8 == b,
        j != k ==> ((x | (b << (7 - k) as u8)) >> (7 - j) as u8) & 1u8 == (x >> (7 - j) as u8) & 1u8,
{
}

proof fn lemma_fresh_byte(b: u8, j: u8)
    by (bit_vector)
    requires
        b <= 1,
        j < 8,
    ensures
        j == 0 ==> ((b << 7u8) >> (7 - j) as u8) & 1u8 == b,
        j != 0 ==> ((b << 7u8) >> (7 - j) as u8) & 1u8 == 0,
{
}

proof fn lemma_msb_step(v: u16, s: u16)
    by (bit_vector)
    requires
        s < 16,
    ensures
        (v >> s) & 1u16 <= 1,
        (((v >> s) & 1u16) as u32) == ((v as u32) >> (s as u32)) & 1u32,
        2 * ((v as u32) >> ((s + 1) as u32)) + (((v as u32) >> (s as u32)) & 1u32) == (v as u32)
            >> (s as u32),
        (v as u32) >> 16u32 == 0,
        (v as u32) >> 0u32 == v,
{
}

proof fn lemma_index_split(i: int, l: int)
    requires
        0 <= i,
        0 <= l,
    ensures
        i / 8 < l <==> i < 8 * l,
        i / 8 == l <==> 8 * l <= i < 8 * l + 8,
        0 <= i % 8 < 8,
        i == 8 * (i / 8) + i % 8,
{
    assert(i == 8 * (i / 8) + i % 8 && 0 <= i % 8 < 8) by (nonlinear_arith)
        requires
            0 <= i,
    ;
    assert(i / 8 < l <==> i < 8 * l) by (nonlinear_arith)
        requires
            i == 8 * (i / 8) + i % 8,
            0 <= i % 8 < 8,
    ;
    assert(i / 8 == l <==> 8 * l <= i < 8 * l + 8) by (nonlinear_arith)
        requires
            i == 8 * (i / 8) + i % 8,
            0 <= i % 8 < 8,
    ;
}

/// Appends fields of 1 to 16 bits to an octet buffer, most significant bit
/// first; the last octet is padded with zero bits.
pub struct BitWriter {
    bytes: Vec<u8>,
    nbits: usize,
}

impl BitWriter {
    /// The octets written so far, the last one padded with zero bits.
    pub closed spec fn octets(&self) -> Seq<u8> {
        self.bytes@
    }

    /// How many bits have been written.
    pub closed spec fn written(&self) -> nat {
        self.nbits as nat
    }

    pub closed spec fn inv(&self) -> bool {
        &&& self.bytes@.len() == (self.nbits + 7) / 8
        &&& forall|i: int|
            self.nbits <= i < 8 * self.bytes@.len() ==> #[trigger] bit_at(self.bytes@, i) == 0
    }

    /// A writer with nothing written.
    pub fn new() -> (r: BitWriter)
        ensures
            r.inv(),
            r.written() == 0,
            r.octets().len() == 0,
    {
        BitWriter { bytes: Vec::new(), nbits: 0 }
    }

    fn push_bit(&mut self, b: u8)
        requires
            old(self).inv(),
            b <= 1,
            old(self).nbits < usize::MAX,
        ensures
            final(self).inv(),
            final(self).written() == old(self).written() + 1,
            forall|i: int|
                0 <= i < old(self).nbits ==> #[trigger] bit_at(final(self).bytes@, i) == bit_at(
                    old(self).bytes@,
                    i,
                ),
            bit_at(final(self).bytes@, old(self).nbits as int) == b,
    {
        let ghost old_bytes = self.bytes@;
        let ghost nb = self.nbits as int;
        let k = (self.nbits % 8) as u8;
        proof {
            lemma_index_split(nb, old_bytes.len() as int);
        }
        if k == 0 {
            assert(old_bytes.len() == nb / 8);
            self.bytes.push(b << 7u8);
            let ghost l = old_bytes.len() as int;
            assert forall|i: int| 0 <= i < 8 * (l + 1) implies #[trigger] bit_at(self.bytes@, i) == (
            if i < l * 8 {
                bit_at(old_bytes, i)
            } else if i == nb {
                b
            } else {
                0
            }) by {
                lemma_index_split(i, l);
                lemma_fresh_byte(b, (i % 8) as u8);
            }
        } else {
            let last = self.bytes.len() - 1;
            assert(last == nb / 8);
            let x = self.bytes[last];
            proof {
                assert(bit_at(old_bytes, nb) == 0);
            }
            self.bytes.set(last, x | (b << (7 - k)));
            assert forall|i: int| 0 <= i < 8 * old_bytes.len() implies #[trigger] bit_at(
                self.bytes@,
                i,
            ) == (if i == nb {
                b
            } else {
                bit_at(old_bytes, i)
            }) by {
                lemma_index_split(i, last as int);
                if i / 8 == last {
                    lemma_set_bit(x, b, k, (i % 8) as u8);
                }
            }
        }
        self.nbits = self.nbits + 1;
        proof {
            lemma_index_split(nb + 1, self.bytes@.len() as int);
        }
    }

    /// Appends the low `n` bits of `value`, most significant first. Fails,
    /// and writes nothing, when `value` needs more than `n` bits.
    pub fn put(&mut self, value: u16, n: u8) -> (r: Result<(), CodecError>)
        requires
            old(self).inv(),
            0 < n <= 16,
            old(self).written() + 16 < usize::MAX,
        ensures
            final(self).inv(),
            value >= pow2(n as nat) ==> {
                &&& r == Err::<(), CodecError>(CodecError::FieldOverflow)
                &&& *final(self) == *old(self)
            },
            value < pow2(n as nat) ==> {
                &&& r == Ok::<(), CodecError>(())
                &&& final(self).written() == old(self).written() + n
                &&& bits_value(final(self).octets(), old(self).written() as int, n as nat) == value
                &&& forall|i: int|
                    0 <= i < old(self).written() ==> #[trigger] bit_at(final(self).octets(), i)
                        == bit_at(old(self).octets(), i)
            },
    {
        proof {
            lemma2_to64();
            if n < 16 {
                vstd::bits::lemma_u16_shr_is_div(value, n as u16);
                let d = pow2(n as nat);
                let x = value as nat;
                vstd::arithmetic::power2::lemma_pow2_pos(n as nat);
                assert(x / d == 0 <==> x < d) by (nonlinear_arith)
                    requires
                        d > 0,
                ;
            } else {
                assert(pow2(16) == 0x10000);
            }
        }
        if n < 16 && (value >> n) != 0 {
            return Err(CodecError::FieldOverflow);
        }
        let ghost start = self.nbits as int;
        let ghost before = self.bytes@;
        let mut i: u8 = 0;
        proof {
            lemma_msb_step(value, 0);
        }
        while i < n
            invariant
                0 <= i <= n <= 16,
                self.inv(),
                self.nbits == start + i,
                0 <= start,
                start + 16 < usize::MAX,
                bits_value(self.bytes@, start, i as nat) == (value as u32) >> ((n - i) as u32),
                forall|k: int|
                    0 <= k < start ==> #[trigger] bit_at(self.bytes@, k) == bit_at(before, k),
            decreases n - i,
        {
            let s = (n - 1 - i) as u16;
            proof {
                lemma_msb_step(value, s);
            }
            let b = ((value >> s) & 1u16) as u8;
            let ghost prev = self.bytes@;
            self.push_bit(b);
            proof {
                assert forall|k: int| start <= k < start + i implies #[trigger] bit_at(
                    self.bytes@,
                    k,
                ) == bit_at(prev, k) by {
                    assert(0 <= k < start + i);
                }
                lemma_bits_value_ext(self.bytes@, prev, start, i as nat);
            }
            i = i + 1;
        }
        proof {
            lemma_msb_step(value, 0);
        }
        Ok(())
    }

    /// The octets written, the last one padded with zero bits.
    pub fn into_bytes(self) -> (r: Vec<u8>)
        requires
            self.inv(),
        ensures
            r@ == self.octets(),
            r@.len() == (self.written() + 7) / 8,
    {
        self.bytes
    }
}

} // verus!
