use vstd::prelude::*;

verus! {

// ------------------------------------------------------------------
// Little-endian byte layouts
// ------------------------------------------------------------------

/// Two's-complement reading of a 16-bit unsigned quantity.
pub open spec fn signed16(u: int) -> int {
    if u >= 0x8000 {
        u - 0x1_0000
    } else {
        u
    }
}

/// Two's-complement reading of a 32-bit unsigned quantity.
pub open spec fn signed32(u: int) -> int {
    if u >= 0x8000_0000 {
        u - 0x1_0000_0000
    } else {
        u
    }
}

/// The unsigned little-endian 32-bit quantity stored at `p`.
pub open spec fn le_u32_at(s: Seq<u8>, p: int) -> int {
    s[p] + 0x100 * s[p + 1] + 0x1_0000 * s[p + 2] + 0x100_0000 * s[p + 3]
}

/// The two bytes that hold `v` in little-endian two's complement.
pub open spec fn le16(v: int) -> Seq<u8> {
    let u = v % 0x1_0000;
    seq![(u % 0x100) as u8, (u / 0x100) as u8]
}

/// The four bytes that hold `v` in little-endian two's complement.
pub open spec fn le32(v: int) -> Seq<u8> {
    let u = v % 0x1_0000_0000;
    seq![
        (u % 0x100) as u8,
        (u / 0x100 % 0x100) as u8,
        (u / 0x1_0000 % 0x100) as u8,
        (u / 0x100_0000) as u8,
    ]
}

/// The high word of `v` in two's complement: `v` divided by 2^32, rounded
/// down.
pub open spec fn hi_word(v: int) -> int {
    v / 0x1_0000_0000
}

/// The eight bytes the 64-bit writer emits for `v`.
pub open spec fn le64_words(v: int) -> Seq<u8> {
    le32(v) + le32(hi_word(v))
}

/// The variable-length encoding of `n`: seven bits per byte, least
/// significant group first, the high bit set on every byte but the last.
pub open spec fn enc7(n: u32) -> Seq<u8>
    decreases n,
{
    if n < 0x80 {
        seq![n as u8]
    } else {
        seq![(n % 0x80 + 0x80) as u8] + enc7(n / 0x80)
    }
}

// ------------------------------------------------------------------
// Reading: each returns the value and the position after it
// ------------------------------------------------------------------

pub open spec fn rd_u8(s: Seq<u8>, p: int) -> Option<(u8, int)> {
    if 0 <= p && p + 1 <= s.len() {
        Some((s[p], p + 1))
    } else {
        None
    }
}

pub open spec fn rd_i16(s: Seq<u8>, p: int) -> Option<(i16, int)> {
    if 0 <= p && p + 2 <= s.len() {
        Some((signed16(s[p] + 0x100 * s[p + 1]) as i16, p + 2))
    } else {
        None
    }
}

pub open spec fn rd_i32(s: Seq<u8>, p: int) -> Option<(i32, int)> {
    if 0 <= p && p + 4 <= s.len() {
        Some((signed32(le_u32_at(s, p)) as i32, p + 4))
    } else {
        None
    }
}

/// A 64-bit value is a low unsigned word followed by a signed high word.
pub open spec fn rd_i64(s: Seq<u8>, p: int) -> Option<(i64, int)> {
    if 0 <= p && p + 8 <= s.len() {
        Some(
            (
                (le_u32_at(s, p) + 0x1_0000_0000 * signed32(le_u32_at(s, p + 4))) as i64,
                p + 8,
            ),
        )
    } else {
        None
    }
}

pub open spec fn rd_bytes(s: Seq<u8>, p: int, n: int) -> Option<(Seq<u8>, int)> {
    if 0 <= p && 0 <= n && p + n <= s.len() {
        Some((s.subrange(p, p + n), p + n))
    } else {
        None
    }
}

/// Reading a variable-length integer, `count` groups in, with `acc` gathered so
/// far. Each group is shifted by seven bits more than the one before, the
/// shift amount taken modulo the word width; at most 36 groups are read.
pub open spec fn rd_varint_from(s: Seq<u8>, p: int, count: nat, acc: u32) -> Option<(u32, int)>
    decreases 36 - count,
{
    if count > 35 {
        None
    } else if !(0 <= p < s.len()) {
        None
    } else {
        let b = s[p];
        let acc2 = acc | (((b % 0x80) as u32) << (((7 * count) % 32) as u32));
        if b < 0x80 {
            Some((acc2, p + 1))
        } else {
            rd_varint_from(s, p + 1, count + 1, acc2)
        }
    }
}

pub open spec fn rd_varint(s: Seq<u8>, p: int) -> Option<(u32, int)> {
    rd_varint_from(s, p, 0, 0)
}

/// Where reading a variable-length integer leaves off, `count` groups in:
/// past the last byte it read.
pub open spec fn rd_varint_end(s: Seq<u8>, p: int, count: nat) -> int
    decreases 36 - count,
{
    if count > 35 {
        p
    } else if !(0 <= p < s.len()) {
        p
    } else if s[p] < 0x80 {
        p + 1
    } else {
        rd_varint_end(s, p + 1, count + 1)
    }
}

// ------------------------------------------------------------------
// DataReader
// ------------------------------------------------------------------

/// A cursor over a byte buffer that reads little-endian primitives.
pub struct DataReader {
    data: Vec<u8>,
    position: usize,
}

impl DataReader {
    #[verifier::type_invariant]
    spec fn inv(self) -> bool {
        self.position <= self.data.len()
    }

    /// The bytes being read.
    pub closed spec fn bytes(&self) -> Seq<u8> {
        self.data@
    }

    /// The index of the next byte to read.
    pub closed spec fn pos(&self) -> int {
        self.position as int
    }

    pub fn new(data: Vec<u8>) -> (r: Self)
        ensures
            r.bytes() == data@,
            r.pos() == 0,
    {
        Self { data, position: 0 }
    }

    pub fn reset(&mut self, data: Vec<u8>)
        ensures
            final(self).bytes() == data@,
            final(self).pos() == 0,
    {
        *self = Self { data, position: 0 };
    }

    /// Whether `n` more bytes can be read.
    fn validate(&self, n: usize) -> (r: bool)
        ensures
            r == (self.pos() + n <= self.bytes().len()),
    {
        proof {
            use_type_invariant(self);
        }
        n <= self.data.len() - self.position
    }

    pub fn read_u8(&mut self) -> (r: Option<u8>)
        ensures
            final(self).bytes() == old(self).bytes(),
            match rd_u8(old(self).bytes(), old(self).pos()) {
                Some((v, p)) => r == Some(v) && final(self).pos() == p,
                None => r is None && final(self).pos() == old(self).pos(),
            },
    {
        proof {
            use_type_invariant(&*self);
        }
        if !self.validate(1) {
            return None;
        }
        let v = self.data[self.position];
        self.position = self.position + 1;
        Some(v)
    }

    pub fn read_i16(&mut self) -> (r: Option<i16>)
        ensures
            final(self).bytes() == old(self).bytes(),
            match rd_i16(old(self).bytes(), old(self).pos()) {
                Some((v, p)) => r == Some(v) && final(self).pos() == p,
                None => r is None && final(self).pos() == old(self).pos(),
            },
    {
        proof {
            use_type_invariant(&*self);
        }
        if !self.validate(2) {
            return None;
        }
        let lo = self.data[self.position] as u16;
        let hi = self.data[self.position + 1] as u16;
        self.position = self.position + 2;
        let u: u16 = lo | (hi << 8);
        assert(u == lo + 0x100 * hi) by (bit_vector)
            requires
                lo < 0x100,
                hi < 0x100,
                u == lo | (hi << 8),
        ;
        let v = u as i16;
        assert(v == (if u >= 0x8000 { u - 0x1_0000 } else { u as int })) by (bit_vector)
            requires
                v == u as i16,
        ;
        Some(v)
    }

    pub fn read_i32(&mut self) -> (r: Option<i32>)
        ensures
            final(self).bytes() == old(self).bytes(),
            match rd_i32(old(self).bytes(), old(self).pos()) {
                Some((v, p)) => r == Some(v) && final(self).pos() == p,
                None => r is None && final(self).pos() == old(self).pos(),
            },
    {
        proof {
            use_type_invariant(&*self);
        }
        if !self.validate(4) {
            return None;
        }
        let b0 = self.data[self.position] as u32;
        let b1 = self.data[self.position + 1] as u32;
        let b2 = self.data[self.position + 2] as u32;
        let b3 = self.data[self.position + 3] as u32;
        self.position = self.position + 4;
        let u: u32 = b0 | (b1 << 8) | (b2 << 16) | (b3 << 24);
        assert(u == b0 + 0x100 * b1 + 0x1_0000 * b2 + 0x100_0000 * b3) by (bit_vector)
            requires
                b0 < 0x100,
                b1 < 0x100,
                b2 < 0x100,
                b3 < 0x100,
                u == b0 | (b1 << 8) | (b2 << 16) | (b3 << 24),
        ;
        let v = u as i32;
        assert(v == (if u >= 0x8000_0000 { u - 0x1_0000_0000 } else { u as int })) by (bit_vector)
            requires
                v == u as i32,
        ;
        Some(v)
    }

    pub fn read_i64(&mut self) -> (r: Option<i64>)
        ensures
            final(self).bytes() == old(self).bytes(),
            match rd_i64(old(self).bytes(), old(self).pos()) {
                Some((v, p)) => r == Some(v) && final(self).pos() == p,
                None => r is None && final(self).pos() == match rd_i32(old(self).bytes(), old(self).pos()) {
                    Some((_, p)) => p,
                    None => old(self).pos(),
                },
            },
    {
        proof {
            use_type_invariant(&*self);
        }
        let lo = self.read_i32()? as i64;
        let hi = self.read_i32()?;
        let lo = if lo < 0 {
            lo + 0x1_0000_0000
        } else {
            lo
        };
        Some(lo + 0x1_0000_0000 * hi as i64)
    }

    /// Reads a variable-length integer (seven bits per byte).
    pub fn read_7bit_int(&mut self) -> (r: Option<u32>)
        ensures
            final(self).bytes() == old(self).bytes(),
            match rd_varint(old(self).bytes(), old(self).pos()) {
                Some((v, p)) => r == Some(v) && final(self).pos() == p,
                None => r is None && final(self).pos() == rd_varint_end(old(self).bytes(), old(self).pos(), 0),
            },
    {
        let ghost s = self.bytes();
        let ghost p0 = self.pos();
        let mut value: u32 = 0;
        let mut shift: u32 = 0;
        let mut count: u32 = 0;
        loop
            invariant
                self.bytes() == s,
                s == old(self).bytes(),
                p0 == old(self).pos(),
                count <= 36,
                shift == 7 * count,
                rd_varint(s, p0) == rd_varint_from(s, self.pos(), count as nat, value),
                rd_varint_end(s, p0, 0) == rd_varint_end(s, self.pos(), count as nat),
            decreases 36 - count,
        {
            if count > 35 {
                return None;
            }
            let ghost p = self.pos();
            let b = self.read_u8()?;
            assert(b & 0x7f == b % 0x80) by (bit_vector);
            assert((b & 0x80 == 0) == (b < 0x80)) by (bit_vector);
            value = value | (((b & 0x7f) as u32) << (shift % 32));
            shift = shift + 7;
            if (b & 0x80) == 0 {
                return Some(value);
            }
            count = count + 1;
        }
    }

    /// Reads `len` bytes as text, replacing malformed UTF-8 sequences.
    pub fn read_utf_bytes(&mut self, len: usize) -> (r: Option<String>)
        ensures
            final(self).bytes() == old(self).bytes(),
            len == 0 ==> (r matches Some(t) && t@ == Seq::<char>::empty() && final(self).pos() == old(self).pos()),
            len > 0 ==> match rd_bytes(old(self).bytes(), old(self).pos(), len as int) {
                Some((b, p)) => r matches Some(t) && t@ == crate::text::utf8_text(b)
                    && final(self).pos() == p,
                None => r is None && final(self).pos() == old(self).pos(),
            },
    {
        if len == 0 {
            return Some(String::new());
        }
        let v = self.read_bytes(len)?;
        Some(crate::text::from_utf8_lossy(v.as_slice()))
    }

    /// Reads a length-prefixed text.
    pub fn read_utf(&mut self) -> (r: Option<String>)
        ensures
            final(self).bytes() == old(self).bytes(),
            match rd_varint(old(self).bytes(), old(self).pos()) {
                Some((n, p)) => if n == 0 {
                    r matches Some(t) && t@ == Seq::<char>::empty() && final(self).pos() == p
                } else {
                    match rd_bytes(old(self).bytes(), p, n as int) {
                        Some((b, q)) => r matches Some(t) && t@ == crate::text::utf8_text(b)
                            && final(self).pos() == q,
                        None => r is None && final(self).pos() == p,
                    }
                },
                None => r is None && final(self).pos() == rd_varint_end(old(self).bytes(), old(self).pos(), 0),
            },
    {
        let len = self.read_7bit_int()? as usize;
        let r = self.read_utf_bytes(len);
        r
    }

    pub fn read_bytes(&mut self, len: usize) -> (r: Option<Vec<u8>>)
        ensures
            final(self).bytes() == old(self).bytes(),
            match rd_bytes(old(self).bytes(), old(self).pos(), len as int) {
                Some((b, p)) => r matches Some(v) && v@ == b && final(self).pos() == p,
                None => r is None && final(self).pos() == old(self).pos(),
            },
    {
        proof {
            use_type_invariant(&*self);
        }
        if !self.validate(len) {
            return None;
        }
        let start = self.position;
        let mut v: Vec<u8> = Vec::with_capacity(len);
        let mut i: usize = 0;
        while i < len
            invariant
                start + len <= self.data.len(),
                i <= len,
                v@ == self.data@.subrange(start as int, start + i),
            decreases len - i,
        {
            v.push(self.data[start + i]);
            i = i + 1;
            assert(v@ =~= self.data@.subrange(start as int, start + i));
        }
        self.position = start + len;
        Some(v)
    }
}

/// A copy of a byte slice.
pub fn slice_to_vec(src: &[u8]) -> (r: Vec<u8>)
    ensures
        r@ == src@,
{
    let mut out: Vec<u8> = Vec::with_capacity(src.len());
    let mut i: usize = 0;
    while i < src.len()
        invariant
            i <= src.len(),
            out@ == src@.subrange(0, i as int),
        decreases src.len() - i,
    {
        out.push(src[i]);
        i = i + 1;
        assert(out@ =~= src@.subrange(0, i as int));
    }
    assert(src@.subrange(0, src@.len() as int) =~= src@);
    out
}

// ------------------------------------------------------------------
// DataWriter
// ------------------------------------------------------------------

/// An append-only byte buffer that writes little-endian primitives.
pub struct DataWriter {
    data: Vec<u8>,
}

impl View for DataWriter {
    type V = Seq<u8>;

    closed spec fn view(&self) -> Seq<u8> {
        self.data@
    }
}

/// The bytes that `write_utf` emits for a text: its UTF-8 length as a
/// variable-length integer, then its UTF-8 bytes.
pub open spec fn utf_field(s: Seq<char>) -> Seq<u8> {
    enc7(vstd::utf8::encode_utf8(s).len() as u32) + vstd::utf8::encode_utf8(s)
}

impl DataWriter {
    pub fn new() -> (r: Self)
        ensures
            r@ == Seq::<u8>::empty(),
    {
        Self { data: Vec::new() }
    }

    pub fn reset(&mut self)
        ensures
            final(self)@ == Seq::<u8>::empty(),
    {
        self.data.clear();
    }

    pub fn write_u8(&mut self, v: u8)
        ensures
            final(self)@ == old(self)@.push(v),
    {
        self.data.push(v);
    }

    pub fn write_i16(&mut self, v: i16)
        ensures
            final(self)@ == old(self)@ + le16(v as int),
    {
        let b0 = v as u8;
        let b1 = (v >> 8) as u8;
        assert(b0 == (v as int % 0x1_0000) % 0x100 && b1 == (v as int % 0x1_0000) / 0x100)
            by (bit_vector)
            requires
                b0 == v as u8,
                b1 == (v >> 8) as u8,
        ;
        self.data.push(b0);
        self.data.push(b1);
        assert(self.data@ =~= old(self).data@ + le16(v as int));
    }

    pub fn write_i32(&mut self, v: i32)
        ensures
            final(self)@ == old(self)@ + le32(v as int),
    {
        let b0 = v as u8;
        let b1 = (v >> 8) as u8;
        let b2 = (v >> 16) as u8;
        let b3 = (v >> 24) as u8;
        assert(b0 == (v as int % 0x1_0000_0000) % 0x100 && b1 == (v as int % 0x1_0000_0000)
            / 0x100 % 0x100 && b2 == (v as int % 0x1_0000_0000) / 0x1_0000 % 0x100 && b3 == (
        v as int % 0x1_0000_0000) / 0x100_0000) by (bit_vector)
            requires
                b0 == v as u8,
                b1 == (v >> 8) as u8,
                b2 == (v >> 16) as u8,
                b3 == (v >> 24) as u8,
        ;
        self.data.push(b0);
        self.data.push(b1);
        self.data.push(b2);
        self.data.push(b3);
        assert(self.data@ =~= old(self).data@ + le32(v as int));
    }

    /// Writes a 64-bit value in little-endian two's complement: the low word,
    /// then the high word. The most negative value is not accepted.
    pub fn write_i64(&mut self, v: i64)
        requires
            v != i64::MIN,
        ensures
            final(self)@ == old(self)@ + le64_words(v as int),
    {
        let lo = v as i32;
        assert(lo as int % 0x1_0000_0000 == v as int % 0x1_0000_0000) by (bit_vector)
            requires
                lo == v as i32,
        ;
        self.write_i32(lo);
        let hi: i32 = if v < 0 {
            let w: i64 = -(v + 1);
            let q0: i64 = w / 0x1_0000_0000;
            assert(0 <= q0 < 0x8000_0000 && (v as int) / 0x1_0000_0000 == -q0 - 1) by (nonlinear_arith)
                requires
                    v < 0,
                    w == -(v + 1),
                    w >= 0,
                    q0 == w / 0x1_0000_0000,
            ;
            (-q0 - 1) as i32
        } else {
            ((v / 0x1_0000_0000) as i32)
        };
        self.write_i32(hi);
        assert(self.data@ =~= old(self).data@ + le64_words(v as int));
    }

    /// Writes the variable-length encoding of `v` truncated to 32 bits.
    pub(crate) fn write_7bit_int(&mut self, v: usize)
        ensures
            final(self)@ == old(self)@ + enc7(v as u32),
    {
        let mut n = v as u32;
        let ghost n0 = n;
        while n >= 0x80
            invariant
                old(self)@ + enc7(n0) == self.data@ + enc7(n),
            decreases n,
        {
            let b = (n as u8) | 0x80;
            assert(b == n % 0x80 + 0x80) by (bit_vector)
                requires
                    b == (n as u8) | 0x80,
            ;
            let ghost prev = self.data@;
            self.data.push(b);
            assert(n >> 7 == n / 0x80) by (bit_vector);
            n = n >> 7;
            assert(prev + enc7((n * 0x80 + (b - 0x80)) as u32) =~= self.data@ + enc7(n));
        }
        let ghost prev = self.data@;
        self.data.push(n as u8);
        assert(self.data@ =~= prev + enc7(n));
    }

    /// Writes a text as its UTF-8 length and its UTF-8 bytes.
    pub fn write_utf(&mut self, s: &str)
        ensures
            final(self)@ == old(self)@ + utf_field(s@),
    {
        let encoded = s.as_bytes();
        if encoded.len() == 0 {
            self.write_7bit_int(0);
            assert(self.data@ =~= old(self)@ + utf_field(s@));
            return;
        }
        self.write_7bit_int(encoded.len());
        self.write_bytes(encoded);
    }

    pub fn write_bytes(&mut self, src: &[u8])
        ensures
            final(self)@ == old(self)@ + src@,
    {
        let mut i: usize = 0;
        while i < src.len()
            invariant
                i <= src.len(),
                self.data@ == old(self)@ + src@.subrange(0, i as int),
            decreases src.len() - i,
        {
            self.data.push(src[i]);
            i = i + 1;
            assert(self.data@ =~= old(self)@ + src@.subrange(0, i as int));
        }
        assert(src@.subrange(0, src@.len() as int) =~= src@);
    }

    pub fn get_bytes(&self) -> (r: Vec<u8>)
        ensures
            r@ == self@,
    {
        let mut out: Vec<u8> = Vec::with_capacity(self.data.len());
        let mut i: usize = 0;
        while i < self.data.len()
            invariant
                i <= self.data.len(),
                out@ == self.data@.subrange(0, i as int),
            decreases self.data.len() - i,
        {
            out.push(self.data[i]);
            i = i + 1;
            assert(out@ =~= self.data@.subrange(0, i as int));
        }
        assert(self.data@.subrange(0, self.data@.len() as int) =~= self.data@);
        out
    }
}

impl Default for DataWriter {
    fn default() -> (r: Self)
        ensures
            r@ == Seq::<u8>::empty(),
    {
        Self::new()
    }
}


// ------------------------------------------------------------------
// What a read gives back of a write
// ------------------------------------------------------------------

proof fn lemma_le16_value(v: int)
    requires
        -0x8000 <= v < 0x8000,
    ensures
        le16(v).len() == 2,
        signed16(le16(v)[0] + 0x100 * le16(v)[1]) == v,
{
    let u = v % 0x1_0000;
    assert(0 <= u < 0x1_0000);
    assert(u == u % 0x100 + 0x100 * (u / 0x100)) by (nonlinear_arith)
        requires
            0 <= u,
    ;
    assert(u / 0x100 < 0x100) by (nonlinear_arith)
        requires
            0 <= u < 0x1_0000,
    ;
    assert(v >= 0 ==> u == v);
    assert(v < 0 ==> u == v + 0x1_0000);
}

pub proof fn lemma_le32_value(v: int)
    ensures
        le32(v).len() == 4,
        0 <= le_u32_at(le32(v), 0) < 0x1_0000_0000,
        le_u32_at(le32(v), 0) == v % 0x1_0000_0000,
{
    let u = v % 0x1_0000_0000;
    assert(0 <= u < 0x1_0000_0000);
    let b0 = u % 0x100;
    let b1 = u / 0x100 % 0x100;
    let b2 = u / 0x1_0000 % 0x100;
    let b3 = u / 0x100_0000;
    assert(u == b0 + 0x100 * b1 + 0x1_0000 * b2 + 0x100_0000 * b3 && b3 < 0x100) by (
    nonlinear_arith)
        requires
            0 <= u < 0x1_0000_0000,
            b0 == u % 0x100,
            b1 == u / 0x100 % 0x100,
            b2 == u / 0x1_0000 % 0x100,
            b3 == u / 0x100_0000,
    ;
}

/// A 16-bit value written after any prefix reads back unchanged.
pub proof fn law_i16_read_after_write(pre: Seq<u8>, v: i16, post: Seq<u8>)
    ensures
        rd_i16(pre + le16(v as int) + post, pre.len() as int) == Some(
            (v, pre.len() + 2int),
        ),
{
    lemma_le16_value(v as int);
    let s = pre + le16(v as int) + post;
    assert(s[pre.len() as int] == le16(v as int)[0]);
    assert(s[pre.len() + 1int] == le16(v as int)[1]);
}

/// A 32-bit value written after any prefix reads back unchanged.
pub proof fn law_i32_read_after_write(pre: Seq<u8>, v: i32, post: Seq<u8>)
    ensures
        rd_i32(pre + le32(v as int) + post, pre.len() as int) == Some(
            (v, pre.len() + 4int),
        ),
{
    lemma_le32_value(v as int);
    let s = pre + le32(v as int) + post;
    let p = pre.len() as int;
    assert(le_u32_at(s, p) == le_u32_at(le32(v as int), 0));
    assert(v >= 0 ==> (v as int) % 0x1_0000_0000 == v);
    assert(v < 0 ==> (v as int) % 0x1_0000_0000 == v + 0x1_0000_0000);
}

/// A 64-bit value written after any prefix reads back unchanged, except for
/// a negative multiple of 2^32: the writer's high word for such a value is one
/// less than its two's-complement high word.
pub proof fn law_i64_read_after_write(pre: Seq<u8>, v: i64, post: Seq<u8>)
    requires
        v != i64::MIN,
    ensures
        rd_i64(pre + le64_words(v as int) + post, pre.len() as int) == Some(
            (v, pre.len() + 8int),
        ),
{
    let vi = v as int;
    let h = hi_word(vi);
    lemma_le32_value(vi);
    lemma_le32_value(h);
    let s = pre + le64_words(vi) + post;
    let p = pre.len() as int;
    assert(le_u32_at(s, p) == le_u32_at(le32(vi), 0));
    assert(le_u32_at(s, p + 4) == le_u32_at(le32(h), 0));
    assert(vi == vi % 0x1_0000_0000 + 0x1_0000_0000 * h && -0x8000_0000 <= h < 0x8000_0000)
        by (nonlinear_arith)
        requires
            h == vi / 0x1_0000_0000,
            -0x8000_0000_0000_0000 < vi < 0x8000_0000_0000_0000,
    ;
    if h >= 0 {
        assert(h % 0x1_0000_0000 == h);
    } else {
        assert(h % 0x1_0000_0000 == h + 0x1_0000_0000);
    }
    assert(signed32(h % 0x1_0000_0000) == h);
}

proof fn lemma_varint_step(k: nat, acc: u32, m: u32)
    requires
        k <= 4,
        acc < pow2_7(k),
        m < 0x80,
        m * pow2_7(k) < 0x1_0000_0000,
    ensures
        acc | ((m as u32) << (((7 * k) % 32) as u32)) == acc + m * pow2_7(k),
        acc + m * pow2_7(k) < pow2_7(k) * 0x80,
{
    lemma_pow2_7_values();
    assert(((7 * k) % 32) as u32 == 7 * k);
    if k == 0 {
        assert(acc | (m << 0u32) == acc + m) by (bit_vector)
            requires
                acc < 1,
                m < 0x80,
        ;
    } else if k == 1 {
        assert(acc | (m << 7u32) == acc + m * 0x80) by (bit_vector)
            requires
                acc < 0x80,
                m < 0x80,
        ;
    } else if k == 2 {
        assert(acc | (m << 14u32) == acc + m * 0x4000) by (bit_vector)
            requires
                acc < 0x4000,
                m < 0x80,
        ;
    } else if k == 3 {
        assert(acc | (m << 21u32) == acc + m * 0x20_0000) by (bit_vector)
            requires
                acc < 0x20_0000,
                m < 0x80,
        ;
    } else {
        assert(m < 0x10) by (nonlinear_arith)
            requires
                m * 0x1000_0000 < 0x1_0000_0000,
        ;
        assert(acc | (m << 28u32) == acc + m * 0x1000_0000) by (bit_vector)
            requires
                acc < 0x1000_0000,
                m < 0x10,
        ;
    }
}

proof fn lemma_pow2_7_values()
    ensures
        pow2_7(0) == 1,
        pow2_7(1) == 0x80,
        pow2_7(2) == 0x4000,
        pow2_7(3) == 0x20_0000,
        pow2_7(4) == 0x1000_0000,
        pow2_7(5) == 0x8_0000_0000,
{
    reveal_with_fuel(pow2_7, 6);
}

pub open spec fn pow2_7(k: nat) -> int
    decreases k,
{
    if k == 0 {
        1
    } else {
        0x80 * pow2_7((k - 1) as nat)
    }
}

proof fn lemma_varint_from(s: Seq<u8>, p: int, k: nat, acc: u32, m: u32)
    requires
        0 <= p,
        k <= 4,
        acc < pow2_7(k),
        m as int * pow2_7(k) < 0x1_0000_0000,
        p + enc7(m).len() <= s.len(),
        s.subrange(p, p + enc7(m).len()) == enc7(m),
    ensures
        rd_varint_from(s, p, k, acc) == Some(
            ((acc + m * pow2_7(k)) as u32, p + enc7(m).len()),
        ),
    decreases m,
{
    lemma_pow2_7_values();
    assert(s[p] == s.subrange(p, p + enc7(m).len())[0]);
    if m < 0x80 {
        lemma_varint_step(k, acc, m);
    } else {
        let lo = m % 0x80;
        let b = (lo + 0x80) as u8;
        assert(b % 0x80 == lo && b >= 0x80);
        assert(lo * pow2_7(k) <= m * pow2_7(k)) by (nonlinear_arith)
            requires
                lo == m % 0x80,
                pow2_7(k) >= 1,
        ;
        lemma_varint_step(k, acc, lo as u32);
        if k == 4 {
            assert(m as int * 0x1000_0000 >= 0x1_0000_0000) by (nonlinear_arith)
                requires
                    m >= 0x80,
            ;
        }
        assert(pow2_7(k + 1) == 0x80 * pow2_7(k));
        let acc2 = (acc + lo * pow2_7(k)) as u32;
        let rest = enc7(m / 0x80);
        assert(enc7(m) == seq![b] + rest);
        assert forall|i: int| 0 <= i < rest.len() implies s.subrange(p + 1, p + 1 + rest.len())[i]
            == rest[i] by {
            assert(s.subrange(p, p + enc7(m).len())[1 + i] == (seq![b] + rest)[1 + i]);
        }
        assert(s.subrange(p + 1, p + 1 + rest.len()) =~= rest);
        assert((m / 0x80) as int * pow2_7(k + 1) < 0x1_0000_0000 && acc2 < pow2_7(k + 1)
            && acc2 + (m / 0x80) * pow2_7(k + 1) == acc + m * pow2_7(k)) by (nonlinear_arith)
            requires
                m as int * pow2_7(k) < 0x1_0000_0000,
                pow2_7(k + 1) == 0x80 * pow2_7(k),
                acc2 == acc + lo * pow2_7(k),
                acc < pow2_7(k),
                lo == m % 0x80,
                pow2_7(k) >= 1,
        ;
        lemma_varint_from(s, p + 1, k + 1, acc2, m / 0x80);
    }
}

/// A variable-length integer written after any prefix reads back unchanged.
pub proof fn law_varint_read_after_write(pre: Seq<u8>, n: u32, post: Seq<u8>)
    ensures
        rd_varint(pre + enc7(n) + post, pre.len() as int) == Some(
            (n, (pre.len() + enc7(n).len()) as int),
        ),
{
    let s = pre + enc7(n) + post;
    let p = pre.len() as int;
    assert(s.subrange(p, p + enc7(n).len()) =~= enc7(n));
    reveal_with_fuel(pow2_7, 1);
    lemma_varint_from(s, p, 0, 0, n);
}

} // verus!
