use vstd::prelude::*;
use base64::Engine;

verus! {

/// The base64 alphabet: `A`-`Z`, `a`-`z`, `0`-`9`, `+`, `/`.
pub open spec fn b64_symbol(i: int) -> u8 {
    if i < 26 {
        (0x41 + i) as u8
    } else if i < 52 {
        (0x61 + (i - 26)) as u8
    } else if i < 62 {
        (0x30 + (i - 52)) as u8
    } else if i == 62 {
        0x2b
    } else {
        0x2f
    }
}

/// The padding byte `=`.
pub open spec fn pad() -> u8 {
    0x3d
}

/// Standard base64 text (as ASCII bytes) of `d`, padded with `=`.
pub open spec fn b64_encode(d: Seq<u8>) -> Seq<u8>
    decreases d.len(),
{
    if d.len() == 0 {
        seq![]
    } else if d.len() == 1 {
        let b0 = d[0] as int;
        seq![b64_symbol(b0 / 4), b64_symbol((b0 % 4) * 16), pad(), pad()]
    } else if d.len() == 2 {
        let b0 = d[0] as int;
        let b1 = d[1] as int;
        seq![b64_symbol(b0 / 4), b64_symbol((b0 % 4) * 16 + b1 / 16), b64_symbol((b1 % 16) * 4), pad()]
    } else {
        let b0 = d[0] as int;
        let b1 = d[1] as int;
        let b2 = d[2] as int;
        seq![
            b64_symbol(b0 / 4),
            b64_symbol((b0 % 4) * 16 + b1 / 16),
            b64_symbol((b1 % 16) * 4 + b2 / 64),
            b64_symbol(b2 % 64),
        ] + b64_encode(d.subrange(3, d.len() as int))
    }
}

/// The six-bit value of a base64 symbol, if it is one.
pub open spec fn b64_value(c: u8) -> Option<u8> {
    if 0x41 <= c <= 0x5a {
        Some((c - 0x41) as u8)
    } else if 0x61 <= c <= 0x7a {
        Some((c - 0x61 + 26) as u8)
    } else if 0x30 <= c <= 0x39 {
        Some((c - 0x30 + 52) as u8)
    } else if c == 0x2b {
        Some(62u8)
    } else if c == 0x2f {
        Some(63u8)
    } else {
        None
    }
}

/// The text with every trailing `=` removed.
pub open spec fn trim_pad(t: Seq<u8>) -> Seq<u8>
    decreases t.len(),
{
    if t.len() > 0 && t.last() == pad() {
        trim_pad(t.drop_last())
    } else {
        t
    }
}

/// Decoding of unpadded base64 text, four symbols at a time; a trailing group
/// of two or three symbols gives one or two bytes, a lone symbol is an error.
pub open spec fn b64_decode_groups(t: Seq<u8>) -> Option<Seq<u8>>
    decreases t.len(),
{
    if t.len() == 0 {
        Some(seq![])
    } else if t.len() == 1 {
        None
    } else {
        match (b64_value(t[0]), b64_value(t[1])) {
            (Some(a), Some(b)) => {
                let x0 = ((a as int * 4) % 256 + b as int / 16) as u8;
                if t.len() == 2 {
                    Some(seq![x0])
                } else {
                    match b64_value(t[2]) {
                        Some(c) => {
                            let x1 = (((b as int % 16) * 16) + c as int / 4) as u8;
                            if t.len() == 3 {
                                Some(seq![x0, x1])
                            } else {
                                match b64_value(t[3]) {
                                    Some(d) => {
                                        let x2 = (((c as int % 4) * 64) + d as int) as u8;
                                        match b64_decode_groups(t.subrange(4, t.len() as int)) {
                                            Some(rest) => Some(seq![x0, x1, x2] + rest),
                                            None => None,
                                        }
                                    },
                                    None => None,
                                }
                            }
                        },
                        None => None,
                    }
                }
            },
            _ => None,
        }
    }
}

/// Decoding of base64 text: trailing `=` are ignored.
pub open spec fn b64_decode(t: Seq<u8>) -> Option<Seq<u8>> {
    b64_decode_groups(trim_pad(t))
}

/// The characters of an ASCII byte sequence.
pub open spec fn ascii_chars(b: Seq<u8>) -> Seq<char> {
    Seq::new(b.len(), |i: int| b[i] as char)
}

pub open spec fn all_ascii(b: Seq<u8>) -> bool {
    forall|i: int| 0 <= i < b.len() ==> #[trigger] b[i] < 0x80
}

proof fn lemma_symbol_ascii(i: int)
    requires
        0 <= i < 64,
    ensures
        b64_symbol(i) < 0x80,
        b64_value(b64_symbol(i)) == Some(i as u8),
{
}

pub proof fn lemma_encode_ascii(d: Seq<u8>)
    ensures
        all_ascii(b64_encode(d)),
        b64_encode(d).len() == (d.len() + 2) / 3 * 4,
    decreases d.len(),
{
    if d.len() >= 3 {
        lemma_encode_ascii(d.subrange(3, d.len() as int));
    }
    if d.len() >= 1 {
        let b0 = d[0] as int;
        lemma_symbol_ascii(b0 / 4);
        lemma_symbol_ascii((b0 % 4) * 16);
    }
    if d.len() >= 2 {
        let b0 = d[0] as int;
        let b1 = d[1] as int;
        lemma_symbol_ascii((b0 % 4) * 16 + b1 / 16);
        lemma_symbol_ascii((b1 % 16) * 4);
    }
    if d.len() >= 3 {
        let b1 = d[1] as int;
        let b2 = d[2] as int;
        lemma_symbol_ascii((b1 % 16) * 4 + b2 / 64);
        lemma_symbol_ascii(b2 % 64);
    }
    let e = b64_encode(d);
    assert forall|i: int| 0 <= i < e.len() implies #[trigger] e[i] < 0x80 by {
        if d.len() >= 3 && i >= 4 {
            assert(e[i] == b64_encode(d.subrange(3, d.len() as int))[i - 4]);
        }
    }
}

/// The UTF-8 form of ASCII characters is the bytes themselves, and decoding
/// it gives the characters back.
pub proof fn lemma_ascii_utf8(b: Seq<u8>)
    requires
        all_ascii(b),
    ensures
        vstd::utf8::encode_utf8(ascii_chars(b)) == b,
        vstd::utf8::valid_utf8(b),
        vstd::utf8::decode_utf8(b) == ascii_chars(b),
{
    let c = ascii_chars(b);
    assert(vstd::utf8::is_ascii_chars(c)) by {
        assert forall|i: int| 0 <= i < c.len() implies #[trigger] (c[i] as u32) < 128 by {
            assert(c[i] == b[i] as char);
        }
    }
    vstd::utf8::is_ascii_chars_encode_utf8(c);
    assert(vstd::utf8::encode_utf8(c) =~= b) by {
        assert forall|i: int| 0 <= i < b.len() implies vstd::utf8::encode_utf8(c)[i] == b[i] by {
            assert((b[i] as char) as u8 == b[i]);
        }
    }
    vstd::utf8::encode_utf8_valid_utf8(c);
    vstd::utf8::encode_utf8_decode_utf8(c);
}

const ALPHABET: [u8; 64] = [
    0x41, 0x42, 0x43, 0x44, 0x45, 0x46, 0x47, 0x48, 0x49, 0x4a, 0x4b, 0x4c, 0x4d, 0x4e, 0x4f, 0x50,
    0x51, 0x52, 0x53, 0x54, 0x55, 0x56, 0x57, 0x58, 0x59, 0x5a, 0x61, 0x62, 0x63, 0x64, 0x65, 0x66,
    0x67, 0x68, 0x69, 0x6a, 0x6b, 0x6c, 0x6d, 0x6e, 0x6f, 0x70, 0x71, 0x72, 0x73, 0x74, 0x75, 0x76,
    0x77, 0x78, 0x79, 0x7a, 0x30, 0x31, 0x32, 0x33, 0x34, 0x35, 0x36, 0x37, 0x38, 0x39, 0x2b, 0x2f,
];

fn symbol(i: u8) -> (r: u8)
    requires
        i < 64,
    ensures
        r == b64_symbol(i as int),
{
    let r = ALPHABET[i as usize];
    assert(ALPHABET@ == seq![
        0x41u8, 0x42, 0x43, 0x44, 0x45, 0x46, 0x47, 0x48, 0x49, 0x4a, 0x4b, 0x4c, 0x4d, 0x4e, 0x4f, 0x50,
        0x51, 0x52, 0x53, 0x54, 0x55, 0x56, 0x57, 0x58, 0x59, 0x5a, 0x61, 0x62, 0x63, 0x64, 0x65, 0x66,
        0x67, 0x68, 0x69, 0x6a, 0x6b, 0x6c, 0x6d, 0x6e, 0x6f, 0x70, 0x71, 0x72, 0x73, 0x74, 0x75, 0x76,
        0x77, 0x78, 0x79, 0x7a, 0x30, 0x31, 0x32, 0x33, 0x34, 0x35, 0x36, 0x37, 0x38, 0x39, 0x2b, 0x2f,
    ]);
    r
}

proof fn lemma_encode_split(d: Seq<u8>, i: int)
    requires
        0 <= i,
        i % 3 == 0,
        i <= d.len(),
    ensures
        b64_encode(d) == b64_encode(d.subrange(0, i)) + b64_encode(d.subrange(i, d.len() as int)),
    decreases i,
{
    if i > 0 {
        let rest = d.subrange(3, d.len() as int);
        lemma_encode_split(rest, i - 3);
        assert(rest.subrange(0, i - 3) =~= d.subrange(0, i).subrange(3, i));
        assert(rest.subrange(i - 3, rest.len() as int) =~= d.subrange(i, d.len() as int));
        assert(d.subrange(0, i)[0] == d[0] && d.subrange(0, i)[1] == d[1] && d.subrange(0, i)[2]
            == d[2]);
    } else {
        assert(d.subrange(0, 0) =~= Seq::<u8>::empty());
        assert(d.subrange(0, d.len() as int) =~= d);
    }
}

/// Standard base64 text of `data`, padded with `=`.
pub fn encode(data: &[u8]) -> (r: String)
    ensures
        r@ == ascii_chars(b64_encode(data@)),
{
    let mut out: Vec<u8> = Vec::new();
    let mut i: usize = 0;
    let n = data.len();
    while i < n
        invariant
            n == data@.len(),
            i <= n,
            i % 3 == 0 || i == n,
            out@ == b64_encode(data@.subrange(0, i as int)),
        decreases n - i,
    {
        let b0 = data[i];
        let ghost d = data@;
        let ghost old_out = out@;
        let ghost end = if i + 3 <= n { i + 3 } else { n as int };
        let ghost chunk = d.subrange(i as int, if i + 3 <= n { i + 3 } else { n as int });
        proof {
            lemma_encode_split(d.subrange(0, if i + 3 <= n { i + 3 } else { n as int }), i as int);
            assert(d.subrange(0, if i + 3 <= n { i + 3 } else { n as int }).subrange(0, i as int)
                =~= d.subrange(0, i as int));
            assert(d.subrange(0, if i + 3 <= n { i + 3 } else { n as int }).subrange(
                i as int,
                if i + 3 <= n { i + 3 } else { n as int },
            ) =~= chunk);
        }
        assert(b0 / 4 < 64 && (b0 % 4) * 16 < 64) by (nonlinear_arith)
            requires
                b0 < 256,
        ;
        out.push(symbol(b0 / 4));
        if i + 1 < n {
            let b1 = data[i + 1];
            assert((b0 % 4) * 16 + b1 / 16 < 64 && (b1 % 16) * 4 < 64) by (nonlinear_arith)
                requires
                    b0 < 256,
                    b1 < 256,
            ;
            out.push(symbol((b0 % 4) * 16 + b1 / 16));
            if i + 2 < n {
                let b2 = data[i + 2];
                assert((b1 % 16) * 4 + b2 / 64 < 64 && b2 % 64 < 64) by (nonlinear_arith)
                    requires
                        b1 < 256,
                        b2 < 256,
                ;
                out.push(symbol((b1 % 16) * 4 + b2 / 64));
                out.push(symbol(b2 % 64));
                proof {
                    assert(chunk.len() == 3);
                    assert(chunk.subrange(3, 3) =~= Seq::<u8>::empty());
                    assert(b64_encode(chunk.subrange(3, 3)) =~= Seq::<u8>::empty());
                    assert(chunk[0] == b0 && chunk[1] == b1 && chunk[2] == b2);
                    assert(out@ =~= old_out + b64_encode(chunk));
                }
                i = i + 3;
            } else {
                out.push(symbol((b1 % 16) * 4));
                out.push(pad_byte());
                proof {
                    assert(chunk.len() == 2);
                    assert(chunk[0] == b0 && chunk[1] == b1);
                    assert(out@ =~= old_out + b64_encode(chunk));
                }
                i = n;
            }
        } else {
            out.push(symbol((b0 % 4) * 16));
            out.push(pad_byte());
            out.push(pad_byte());
            proof {
                assert(chunk.len() == 1);
                assert(chunk[0] == b0);
                assert(out@ =~= old_out + b64_encode(chunk));
            }
            i = n;
        }
        assert(i == end);
        assert(out@ =~= b64_encode(data@.subrange(0, i as int)));
    }
    assert(data@.subrange(0, n as int) =~= data@);
    proof {
        lemma_encode_ascii(data@);
        lemma_ascii_utf8(out@);
    }
    crate::text::from_utf8_lossy(out.as_slice())
}

fn pad_byte() -> (r: u8)
    ensures
        r == pad(),
{
    0x3d
}


fn value_of(c: u8) -> (r: Option<u8>)
    ensures
        r == b64_value(c),
{
    if 0x41 <= c && c <= 0x5a {
        Some(c - 0x41)
    } else if 0x61 <= c && c <= 0x7a {
        Some(c - 0x61 + 26)
    } else if 0x30 <= c && c <= 0x39 {
        Some(c - 0x30 + 52)
    } else if c == 0x2b {
        Some(62)
    } else if c == 0x2f {
        Some(63)
    } else {
        None
    }
}

proof fn lemma_value_range(c: u8)
    ensures
        b64_value(c) matches Some(v) ==> v < 64,
{
}

proof fn lemma_trim_pad_prefix(t: Seq<u8>, end: int)
    requires
        0 <= end <= t.len(),
        forall|i: int| end <= i < t.len() ==> t[i] == pad(),
    ensures
        trim_pad(t) == trim_pad(t.subrange(0, end)),
    decreases t.len(),
{
    if t.len() > end {
        assert(t.last() == pad());
        assert(t.drop_last().subrange(0, end) =~= t.subrange(0, end));
        lemma_trim_pad_prefix(t.drop_last(), end);
    } else {
        assert(t.subrange(0, end) =~= t);
    }
}

/// Decodes base64 text; trailing `=` are ignored and any other symbol outside
/// the alphabet, or a lone trailing symbol, is an error.
pub fn decode(s: &str) -> (r: Option<Vec<u8>>)
    ensures
        match b64_decode(vstd::utf8::encode_utf8(s@)) {
            Some(d) => r matches Some(v) && v@ == d,
            None => r is None,
        },
{
    let bytes = s.as_bytes();
    let ghost all = bytes@;
    let mut end: usize = bytes.len();
    while end > 0 && bytes[end - 1] == 0x3d
        invariant
            end <= bytes@.len(),
            forall|i: int| end <= i < bytes@.len() ==> bytes@[i] == pad(),
        decreases end,
    {
        end = end - 1;
    }
    proof {
        lemma_trim_pad_prefix(all, end as int);
        if end > 0 {
            assert(all.subrange(0, end as int).last() == all[end - 1]);
        }
        assert(trim_pad(all.subrange(0, end as int)) == all.subrange(0, end as int));
    }
    let ghost t = all.subrange(0, end as int);
    let mut out: Vec<u8> = Vec::new();
    let mut i: usize = 0;
    proof {
        assert(t.subrange(0, end as int) =~= t);
        match b64_decode_groups(t) {
            Some(rest) => {
                assert(out@ + rest =~= rest);
            },
            None => {},
        }
    }
    while i < end
        invariant
            end <= bytes@.len(),
            b64_decode(vstd::utf8::encode_utf8(s@)) == b64_decode_groups(t),
            t == bytes@.subrange(0, end as int),
            i <= end,
            b64_decode_groups(t) == match b64_decode_groups(t.subrange(i as int, end as int)) {
                Some(rest) => Some(out@ + rest),
                None => None,
            },
        decreases end - i,
    {
        let ghost u = t.subrange(i as int, end as int);
        let rem = end - i;
        assert(u[0] == bytes@[i as int]);
        if rem == 1 {
            return None;
        }
        assert(u[1] == bytes@[i + 1]);
        let a = value_of(bytes[i])?;
        let b = value_of(bytes[i + 1])?;
        proof {
            lemma_value_range(bytes[i as int]);
            lemma_value_range(bytes[i + 1]);
        }
        let x0: u8 = (a << 2) | (b >> 4);
        assert(x0 == ((a as int * 4) % 256 + b as int / 16) as u8) by (bit_vector)
            requires
                a < 64,
                b < 64,
                x0 == (a << 2) | (b >> 4),
        ;
        out.push(x0);
        if rem == 2 {
            assert(out@ + Seq::<u8>::empty() =~= out@);
            return Some(out);
        }
        assert(u[2] == bytes@[i + 2]);
        let c = value_of(bytes[i + 2])?;
        proof {
            lemma_value_range(bytes[i + 2]);
        }
        let x1: u8 = (b << 4) | (c >> 2);
        assert(x1 == (((b as int % 16) * 16) + c as int / 4) as u8) by (bit_vector)
            requires
                b < 64,
                c < 64,
                x1 == (b << 4) | (c >> 2),
        ;
        out.push(x1);
        if rem == 3 {
            assert(out@ + Seq::<u8>::empty() =~= out@);
            return Some(out);
        }
        assert(u[3] == bytes@[i + 3]);
        let d = value_of(bytes[i + 3])?;
        proof {
            lemma_value_range(bytes[i + 3]);
        }
        let x2: u8 = (c << 6) | d;
        assert(x2 == (((c as int % 4) * 64) + d as int) as u8) by (bit_vector)
            requires
                c < 64,
                d < 64,
                x2 == (c << 6) | d,
        ;
        let ghost before = out@;
        out.push(x2);
        proof {
            assert(u.subrange(4, u.len() as int) =~= t.subrange(i + 4, end as int));
            match b64_decode_groups(t.subrange(i + 4, end as int)) {
                Some(rest) => {
                    assert(before.drop_last().drop_last() + (seq![x0, x1, x2] + rest) =~= out@ + rest);
                },
                None => {},
            }
        }
        i = i + 4;
    }
    proof {
        assert(t.subrange(i as int, end as int) =~= Seq::<u8>::empty());
    }
    assert(out@ + Seq::<u8>::empty() =~= out@);
    Some(out)
}


proof fn lemma_trim_pad_concat(a: Seq<u8>, b: Seq<u8>)
    requires
        a.len() > 0,
        a.last() != pad(),
    ensures
        trim_pad(a + b) == a + trim_pad(b),
    decreases b.len(),
{
    if b.len() == 0 {
        assert(a + b =~= a);
        assert(a + trim_pad(b) =~= a);
    } else {
        assert((a + b).last() == b.last());
        if b.last() == pad() {
            assert((a + b).drop_last() =~= a + b.drop_last());
            lemma_trim_pad_concat(a, b.drop_last());
        }
    }
}

proof fn lemma_group_arith(b0: int, b1: int, b2: int)
    requires
        0 <= b0 < 256,
        0 <= b1 < 256,
        0 <= b2 < 256,
    ensures
        ((b0 / 4) * 4) % 256 + ((b0 % 4) * 16 + b1 / 16) / 16 == b0,
        (((b0 % 4) * 16 + b1 / 16) % 16) * 16 + ((b1 % 16) * 4 + b2 / 64) / 4 == b1,
        (((b1 % 16) * 4 + b2 / 64) % 4) * 64 + b2 % 64 == b2,
{
    assert(((b0 / 4) * 4) % 256 == b0 - b0 % 4) by (nonlinear_arith)
        requires
            0 <= b0 < 256,
    ;
    assert(((b0 % 4) * 16 + b1 / 16) / 16 == b0 % 4) by (nonlinear_arith)
        requires
            0 <= b0 < 256,
            0 <= b1 < 256,
    ;
    assert(((b0 % 4) * 16 + b1 / 16) % 16 == b1 / 16) by (nonlinear_arith)
        requires
            0 <= b0 < 256,
            0 <= b1 < 256,
    ;
    assert(((b1 % 16) * 4 + b2 / 64) / 4 == b1 % 16) by (nonlinear_arith)
        requires
            0 <= b1 < 256,
            0 <= b2 < 256,
    ;
    assert(((b1 % 16) * 4 + b2 / 64) % 4 == b2 / 64) by (nonlinear_arith)
        requires
            0 <= b1 < 256,
            0 <= b2 < 256,
    ;
}

proof fn lemma_groups_roundtrip(d: Seq<u8>)
    ensures
        b64_decode_groups(trim_pad(b64_encode(d))) == Some(d),
    decreases d.len(),
{
    if d.len() == 0 {
        assert(trim_pad(b64_encode(d)) =~= Seq::<u8>::empty());
        assert(d =~= Seq::<u8>::empty());
    } else if d.len() == 1 {
        let b0 = d[0] as int;
        lemma_group_arith(b0, 0, 0);
        lemma_symbol_ascii(b0 / 4);
        lemma_symbol_ascii((b0 % 4) * 16);
        let e = b64_encode(d);
        let k = seq![b64_symbol(b0 / 4), b64_symbol((b0 % 4) * 16)];
        assert(e.drop_last().drop_last() =~= k);
        assert(trim_pad(e.drop_last()) == trim_pad(k));
        assert(trim_pad(k) == k);
        assert(d =~= seq![d[0]]);
    } else if d.len() == 2 {
        let b0 = d[0] as int;
        let b1 = d[1] as int;
        lemma_group_arith(b0, b1, 0);
        lemma_symbol_ascii(b0 / 4);
        lemma_symbol_ascii((b0 % 4) * 16 + b1 / 16);
        lemma_symbol_ascii((b1 % 16) * 4);
        let e = b64_encode(d);
        let k = seq![b64_symbol(b0 / 4), b64_symbol((b0 % 4) * 16 + b1 / 16), b64_symbol((b1 % 16) * 4)];
        assert(e.drop_last() =~= k);
        assert(trim_pad(k) == k);
        assert(d =~= seq![d[0], d[1]]);
    } else {
        let b0 = d[0] as int;
        let b1 = d[1] as int;
        let b2 = d[2] as int;
        lemma_group_arith(b0, b1, b2);
        lemma_symbol_ascii(b0 / 4);
        lemma_symbol_ascii((b0 % 4) * 16 + b1 / 16);
        lemma_symbol_ascii((b1 % 16) * 4 + b2 / 64);
        lemma_symbol_ascii(b2 % 64);
        let rest = d.subrange(3, d.len() as int);
        let c4 = seq![
            b64_symbol(b0 / 4),
            b64_symbol((b0 % 4) * 16 + b1 / 16),
            b64_symbol((b1 % 16) * 4 + b2 / 64),
            b64_symbol(b2 % 64),
        ];
        lemma_trim_pad_concat(c4, b64_encode(rest));
        lemma_groups_roundtrip(rest);
        let t = c4 + trim_pad(b64_encode(rest));
        assert(t.subrange(4, t.len() as int) =~= trim_pad(b64_encode(rest)));
        assert(seq![d[0], d[1], d[2]] + rest =~= d);
    }
}

/// Decoding base64 text gives back the bytes it was made of.
pub proof fn law_b64_roundtrip(d: Seq<u8>)
    ensures
        b64_decode(b64_encode(d)) == Some(d),
        b64_decode(vstd::utf8::encode_utf8(ascii_chars(b64_encode(d)))) == Some(d),
{
    lemma_groups_roundtrip(d);
    lemma_encode_ascii(d);
    lemma_ascii_utf8(b64_encode(d));
}

/// The text of the error that base64's `STANDARD` engine reports for input
/// it cannot decode.
pub uninterp spec fn standard_error_text(t: Seq<u8>) -> Seq<char>;

/// Calls `base64::engine::general_purpose::STANDARD.decode`, the standard
/// alphabet with canonical `=` padding required and no trailing bits
/// allowed. It accepts exactly the canonical encodings: what it gives back
/// encodes to the input, and the canonical encoding of any bytes is
/// accepted. Its error is carried as its `Display` text.
#[verifier::external_body]
pub(crate) fn standard_decode(t: &str) -> (r: Result<Vec<u8>, String>)
    ensures
        r matches Ok(d) ==> b64_encode(d@) == vstd::utf8::encode_utf8(t@),
        (exists|d: Seq<u8>| b64_encode(d) == vstd::utf8::encode_utf8(t@)) ==> r is Ok,
        r matches Err(e) ==> e@ == standard_error_text(vstd::utf8::encode_utf8(t@)),
{
    match base64::engine::general_purpose::STANDARD.decode(t) {
        Ok(v) => Ok(v),
        Err(e) => Err(e.to_string()),
    }
}

} // verus!
