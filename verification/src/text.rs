use vstd::prelude::*;

verus! {

/// The text that `String::from_utf8_lossy` makes of a byte sequence that is
/// not well-formed UTF-8.
pub uninterp spec fn lossy_utf8(b: Seq<u8>) -> Seq<char>;

/// The text that a byte sequence reads as: its characters when it is
/// well-formed UTF-8, the lossy reading otherwise.
pub open spec fn utf8_text(b: Seq<u8>) -> Seq<char> {
    if vstd::utf8::valid_utf8(b) {
        vstd::utf8::decode_utf8(b)
    } else {
        lossy_utf8(b)
    }
}

/// Calls `String::from_utf8_lossy`: decodes UTF-8, replacing each malformed
/// sequence with U+FFFD. Its documentation says that well-formed input comes
/// back unchanged; of malformed input, the result is only named.
#[verifier::external_body]
pub(crate) fn from_utf8_lossy(b: &[u8]) -> (r: String)
    ensures
        vstd::utf8::valid_utf8(b@) ==> r@ == vstd::utf8::decode_utf8(b@),
        !vstd::utf8::valid_utf8(b@) ==> r@ == lossy_utf8(b@),
{
    String::from_utf8_lossy(b).into_owned()
}


/// The decimal digits of `n`, most significant first, as ASCII bytes.
pub open spec fn nat_decimal(n: nat) -> Seq<u8>
    decreases n,
{
    if n < 10 {
        seq![(0x30 + n) as u8]
    } else {
        nat_decimal(n / 10).push((0x30 + n % 10) as u8)
    }
}

/// The decimal text of a natural number.
pub open spec fn decimal(n: nat) -> Seq<char> {
    crate::b64::ascii_chars(nat_decimal(n))
}

/// The decimal text of `i`, with a leading `-` when negative, as ASCII bytes.
pub open spec fn int_decimal(i: int) -> Seq<u8> {
    if i < 0 {
        seq![0x2du8] + nat_decimal((-i) as nat)
    } else {
        nat_decimal(i as nat)
    }
}

pub proof fn lemma_nat_decimal_ascii(n: nat)
    ensures
        crate::b64::all_ascii(nat_decimal(n)),
    decreases n,
{
    if n >= 10 {
        lemma_nat_decimal_ascii(n / 10);
    }
}

pub(crate) fn push_decimal(out: &mut Vec<u8>, n: u64)
    ensures
        final(out)@ == old(out)@ + nat_decimal(n as nat),
    decreases n,
{
    if n >= 10 {
        push_decimal(out, n / 10);
    }
    out.push((0x30 + n % 10) as u8);
    assert(final(out)@ =~= old(out)@ + nat_decimal(n as nat));
}

/// The decimal text of an unsigned integer.
pub fn nat_text(n: u64) -> (r: String)
    ensures
        r@ == decimal(n as nat),
{
    let mut out: Vec<u8> = Vec::new();
    push_decimal(&mut out, n);
    assert(out@ =~= nat_decimal(n as nat));
    proof {
        lemma_nat_decimal_ascii(n as nat);
        crate::b64::lemma_ascii_utf8(out@);
    }
    from_utf8_lossy(out.as_slice())
}

/// The decimal text of an integer.
pub fn int_text(i: i64) -> (r: String)
    ensures
        r@ == crate::b64::ascii_chars(int_decimal(i as int)),
{
    let mut out: Vec<u8> = Vec::new();
    let mag: u64 = if i < 0 {
        out.push(0x2d);
        if i == i64::MIN {
            0x8000_0000_0000_0000
        } else {
            (-i) as u64
        }
    } else {
        i as u64
    };
    push_decimal(&mut out, mag);
    assert(out@ =~= int_decimal(i as int));
    proof {
        lemma_nat_decimal_ascii(mag as nat);
        assert(crate::b64::all_ascii(out@));
        crate::b64::lemma_ascii_utf8(out@);
    }
    from_utf8_lossy(out.as_slice())
}


// ------------------------------------------------------------------
// Reading decimal integers, as `str::parse` does for integer types
// ------------------------------------------------------------------

pub open spec fn is_digit(b: u8) -> bool {
    0x30 <= b <= 0x39
}

pub open spec fn all_digits(s: Seq<u8>) -> bool {
    forall|i: int| 0 <= i < s.len() ==> is_digit(#[trigger] s[i])
}

/// The number that a run of decimal digits spells.
pub open spec fn digits_value(s: Seq<u8>) -> nat
    decreases s.len(),
{
    if s.len() == 0 {
        0
    } else {
        digits_value(s.drop_last()) * 10 + (s.last() - 0x30) as nat
    }
}

/// The number a non-empty run of digits spells; nothing for anything else.
pub open spec fn digits_number(s: Seq<u8>) -> Option<nat> {
    if s.len() > 0 && all_digits(s) {
        Some(digits_value(s))
    } else {
        None
    }
}

/// What an unsigned integer reads as: an optional `+` and then digits.
pub open spec fn unsigned_text(s: Seq<u8>) -> Option<nat> {
    if s.len() > 0 && s[0] == 0x2b {
        digits_number(s.skip(1))
    } else {
        digits_number(s)
    }
}

/// What a signed integer reads as: an optional `+` or `-` and then digits.
pub open spec fn signed_text(s: Seq<u8>) -> Option<int> {
    if s.len() > 0 && s[0] == 0x2d {
        match digits_number(s.skip(1)) {
            Some(n) => Some(-n),
            None => None,
        }
    } else {
        match unsigned_text(s) {
            Some(n) => Some(n as int),
            None => None,
        }
    }
}

/// `u64` read from text: the unsigned reading when it fits.
pub open spec fn u64_text(s: Seq<u8>) -> Option<u64> {
    match unsigned_text(s) {
        Some(n) => if n <= u64::MAX {
            Some(n as u64)
        } else {
            None
        },
        None => None,
    }
}

/// `u32` read from text: the unsigned reading when it fits.
pub open spec fn u32_text(s: Seq<u8>) -> Option<u32> {
    match unsigned_text(s) {
        Some(n) => if n <= u32::MAX {
            Some(n as u32)
        } else {
            None
        },
        None => None,
    }
}

/// `i32` read from text: the signed reading when it fits.
pub open spec fn i32_text(s: Seq<u8>) -> Option<i32> {
    match signed_text(s) {
        Some(n) => if i32::MIN <= n <= i32::MAX {
            Some(n as i32)
        } else {
            None
        },
        None => None,
    }
}

proof fn lemma_digits_grow(s: Seq<u8>, i: int)
    requires
        0 <= i < s.len(),
        is_digit(s[i]),
    ensures
        digits_value(s.take(i + 1)) == digits_value(s.take(i)) * 10 + (s[i] - 0x30) as nat,
        digits_value(s.take(i + 1)) >= digits_value(s.take(i)),
{
    assert(s.take(i + 1).drop_last() =~= s.take(i));
}

/// The number spelled by the digits of `b` from `start` on: `Ok` of it when
/// all are digits, at least one, and it fits in a `u64`; `Err(true)` when all
/// are digits but the number is larger; `Err(false)` otherwise.
fn digits_from(b: &[u8], start: usize) -> (r: Result<u64, bool>)
    requires
        start <= b@.len(),
    ensures
        match digits_number(b@.skip(start as int)) {
            Some(n) => if n <= u64::MAX {
                r == Ok::<u64, bool>(n as u64)
            } else {
                r == Err::<u64, bool>(true)
            },
            None => r == Err::<u64, bool>(false),
        },
{
    let ghost t = b@.skip(start as int);
    if start >= b.len() {
        return Err(false);
    }
    let mut acc: u64 = 0;
    let mut big = false;
    let mut i: usize = start;
    while i < b.len()
        invariant
            start <= i <= b@.len(),
            t == b@.skip(start as int),
            forall|j: int| 0 <= j < i - start ==> is_digit(#[trigger] t[j]),
            !big ==> acc as nat == digits_value(t.take(i - start)),
            big ==> digits_value(t.take(i - start)) > u64::MAX,
        decreases b@.len() - i,
    {
        let c = b[i];
        if c < 0x30 || c > 0x39 {
            assert(!is_digit(t[i - start]));
            return Err(false);
        }
        proof {
            assert(t[i - start] == c);
            lemma_digits_grow(t, i - start);
        }
        if !big {
            let d = (c - 0x30) as u64;
            if acc > 1844674407370955161 || (acc == 1844674407370955161 && d > 5) {
                big = true;
            } else {
                acc = acc * 10 + d;
            }
        }
        i = i + 1;
    }
    assert(t.take(t.len() as int) =~= t);
    if big {
        Err(true)
    } else {
        Ok(acc)
    }
}

/// Reads a `u64` as `str::parse::<u64>` does.
pub fn parse_u64(b: &[u8]) -> (r: Option<u64>)
    ensures
        r == u64_text(b@),
{
    let start: usize = if b.len() > 0 && b[0] == 0x2b {
        1
    } else {
        0
    };
    assert(b@.skip(0) =~= b@);
    match digits_from(b, start) {
        Ok(v) => Some(v),
        Err(_) => None,
    }
}

/// Reads a `u32` as `str::parse::<u32>` does.
pub fn parse_u32(b: &[u8]) -> (r: Option<u32>)
    ensures
        r == u32_text(b@),
{
    match parse_u64(b) {
        Some(v) => {
            if v <= u32::MAX as u64 {
                Some(v as u32)
            } else {
                None
            }
        },
        None => None,
    }
}

/// Reads an `i32` as `str::parse::<i32>` does.
pub fn parse_i32(b: &[u8]) -> (r: Option<i32>)
    ensures
        r == i32_text(b@),
{
    if b.len() > 0 && b[0] == 0x2d {
        match digits_from(b, 1) {
            Ok(v) => {
                if v <= 0x8000_0000 {
                    Some((0 - (v as i64)) as i32)
                } else {
                    None
                }
            },
            Err(_) => None,
        }
    } else {
        match parse_u64(b) {
            Some(v) => {
                if v <= i32::MAX as u64 {
                    Some(v as i32)
                } else {
                    None
                }
            },
            None => None,
        }
    }
}

/// The digits of a natural number read back as that number.
pub proof fn lemma_nat_decimal_value(n: nat)
    ensures
        nat_decimal(n).len() > 0,
        all_digits(nat_decimal(n)),
        digits_value(nat_decimal(n)) == n,
    decreases n,
{
    if n >= 10 {
        lemma_nat_decimal_value(n / 10);
        let d = nat_decimal(n);
        assert(d.drop_last() =~= nat_decimal(n / 10));
        assert(d.last() == (0x30 + n % 10) as u8);
        assert(0x30 <= 0x30 + n % 10 <= 0x39);
        assert((d.last() - 0x30) as nat == n % 10);
        assert(n == (n / 10) * 10 + n % 10) by (nonlinear_arith);
        assert(digits_value(d) == digits_value(d.drop_last()) * 10 + (d.last() - 0x30) as nat);
        assert forall|i: int| 0 <= i < d.len() implies is_digit(#[trigger] d[i]) by {
            if i < d.len() - 1 {
                assert(d[i] == nat_decimal(n / 10)[i]);
            }
        }
    } else {
        let d = nat_decimal(n);
        assert(d.drop_last() =~= Seq::<u8>::empty());
        assert(d[0] == (0x30 + n) as u8);
        assert(is_digit(d[0]));
        assert(digits_value(d) == digits_value(d.drop_last()) * 10 + (d.last() - 0x30) as nat);
    }
}

/// The decimal text of an integer reads back as that integer.
pub proof fn law_int_decimal_reads_back(i: int)
    ensures
        signed_text(int_decimal(i)) == Some(i),
{
    if i < 0 {
        let n = (-i) as nat;
        lemma_nat_decimal_value(n);
        assert((seq![0x2du8] + nat_decimal(n)).skip(1) =~= nat_decimal(n));
    } else {
        lemma_nat_decimal_value(i as nat);
        let d = nat_decimal(i as nat);
        assert(is_digit(d[0]));
    }
}

/// The text of a sequence of characters is the texts of its parts, one after
/// the other.
pub proof fn lemma_encode_utf8_concat(a: Seq<char>, b: Seq<char>)
    ensures
        vstd::utf8::encode_utf8(a + b) == vstd::utf8::encode_utf8(a) + vstd::utf8::encode_utf8(b),
    decreases a.len(),
{
    if a.len() > 0 {
        lemma_encode_utf8_concat(a.drop_first(), b);
        assert((a + b).drop_first() =~= a.drop_first() + b);
        assert((a + b)[0] == a[0]);
        assert(vstd::utf8::encode_utf8(a + b) =~= vstd::utf8::encode_utf8(a) + vstd::utf8::encode_utf8(b));
    } else {
        assert(a + b =~= b);
        assert(vstd::utf8::encode_utf8(a) =~= Seq::<u8>::empty());
        assert(vstd::utf8::encode_utf8(a + b) =~= vstd::utf8::encode_utf8(a) + vstd::utf8::encode_utf8(b));
    }
}


// ------------------------------------------------------------------
// Searching bytes
// ------------------------------------------------------------------

/// The position of the first byte `x` in `b`, if any.
pub open spec fn first_index(b: Seq<u8>, x: u8) -> Option<int>
    decreases b.len(),
{
    if b.len() == 0 {
        None
    } else {
        match first_index(b.drop_last(), x) {
            Some(i) => Some(i),
            None => if b.last() == x {
                Some(b.len() - 1)
            } else {
                None
            },
        }
    }
}

/// The position of the first byte `x` in `b`, if any.
pub fn find_byte(b: &[u8], x: u8) -> (r: Option<usize>)
    ensures
        match first_index(b@, x) {
            Some(i) => r == Some(i as usize),
            None => r is None,
        },
{
    let mut i: usize = 0;
    while i < b.len()
        invariant
            i <= b@.len(),
            first_index(b@.take(i as int), x) is None,
        decreases b@.len() - i,
    {
        proof {
            assert(b@.take(i + 1).drop_last() =~= b@.take(i as int));
            lemma_first_index_prefix(b@, x, i + 1);
        }
        if b[i] == x {
            return Some(i);
        }
        i = i + 1;
    }
    assert(b@.take(b@.len() as int) =~= b@);
    None
}

pub proof fn lemma_first_index(b: Seq<u8>, x: u8)
    ensures
        first_index(b, x) matches Some(i) ==> {
            &&& 0 <= i < b.len()
            &&& b[i] == x
            &&& forall|j: int| 0 <= j < i ==> b[j] != x
        },
        first_index(b, x) is None ==> forall|j: int| 0 <= j < b.len() ==> b[j] != x,
    decreases b.len(),
{
    if b.len() > 0 {
        let p = b.drop_last();
        lemma_first_index(p, x);
        assert(forall|j: int| 0 <= j < p.len() ==> p[j] == b[j]);
    }
}

/// Where the first `x` of a prefix is found, it is the first of the whole.
pub proof fn lemma_first_index_prefix(b: Seq<u8>, x: u8, n: int)
    requires
        0 <= n <= b.len(),
    ensures
        first_index(b.take(n), x) matches Some(i) ==> first_index(b, x) == Some(i),
        first_index(b.take(n), x) is None && n < b.len() && b[n] == x ==> first_index(b, x)
            == Some(n),
    decreases b.len() - n,
{
    if n < b.len() {
        assert(b.take(n + 1).drop_last() =~= b.take(n));
        lemma_first_index_prefix(b, x, n + 1);
    } else {
        assert(b.take(n) =~= b);
    }
}

pub proof fn lemma_first_index_at(b: Seq<u8>, x: u8, i: int)
    requires
        0 <= i < b.len(),
        b[i] == x,
        forall|j: int| 0 <= j < i ==> b[j] != x,
    ensures
        first_index(b, x) == Some(i),
{
    lemma_first_index(b, x);
}

/// The bytes of `b` from `lo` up to `hi`.
pub fn slice_between(b: &[u8], lo: usize, hi: usize) -> (r: Vec<u8>)
    requires
        lo <= hi <= b@.len(),
    ensures
        r@ == b@.subrange(lo as int, hi as int),
{
    let mut out: Vec<u8> = Vec::new();
    let mut i: usize = lo;
    while i < hi
        invariant
            lo <= i <= hi <= b@.len(),
            out@ == b@.subrange(lo as int, i as int),
        decreases hi - i,
    {
        out.push(b[i]);
        i = i + 1;
        assert(out@ =~= b@.subrange(lo as int, i as int));
    }
    out
}


// ------------------------------------------------------------------
// Rewriting ASCII characters
// ------------------------------------------------------------------

/// A character map that keeps ASCII characters ASCII and leaves every other
/// character alone.
pub open spec fn ascii_map(f: spec_fn(char) -> char) -> bool {
    &&& forall|c: char| (c as u32) < 0x80 ==> (#[trigger] f(c) as u32) < 0x80
    &&& forall|c: char| (c as u32) >= 0x80 ==> #[trigger] f(c) == c
}

/// The byte map that an ASCII character map induces on UTF-8.
pub open spec fn byte_map(f: spec_fn(char) -> char, b: u8) -> u8 {
    if b < 0x80 {
        f(b as char) as u8
    } else {
        b
    }
}

proof fn lemma_high_bytes(v: u32)
    requires
        vstd::utf8::is_scalar(v),
        v >= 0x80,
    ensures
        forall|i: int|
            0 <= i < vstd::utf8::encode_scalar(v).len() ==> #[trigger] vstd::utf8::encode_scalar(v)[i]
                >= 0x80,
{
    let b1 = ((v >> 6) & 0x1F) as u8;
    let b2 = ((v >> 12) & 0x0F) as u8;
    let b3 = ((v >> 18) & 0x7) as u8;
    let c1 = (v & 0x3F) as u8;
    let c2 = ((v >> 6) & 0x3F) as u8;
    let c3 = ((v >> 12) & 0x3F) as u8;
    assert(0xC0 | b1 >= 0x80) by (bit_vector);
    assert(0xE0 | b2 >= 0x80) by (bit_vector);
    assert(0xF0 | b3 >= 0x80) by (bit_vector);
    assert(0x80 | c1 >= 0x80) by (bit_vector);
    assert(0x80 | c2 >= 0x80) by (bit_vector);
    assert(0x80 | c3 >= 0x80) by (bit_vector);
}

/// Mapping ASCII characters maps the bytes of their encoding the same way.
pub proof fn lemma_encode_ascii_map(s: Seq<char>, f: spec_fn(char) -> char)
    requires
        ascii_map(f),
    ensures
        vstd::utf8::encode_utf8(s.map_values(f)) == vstd::utf8::encode_utf8(s).map_values(
            |b: u8| byte_map(f, b),
        ),
    decreases s.len(),
{
    let g = |b: u8| byte_map(f, b);
    if s.len() == 0 {
        assert(s.map_values(f) =~= Seq::<char>::empty());
        assert(vstd::utf8::encode_utf8(s).map_values(g) =~= Seq::<u8>::empty());
    } else {
        let t = s.map_values(f);
        lemma_encode_ascii_map(s.drop_first(), f);
        assert(t.drop_first() =~= s.drop_first().map_values(f));
        let c = s[0];
        let v = c as u32;
        vstd::utf8::char_is_scalar(c);
        let head = vstd::utf8::encode_scalar(v);
        let rest = vstd::utf8::encode_utf8(s.drop_first());
        assert(vstd::utf8::encode_utf8(s) == head + rest);
        assert((head + rest).map_values(g) =~= head.map_values(g) + rest.map_values(g));
        if v < 0x80 {
            let d = f(c);
            vstd::utf8::char_is_scalar(d);
            assert((d as u32) < 0x80);
            assert(head =~= seq![(v & 0x7F) as u8]);
            assert((v & 0x7F) == v) by (bit_vector)
                requires
                    v < 0x80,
            ;
            let dv = d as u32;
            assert((dv & 0x7F) == dv) by (bit_vector)
                requires
                    dv < 0x80,
            ;
            vstd::utf8::char_u32_cast(c, v);
            let bv = (v & 0x7F) as u8;
            assert(bv as int == v as int);
            assert(bv as char == v as char);
            assert(head[0] == bv);
            assert(g(bv) == (f(c) as u8));
            vstd::utf8::char_u32_cast(d, dv);
            assert(head.map_values(g) =~= vstd::utf8::encode_scalar(d as u32));
        } else {
            lemma_high_bytes(v);
            assert(head.map_values(g) =~= head);
            assert(f(c) == c);
        }
        assert(t[0] == f(c));
        assert(vstd::utf8::encode_utf8(t) == vstd::utf8::encode_scalar(t[0] as u32)
            + vstd::utf8::encode_utf8(t.drop_first()));
    }
}

/// A text with each ASCII character rewritten by `f`.
pub(crate) fn map_ascii(s: &str, Ghost(f): Ghost<spec_fn(char) -> char>, table: &[u8]) -> (r: String)
    requires
        ascii_map(f),
        table@.len() == 128,
        forall|i: int| 0 <= i < 128 ==> #[trigger] table@[i] == f(i as char) as u8,
    ensures
        r@ == s@.map_values(f),
{
    let b = s.as_bytes();
    let ghost g = |x: u8| byte_map(f, x);
    let mut out: Vec<u8> = Vec::new();
    let mut i: usize = 0;
    while i < b.len()
        invariant
            i <= b@.len(),
            table@.len() == 128,
            forall|k: int| 0 <= k < 128 ==> #[trigger] table@[k] == f(k as char) as u8,
            g == (|x: u8| byte_map(f, x)),
            out@ == b@.take(i as int).map_values(g),
        decreases b@.len() - i,
    {
        let x = b[i];
        let y = if x < 0x80 {
            table[x as usize]
        } else {
            x
        };
        out.push(y);
        i = i + 1;
        assert(out@ =~= b@.take(i as int).map_values(g));
    }
    proof {
        assert(b@.take(b@.len() as int) =~= b@);
        lemma_encode_ascii_map(s@, f);
        vstd::utf8::encode_utf8_valid_utf8(s@.map_values(f));
        vstd::utf8::encode_utf8_decode_utf8(s@.map_values(f));
    }
    from_utf8_lossy(out.as_slice())
}

/// The map that rewrites one character into another.
pub open spec fn swap_char(from: char, to: char) -> spec_fn(char) -> char {
    |c: char| if c == from { to } else { c }
}

/// The map that lower-cases ASCII letters.
pub open spec fn lower_char() -> spec_fn(char) -> char {
    |c: char| if 'A' <= c <= 'Z' { ((c as u32) + 32) as char } else { c }
}

proof fn lemma_ascii_char_byte(x: u32)
    requires
        x < 0x80,
    ensures
        ((x as char) as u32) == x,
        ((x as char) as u8) == x,
{
}

/// A text with every `from` replaced by `to`, both ASCII.
pub fn replace_ascii_char(s: &str, from: u8, to: u8) -> (r: String)
    requires
        from < 0x80,
        to < 0x80,
    ensures
        r@ == s@.map_values(swap_char(from as char, to as char)),
{
    let ghost f = swap_char(from as char, to as char);
    proof {
        lemma_ascii_char_byte(from as u32);
        lemma_ascii_char_byte(to as u32);
        assert forall|c: char| (c as u32) < 0x80 implies (#[trigger] f(c) as u32) < 0x80 by {}
        assert forall|c: char| (c as u32) >= 0x80 implies #[trigger] f(c) == c by {}
    }
    let mut table: Vec<u8> = Vec::new();
    let mut i: u8 = 0;
    while i < 0x80
        invariant
            i <= 0x80,
            from < 0x80,
            to < 0x80,
            table@.len() == i,
            f == swap_char(from as char, to as char),
            forall|k: int| 0 <= k < i ==> #[trigger] table@[k] == f(k as char) as u8,
        decreases 0x80 - i,
    {
        proof {
            lemma_ascii_char_byte(i as u32);
            lemma_ascii_char_byte(to as u32);
            vstd::utf8::char_u32_cast(i as char, i as u32);
            vstd::utf8::char_u32_cast(from as char, from as u32);
        }
        if i == from {
            table.push(to);
        } else {
            table.push(i);
        }
        i = i + 1;
    }
    map_ascii(s, Ghost(f), table.as_slice())
}

/// A text with its ASCII letters in lower case.
pub fn to_ascii_lowercase(s: &str) -> (r: String)
    ensures
        r@ == s@.map_values(lower_char()),
{
    let ghost f = lower_char();
    proof {
        assert forall|c: char| (c as u32) < 0x80 implies (#[trigger] f(c) as u32) < 0x80 by {
            if 'A' <= c <= 'Z' {
                lemma_ascii_char_byte(((c as u32) + 32) as u32);
            }
        }
        assert forall|c: char| (c as u32) >= 0x80 implies #[trigger] f(c) == c by {}
    }
    let mut table: Vec<u8> = Vec::new();
    let mut i: u8 = 0;
    while i < 0x80
        invariant
            i <= 0x80,
            table@.len() == i,
            f == lower_char(),
            forall|k: int| 0 <= k < i ==> #[trigger] table@[k] == f(k as char) as u8,
        decreases 0x80 - i,
    {
        proof {
            lemma_ascii_char_byte(i as u32);
            if 0x41 <= i <= 0x5a {
                lemma_ascii_char_byte((i + 32) as u32);
            }
        }
        if 0x41 <= i && i <= 0x5a {
            table.push(i + 32);
        } else {
            table.push(i);
        }
        i = i + 1;
    }
    map_ascii(s, Ghost(f), table.as_slice())
}

/// Whether a text contains a character.
pub fn contains_char(s: &str, c: char) -> (r: bool)
    ensures
        r == s@.contains(c),
{
    let n = s.unicode_len();
    let mut i: usize = 0;
    while i < n
        invariant
            n == s@.len(),
            i <= n,
            forall|k: int| 0 <= k < i ==> s@[k] != c,
        decreases n - i,
    {
        if s.get_char(i) == c {
            return true;
        }
        i = i + 1;
    }
    false
}

} // verus!
