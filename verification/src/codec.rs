//! Canonical byte and text encodings.
use vstd::prelude::*;
use vstd::utf8::*;

verus! {

/// `String::push` appends one character at the end of the string.
pub assume_specification[ String::push ](s: &mut String, ch: char)
    ensures
        final(s)@ == old(s)@.push(ch),
;

/// Equal UTF-8 encodings come from equal strings.
pub proof fn lemma_utf8_injective(a: Seq<char>, b: Seq<char>)
    ensures
        encode_utf8(a) == encode_utf8(b) ==> a == b,
{
    encode_utf8_decode_utf8(a);
    encode_utf8_decode_utf8(b);
}

/// Compares two strings.
pub fn str_eq(a: &str, b: &str) -> (same: bool)
    ensures
        same == (a@ == b@),
{
    let x: &[u8] = a.as_bytes();
    let y: &[u8] = b.as_bytes();
    proof {
        lemma_utf8_injective(a@, b@);
    }
    bytes_eq(x, y)
}

/// Compares two byte strings.
pub fn bytes_eq(a: &[u8], b: &[u8]) -> (same: bool)
    ensures
        same == (a@ == b@),
{
    if a.len() != b.len() {
        return false;
    }
    let mut i: usize = 0;
    while i < a.len()
        invariant
            i <= a@.len(),
            a@.len() == b@.len(),
            forall|j: int| 0 <= j < i ==> a@[j] == b@[j],
        decreases a@.len() - i,
    {
        if a[i] != b[i] {
            return false;
        }
        i = i + 1;
    }
    assert(a@ =~= b@);
    true
}

/// The eight bytes of `x`, most significant first.
pub open spec fn be64(x: u64) -> Seq<u8> {
    seq![
        (x >> 56) as u8,
        (x >> 48) as u8,
        (x >> 40) as u8,
        (x >> 32) as u8,
        (x >> 24) as u8,
        (x >> 16) as u8,
        (x >> 8) as u8,
        x as u8,
    ]
}

/// The four bytes of `x`, most significant first.
pub open spec fn be32(x: u32) -> Seq<u8> {
    seq![(x >> 24) as u8, (x >> 16) as u8, (x >> 8) as u8, x as u8]
}

/// Appends the big-endian bytes of `x`.
pub fn push_be64(out: &mut Vec<u8>, x: u64)
    ensures
        final(out)@ == old(out)@ + be64(x),
{
    out.push((x >> 56) as u8);
    out.push((x >> 48) as u8);
    out.push((x >> 40) as u8);
    out.push((x >> 32) as u8);
    out.push((x >> 24) as u8);
    out.push((x >> 16) as u8);
    out.push((x >> 8) as u8);
    out.push(x as u8);
    assert(out@ =~= old(out)@ + be64(x));
}

/// Appends the big-endian bytes of `x`.
pub fn push_be32(out: &mut Vec<u8>, x: u32)
    ensures
        final(out)@ == old(out)@ + be32(x),
{
    out.push((x >> 24) as u8);
    out.push((x >> 16) as u8);
    out.push((x >> 8) as u8);
    out.push(x as u8);
    assert(out@ =~= old(out)@ + be32(x));
}

/// Big-endian bytes determine the number.
pub proof fn lemma_be64_injective(x: u64, y: u64)
    ensures
        be64(x) == be64(y) ==> x == y,
{
    if be64(x) == be64(y) {
        let a = be64(x);
        let b = be64(y);
        assert(a[0] == b[0] && a[1] == b[1] && a[2] == b[2] && a[3] == b[3]);
        assert(a[4] == b[4] && a[5] == b[5] && a[6] == b[6] && a[7] == b[7]);
        assert(x == y) by (bit_vector)
            requires
                (x >> 56) as u8 == (y >> 56) as u8,
                (x >> 48) as u8 == (y >> 48) as u8,
                (x >> 40) as u8 == (y >> 40) as u8,
                (x >> 32) as u8 == (y >> 32) as u8,
                (x >> 24) as u8 == (y >> 24) as u8,
                (x >> 16) as u8 == (y >> 16) as u8,
                (x >> 8) as u8 == (y >> 8) as u8,
                x as u8 == y as u8,
        ;
    }
}

/// Big-endian bytes determine the number.
pub proof fn lemma_be32_injective(x: u32, y: u32)
    ensures
        be32(x) == be32(y) ==> x == y,
{
    if be32(x) == be32(y) {
        let a = be32(x);
        let b = be32(y);
        assert(a[0] == b[0] && a[1] == b[1] && a[2] == b[2] && a[3] == b[3]);
        assert(x == y) by (bit_vector)
            requires
                (x >> 24) as u8 == (y >> 24) as u8,
                (x >> 16) as u8 == (y >> 16) as u8,
                (x >> 8) as u8 == (y >> 8) as u8,
                x as u8 == y as u8,
        ;
    }
}

/// The two's complement bytes of `x`, most significant first.
pub open spec fn be_i64(x: i64) -> Seq<u8> {
    be64(x as u64)
}

/// Appends the big-endian two's complement bytes of `x`.
pub fn push_be_i64(out: &mut Vec<u8>, x: i64)
    ensures
        final(out)@ == old(out)@ + be_i64(x),
{
    push_be64(out, #[verifier::truncate] (x as u64));
}

/// Big-endian two's complement bytes determine the number.
pub proof fn lemma_be_i64_injective(x: i64, y: i64)
    ensures
        be_i64(x) == be_i64(y) ==> x == y,
{
    lemma_be64_injective(x as u64, y as u64);
    if x as u64 == y as u64 {
        assert(x == y) by (bit_vector)
            requires
                x as u64 == y as u64,
        ;
    }
}

/// A byte string preceded by its length.
pub open spec fn prefixed(bytes: Seq<u8>) -> Seq<u8> {
    be64(bytes.len() as u64) + bytes
}

/// Appends a copy of `bytes`.
pub fn push_bytes(out: &mut Vec<u8>, bytes: &[u8])
    ensures
        final(out)@ == old(out)@ + bytes@,
{
    let ghost before = out@;
    let mut i: usize = 0;
    while i < bytes.len()
        invariant
            i <= bytes@.len(),
            out@ == before + bytes@.subrange(0, i as int),
        decreases bytes@.len() - i,
    {
        out.push(bytes[i]);
        i = i + 1;
        assert(out@ =~= before + bytes@.subrange(0, i as int));
    }
    assert(bytes@.subrange(0, i as int) =~= bytes@);
}

/// Another vector with the same bytes.
pub fn copy_bytes(bytes: &[u8]) -> (copy: Vec<u8>)
    ensures
        copy@ == bytes@,
{
    let mut copy: Vec<u8> = Vec::new();
    push_bytes(&mut copy, bytes);
    assert(copy@ =~= bytes@);
    copy
}

/// Another optional string with the same text.
pub fn copy_optional_text(text: &Option<String>) -> (copy: Option<String>)
    ensures
        text_view(copy) == text_view(*text),
{
    match text {
        None => None,
        Some(t) => Some(t.clone()),
    }
}

/// Appends `bytes` preceded by its length.
pub fn push_prefixed(out: &mut Vec<u8>, bytes: &[u8])
    ensures
        final(out)@ == old(out)@ + prefixed(bytes@),
{
    let n: usize = bytes.len();
    push_be64(out, n as u64);
    push_bytes(out, bytes);
    assert(out@ =~= old(out)@ + prefixed(bytes@));
}

/// Appends the UTF-8 bytes of `text` preceded by their number.
pub fn push_text(out: &mut Vec<u8>, text: &str)
    ensures
        final(out)@ == old(out)@ + prefixed(encode_utf8(text@)),
{
    push_prefixed(out, text.as_bytes());
}

/// An optional text: a zero byte, or a one and the prefixed UTF-8 bytes.
pub open spec fn optional_text(text: Option<Seq<char>>) -> Seq<u8> {
    match text {
        None => seq![0u8],
        Some(t) => seq![1u8] + prefixed(encode_utf8(t)),
    }
}

/// What an optional string holds.
pub open spec fn text_view(text: Option<String>) -> Option<Seq<char>> {
    match text {
        None => None,
        Some(t) => Some(t@),
    }
}

/// Appends the encoding of an optional text.
pub fn push_optional_text(out: &mut Vec<u8>, text: &Option<String>)
    ensures
        final(out)@ == old(out)@ + optional_text(text_view(*text)),
{
    match text {
        None => {
            out.push(0u8);
        },
        Some(t) => {
            out.push(1u8);
            push_text(out, t.as_str());
        },
    }
    assert(out@ =~= old(out)@ + optional_text(text_view(*text)));
}

/// A byte string whose length fits a machine word, as that of every vector does.
pub open spec fn fits(bytes: Seq<u8>) -> bool {
    bytes.len() <= u64::MAX
}

/// Concatenation is associative.
pub proof fn lemma_assoc(a: Seq<u8>, b: Seq<u8>, c: Seq<u8>)
    ensures
        (a + b) + c == a + (b + c),
{
    assert((a + b) + c =~= a + (b + c));
}

/// Two concatenations with first parts of one length agree part by part.
pub proof fn lemma_split(a: Seq<u8>, x: Seq<u8>, b: Seq<u8>, y: Seq<u8>)
    requires
        a + x == b + y,
        a.len() == b.len(),
    ensures
        a == b,
        x == y,
{
    assert(a =~= (a + x).subrange(0, a.len() as int));
    assert(b =~= (b + y).subrange(0, b.len() as int));
    assert(x =~= (a + x).subrange(a.len() as int, (a + x).len() as int));
    assert(y =~= (b + y).subrange(b.len() as int, (b + y).len() as int));
}

/// A length prefix tells where the byte string after it ends.
pub proof fn lemma_prefixed_split(a: Seq<u8>, x: Seq<u8>, b: Seq<u8>, y: Seq<u8>)
    requires
        prefixed(a) + x == prefixed(b) + y,
        fits(a),
        fits(b),
    ensures
        a == b,
        x == y,
{
    let n = be64(a.len() as u64);
    let m = be64(b.len() as u64);
    assert(prefixed(a) + x =~= n + (a + x));
    assert(prefixed(b) + y =~= m + (b + y));
    lemma_split(n, a + x, m, b + y);
    lemma_be64_injective(a.len() as u64, b.len() as u64);
    lemma_split(a, x, b, y);
}

/// An optional text tells where it ends.
pub proof fn lemma_optional_text_split(
    a: Option<Seq<char>>,
    x: Seq<u8>,
    b: Option<Seq<char>>,
    y: Seq<u8>,
)
    requires
        optional_text(a) + x == optional_text(b) + y,
        a matches Some(t) ==> fits(encode_utf8(t)),
        b matches Some(t) ==> fits(encode_utf8(t)),
    ensures
        a == b,
        x == y,
{
    let l = optional_text(a) + x;
    let r = optional_text(b) + y;
    assert(l[0] == optional_text(a)[0]);
    assert(r[0] == optional_text(b)[0]);
    match (a, b) {
        (Some(s), Some(t)) => {
            let p = prefixed(encode_utf8(s));
            let q = prefixed(encode_utf8(t));
            assert(l =~= seq![1u8] + (p + x));
            assert(r =~= seq![1u8] + (q + y));
            lemma_split(seq![1u8], p + x, seq![1u8], q + y);
            lemma_prefixed_split(encode_utf8(s), x, encode_utf8(t), y);
            lemma_utf8_injective(s, t);
        },
        (None, None) => {
            lemma_split(seq![0u8], x, seq![0u8], y);
        },
        _ => {},
    }
}

/// An optional user or process id: a zero byte, or a one and the number.
pub open spec fn optional_u32(x: Option<u32>) -> Seq<u8> {
    match x {
        None => seq![0u8],
        Some(n) => seq![1u8] + be32(n),
    }
}

/// Appends the encoding of an optional number.
pub fn push_optional_u32(out: &mut Vec<u8>, x: Option<u32>)
    ensures
        final(out)@ == old(out)@ + optional_u32(x),
{
    match x {
        None => {
            out.push(0u8);
        },
        Some(n) => {
            out.push(1u8);
            push_be32(out, n);
        },
    }
    assert(out@ =~= old(out)@ + optional_u32(x));
}

/// An optional number tells where it ends.
pub proof fn lemma_optional_u32_split(a: Option<u32>, x: Seq<u8>, b: Option<u32>, y: Seq<u8>)
    requires
        optional_u32(a) + x == optional_u32(b) + y,
    ensures
        a == b,
        x == y,
{
    let l = optional_u32(a) + x;
    let r = optional_u32(b) + y;
    assert(l[0] == optional_u32(a)[0]);
    assert(r[0] == optional_u32(b)[0]);
    lemma_split(optional_u32(a), x, optional_u32(b), y);
    match (a, b) {
        (Some(m), Some(n)) => {
            lemma_split(seq![1u8], be32(m), seq![1u8], be32(n));
            lemma_be32_injective(m, n);
        },
        _ => {},
    }
}

/// The lowercase hexadecimal digit of a number below sixteen.
pub open spec fn hex_digit(n: int) -> char {
    if n < 10 {
        (48 + n) as char
    } else {
        (87 + n) as char
    }
}

/// The value of a hexadecimal digit in either case.
pub open spec fn hex_value(c: char) -> Option<int> {
    if 48 <= c as int <= 57 {
        Some(c as int - 48)
    } else if 97 <= c as int <= 102 {
        Some(c as int - 87)
    } else if 65 <= c as int <= 70 {
        Some(c as int - 55)
    } else {
        None
    }
}

/// Two lowercase hexadecimal digits for each byte, the high half first.
pub open spec fn hex_text(bytes: Seq<u8>) -> Seq<char> {
    Seq::new(
        2 * bytes.len(),
        |i: int|
            if i % 2 == 0 {
                hex_digit(bytes[i / 2] as int / 16)
            } else {
                hex_digit(bytes[i / 2] as int % 16)
            },
    )
}

/// Whether `text` is an even number of hexadecimal digits.
pub open spec fn is_hex(text: Seq<char>) -> bool {
    &&& text.len() % 2 == 0
    &&& forall|i: int| 0 <= i < text.len() ==> hex_value(#[trigger] text[i]) is Some
}

/// The bytes that pairs of hexadecimal digits stand for; `None` on any other text.
pub open spec fn unhex(text: Seq<char>) -> Option<Seq<u8>> {
    if is_hex(text) {
        Some(
            Seq::new(
                text.len() / 2,
                |i: int|
                    (hex_value(text[2 * i])->0 * 16 + hex_value(text[2 * i + 1])->0) as u8,
            ),
        )
    } else {
        None
    }
}

/// What an optional byte vector holds.
pub open spec fn bytes_view(bytes: Option<Vec<u8>>) -> Option<Seq<u8>> {
    match bytes {
        None => None,
        Some(b) => Some(b@),
    }
}

fn hex_char(n: u8) -> (c: char)
    requires
        n < 16,
    ensures
        c == hex_digit(n as int),
{
    if n < 10 {
        (48 + n) as char
    } else {
        (87 + n) as char
    }
}

/// Lowercase hexadecimal, two digits for each byte, without separators.
pub fn hex_encode(bytes: &[u8]) -> (text: String)
    ensures
        text@ == hex_text(bytes@),
{
    let mut text: String = String::new();
    let mut i: usize = 0;
    while i < bytes.len()
        invariant
            i <= bytes@.len(),
            text@.len() == 2 * i,
            forall|j: int| 0 <= j < 2 * i ==> text@[j] == hex_text(bytes@)[j],
        decreases bytes@.len() - i,
    {
        let b: u8 = bytes[i];
        text.push(hex_char(b / 16));
        text.push(hex_char(b % 16));
        i = i + 1;
    }
    assert(text@ =~= hex_text(bytes@));
    text
}

fn hex_nibble(b: u8) -> (n: Option<u8>)
    ensures
        match n {
            Some(v) => v < 16 && hex_value(b as char) == Some(v as int),
            None => hex_value(b as char) is None,
        },
{
    if 48 <= b && b <= 57 {
        Some((b - 48) as u8)
    } else if 97 <= b && b <= 102 {
        Some((b - 87) as u8)
    } else if 65 <= b && b <= 70 {
        Some((b - 55) as u8)
    } else {
        None
    }
}

/// Decodes hexadecimal text in either case; `None` on an odd length or any other character.
pub fn hex_decode(text: &str) -> (bytes: Option<Vec<u8>>)
    ensures
        bytes_view(bytes) == unhex(text@),
{
    let ascii: bool = text.is_ascii();
    proof {
        if !ascii {
            let k = choose|k: int|
                0 <= k < text@.len() && !('\0' <= #[trigger] text@[k] <= '\u{7f}');
            assert(hex_value(text@[k]) is None);
        }
        vstd::string::is_ascii_spec_bytes(text);
    }
    if !ascii {
        return None;
    }
    let raw: &[u8] = text.as_bytes();
    assert(raw@.len() == text@.len());
    assert(forall|i: int| 0 <= i < raw@.len() ==> raw@[i] == text@[i] as u8);
    if raw.len() % 2 != 0 {
        return None;
    }
    let mut out: Vec<u8> = Vec::new();
    let mut i: usize = 0;
    while i < raw.len()
        invariant
            i <= raw@.len(),
            i % 2 == 0,
            raw@.len() % 2 == 0,
            raw@.len() == text@.len(),
            forall|j: int| 0 <= j < raw@.len() ==> raw@[j] == text@[j] as u8,
            forall|j: int| 0 <= j < raw@.len() ==> 0 <= #[trigger] text@[j] as int <= 127,
            forall|j: int| 0 <= j < i ==> hex_value(#[trigger] text@[j]) is Some,
            out@.len() == i / 2,
            forall|j: int|
                0 <= j < i / 2 ==> #[trigger] out@[j] == (hex_value(text@[2 * j])->0 * 16
                    + hex_value(text@[2 * j + 1])->0) as u8,
        decreases raw@.len() - i,
    {
        assert(raw@[i as int] as char == text@[i as int]);
        assert(raw@[i + 1] as char == text@[i + 1]);
        let hi: u8 = match hex_nibble(raw[i]) {
            Some(v) => v,
            None => {
                return None;
            },
        };
        let lo: u8 = match hex_nibble(raw[i + 1]) {
            Some(v) => v,
            None => {
                return None;
            },
        };
        out.push(hi * 16 + lo);
        i = i + 2;
    }
    assert(is_hex(text@));
    assert(out@ =~= unhex(text@)->0);
    Some(out)
}

/// Decoding gives back the bytes that were encoded.
pub proof fn law_hex_round_trip(bytes: Seq<u8>)
    ensures
        unhex(hex_text(bytes)) == Some(bytes),
{
    let text = hex_text(bytes);
    assert forall|i: int| 0 <= i < text.len() implies hex_value(#[trigger] text[i]) is Some by {
        lemma_hex_digit_value(bytes[i / 2] as int / 16);
        lemma_hex_digit_value(bytes[i / 2] as int % 16);
    }
    assert forall|i: int| 0 <= i < bytes.len() implies (hex_value(text[2 * i])->0 * 16 + hex_value(
        text[2 * i + 1],
    )->0) as u8 == bytes[i] by {
        lemma_hex_digit_value(bytes[i] as int / 16);
        lemma_hex_digit_value(bytes[i] as int % 16);
        assert((2 * i) / 2 == i && (2 * i + 1) / 2 == i);
    }
    assert(unhex(text)->0 =~= bytes);
}

proof fn lemma_hex_digit_value(n: int)
    requires
        0 <= n < 16,
    ensures
        hex_value(hex_digit(n)) == Some(n),
{
}

} // verus!
