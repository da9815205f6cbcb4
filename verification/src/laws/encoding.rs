//! What the encodings are, digit by digit and byte by byte.
use vstd::prelude::*;
use crate::codec;
use crate::decimal;
use crate::event::{AuditOutcome, AuditRecord};
use crate::keyslot;
use crate::keyslot::{Factor, Kdf, Keyslot, SlotView};
use crate::primitives;
use crate::vault::aad;
use crate::vault::aad::TableTag;
use crate::vault::audit;

verus! {

/// The number that bytes stand for, most significant first.
pub open spec fn number(bytes: Seq<u8>) -> nat
    decreases bytes.len(),
{
    if bytes.len() == 0 {
        0
    } else {
        number(bytes.drop_last()) * 256 + bytes.last() as nat
    }
}

/// A signed number as 64 bits take it.
pub open spec fn wrapped(x: i64) -> int {
    if x < 0 {
        x + 0x1_0000_0000_0000_0000
    } else {
        x as int
    }
}

proof fn lemma_number_push(bytes: Seq<u8>, b: u8)
    ensures
        number(bytes.push(b)) == number(bytes) * 256 + b as nat,
{
    assert(bytes.push(b).drop_last() =~= bytes);
}

pub proof fn lemma_be32_is_its_number(x: u32)
    ensures
        codec::be32(x).len() == 4,
        number(codec::be32(x)) == x,
{
    let b = codec::be32(x);
    let none = Seq::<u8>::empty();
    let b1 = none.push(b[0]);
    let b2 = b1.push(b[1]);
    let b3 = b2.push(b[2]);
    lemma_number_push(none, b[0]);
    lemma_number_push(b1, b[1]);
    lemma_number_push(b2, b[2]);
    lemma_number_push(b3, b[3]);
    assert(b3.push(b[3]) =~= b);
    assert(number(none) == 0);
    assert(x as u64 == (((x >> 24) as u8) as u64) * 0x100_0000 + (((x >> 16) as u8) as u64)
        * 0x1_0000 + (((x >> 8) as u8) as u64) * 0x100 + ((x as u8) as u64)) by (bit_vector);
}

pub proof fn lemma_be64_is_its_number(x: u64)
    ensures
        codec::be64(x).len() == 8,
        number(codec::be64(x)) == x,
{
    let b = codec::be64(x);
    let high = (x >> 32) as u32;
    let low = x as u32;
    assert((x >> 56) as u8 == (high >> 24) as u8) by (bit_vector)
        requires
            high == (x >> 32) as u32,
    ;
    assert((x >> 48) as u8 == (high >> 16) as u8) by (bit_vector)
        requires
            high == (x >> 32) as u32,
    ;
    assert((x >> 40) as u8 == (high >> 8) as u8) by (bit_vector)
        requires
            high == (x >> 32) as u32,
    ;
    assert((x >> 32) as u8 == high as u8) by (bit_vector)
        requires
            high == (x >> 32) as u32,
    ;
    assert((x >> 24) as u8 == (low >> 24) as u8) by (bit_vector)
        requires
            low == x as u32,
    ;
    assert((x >> 16) as u8 == (low >> 16) as u8) by (bit_vector)
        requires
            low == x as u32,
    ;
    assert((x >> 8) as u8 == (low >> 8) as u8) by (bit_vector)
        requires
            low == x as u32,
    ;
    assert(x as u8 == low as u8) by (bit_vector)
        requires
            low == x as u32,
    ;
    assert(x == (high as u64) * 0x1_0000_0000 + (low as u64)) by (bit_vector)
        requires
            high == (x >> 32) as u32,
            low == x as u32,
    ;
    lemma_be32_is_its_number(high);
    lemma_be32_is_its_number(low);
    let h = codec::be32(high);
    let l = codec::be32(low);
    assert(b =~= h + l);
    let h1 = h.push(l[0]);
    let h2 = h1.push(l[1]);
    let h3 = h2.push(l[2]);
    lemma_number_push(h, l[0]);
    lemma_number_push(h1, l[1]);
    lemma_number_push(h2, l[2]);
    lemma_number_push(h3, l[3]);
    assert(h3.push(l[3]) =~= b);
    let none = Seq::<u8>::empty();
    let l1 = none.push(l[0]);
    let l2 = l1.push(l[1]);
    let l3 = l2.push(l[2]);
    lemma_number_push(none, l[0]);
    lemma_number_push(l1, l[1]);
    lemma_number_push(l2, l[2]);
    lemma_number_push(l3, l[3]);
    assert(l3.push(l[3]) =~= l);
    assert(number(none) == 0);
}

pub proof fn lemma_be_i64_is_its_number(x: i64)
    ensures
        codec::be_i64(x).len() == 8,
        number(codec::be_i64(x)) == wrapped(x),
{
    lemma_be64_is_its_number(x as u64);
    if x >= 0 {
        assert(x as u64 == x) by (bit_vector)
            requires
                x >= 0,
        ;
    } else {
        assert(x as u64 == x + 0x1_0000_0000_0000_0000) by (bit_vector)
            requires
                x < 0,
        ;
    }
}

/// Numbers are written in full width, most significant byte first, behind what is there.
pub proof fn law_numbers_are_big_endian(
    out64: &mut Vec<u8>,
    x: u64,
    out32: &mut Vec<u8>,
    y: u32,
    outi: &mut Vec<u8>,
    z: i64,
)
    requires
        call_ensures(codec::push_be64, (out64, x), ()),
        call_ensures(codec::push_be32, (out32, y), ()),
        call_ensures(codec::push_be_i64, (outi, z), ()),
    ensures
        ({
            let n = old(out64)@.len() as int;
            let w = final(out64)@;
            &&& w.len() == n + 8
            &&& w.take(n) == old(out64)@
            &&& number(w.skip(n)) == x
        }),
        ({
            let n = old(out32)@.len() as int;
            let w = final(out32)@;
            &&& w.len() == n + 4
            &&& w.take(n) == old(out32)@
            &&& number(w.skip(n)) == y
        }),
        ({
            let n = old(outi)@.len() as int;
            let w = final(outi)@;
            &&& w.len() == n + 8
            &&& w.take(n) == old(outi)@
            &&& number(w.skip(n)) == wrapped(z)
        }),
{
    lemma_be64_is_its_number(x);
    lemma_be32_is_its_number(y);
    lemma_be_i64_is_its_number(z);
    assert(final(out64)@.take(old(out64)@.len() as int) =~= old(out64)@);
    assert(final(out64)@.skip(old(out64)@.len() as int) =~= codec::be64(x));
    assert(final(out32)@.take(old(out32)@.len() as int) =~= old(out32)@);
    assert(final(out32)@.skip(old(out32)@.len() as int) =~= codec::be32(y));
    assert(final(outi)@.take(old(outi)@.len() as int) =~= old(outi)@);
    assert(final(outi)@.skip(old(outi)@.len() as int) =~= codec::be_i64(z));
}

/// Bytes are written behind their length, all of them.
pub proof fn law_prefixed_bytes_are_whole(out: &mut Vec<u8>, bytes: &[u8])
    requires
        call_ensures(codec::push_prefixed, (out, bytes), ()),
        bytes@.len() <= u64::MAX,
    ensures
        ({
            let n = old(out)@.len() as int;
            let w = final(out)@;
            &&& w.len() == n + 8 + bytes@.len()
            &&& w.take(n) == old(out)@
            &&& number(w.subrange(n, n + 8)) == bytes@.len()
            &&& w.skip(n + 8) == bytes@
        }),
{
    let n = old(out)@.len() as int;
    let w = final(out)@;
    lemma_be64_is_its_number(bytes@.len() as u64);
    assert(w.take(n) =~= old(out)@);
    assert(w.subrange(n, n + 8) =~= codec::be64(bytes@.len() as u64));
    assert(w.skip(n + 8) =~= bytes@);
}

/// The associated data of a record is the number of its table, then row id, version and generation
/// in eight bytes each.
pub proof fn law_record_aad_has_every_field(
    tag: TableTag,
    row_id: i64,
    version: i64,
    dek_generation: i64,
    bytes: Vec<u8>,
)
    requires
        call_ensures(aad::record_aad, (tag, row_id, version, dek_generation), bytes),
    ensures
        bytes@.len() == 25,
        bytes@[0] == (match tag {
            TableTag::SecretVersion => 1u8,
            TableTag::CaKey => 2u8,
            TableTag::Cert => 3u8,
            TableTag::HmacKey => 4u8,
        }),
        number(bytes@.subrange(1, 9)) == wrapped(row_id),
        number(bytes@.subrange(9, 17)) == wrapped(version),
        number(bytes@.subrange(17, 25)) == wrapped(dek_generation),
{
    lemma_aad_fields(tag, row_id, version, dek_generation);
}

pub proof fn lemma_aad_fields(tag: TableTag, row_id: i64, version: i64, dek_generation: i64)
    ensures
        ({
            let bytes = aad::record_aad_bytes(tag, row_id, version, dek_generation);
            &&& bytes.len() == 25
            &&& bytes[0] == (match tag {
                TableTag::SecretVersion => 1u8,
                TableTag::CaKey => 2u8,
                TableTag::Cert => 3u8,
                TableTag::HmacKey => 4u8,
            })
            &&& number(bytes.subrange(1, 9)) == wrapped(row_id)
            &&& number(bytes.subrange(9, 17)) == wrapped(version)
            &&& number(bytes.subrange(17, 25)) == wrapped(dek_generation)
        }),
{
    let bytes = aad::record_aad_bytes(tag, row_id, version, dek_generation);
    lemma_be_i64_is_its_number(row_id);
    lemma_be_i64_is_its_number(version);
    lemma_be_i64_is_its_number(dek_generation);
    assert(bytes.subrange(1, 9) =~= codec::be_i64(row_id));
    assert(bytes.subrange(9, 17) =~= codec::be_i64(version));
    assert(bytes.subrange(17, 25) =~= codec::be_i64(dek_generation));
}

/// Whether a character is the digit for a number below sixteen, in lower case.
pub open spec fn is_digit_for(c: char, n: int) -> bool {
    if n <= 9 {
        c as int == '0' as int + n
    } else {
        c as int == 'a' as int + n - 10
    }
}

/// What a character counts for in hexadecimal, in either case.
pub open spec fn counts(c: char) -> Option<int> {
    if '0' <= c <= '9' {
        Some(c as int - '0' as int)
    } else if 'a' <= c <= 'f' {
        Some(c as int - 'a' as int + 10)
    } else if 'A' <= c <= 'F' {
        Some(c as int - 'A' as int + 10)
    } else {
        None
    }
}

/// Each byte is written as two lower-case digits, the higher one first.
pub proof fn law_hex_is_two_digits_a_byte(bytes: &[u8], text: String)
    requires
        call_ensures(codec::hex_encode, (bytes,), text),
    ensures
        text@.len() == 2 * bytes@.len(),
        forall|i: int|
            0 <= i < bytes@.len() ==> is_digit_for(text@[2 * i], (#[trigger] bytes@[i]) as int / 16)
                && is_digit_for(text@[2 * i + 1], bytes@[i] as int % 16),
{
    lemma_hex_digits(bytes@);
}

pub proof fn lemma_hex_digits(bytes: Seq<u8>)
    ensures
        codec::hex_text(bytes).len() == 2 * bytes.len(),
        forall|i: int|
            0 <= i < bytes.len() ==> is_digit_for(
                codec::hex_text(bytes)[2 * i],
                (#[trigger] bytes[i]) as int / 16,
            ) && is_digit_for(codec::hex_text(bytes)[2 * i + 1], bytes[i] as int % 16),
{
    assert forall|i: int| 0 <= i < bytes.len() implies is_digit_for(
        codec::hex_text(bytes)[2 * i],
        (#[trigger] bytes[i]) as int / 16,
    ) && is_digit_for(codec::hex_text(bytes)[2 * i + 1], bytes[i] as int % 16) by {
        assert((2 * i) / 2 == i && (2 * i + 1) / 2 == i);
        assert((2 * i) % 2 == 0 && (2 * i + 1) % 2 == 1);
    }
}

/// A text is read as bytes exactly where it is pairs of hexadecimal digits, and each pair is a
/// byte.
pub proof fn law_hex_is_read_pair_by_pair(text: &str, bytes: Option<Vec<u8>>)
    requires
        call_ensures(codec::hex_decode, (text,), bytes),
    ensures
        bytes is Some <==> text@.len() % 2 == 0 && forall|i: int|
            0 <= i < text@.len() ==> counts(#[trigger] text@[i]) is Some,
        bytes matches Some(b) ==> b@.len() * 2 == text@.len() && forall|i: int|
            0 <= i < b@.len() ==> #[trigger] b@[i] == counts(text@[2 * i]).unwrap() * 16 + counts(
                text@[2 * i + 1],
            ).unwrap(),
{
    assert forall|c: char| codec::hex_value(c) == #[trigger] counts(c) by {}
    if codec::is_hex(text@) {
        assert forall|i: int| 0 <= i < text@.len() implies counts(
            #[trigger] text@[i],
        ) is Some by {
            assert(codec::hex_value(text@[i]) is Some);
        }
        let b = bytes.unwrap()@;
        assert forall|i: int| 0 <= i < b.len() implies #[trigger] b[i] == counts(
            text@[2 * i],
        ).unwrap() * 16 + counts(text@[2 * i + 1]).unwrap() by {
            assert(codec::hex_value(text@[2 * i]) is Some);
            assert(codec::hex_value(text@[2 * i + 1]) is Some);
        }
    } else if text@.len() % 2 == 0 {
        let i = choose|i: int|
            0 <= i < text@.len() && codec::hex_value(#[trigger] text@[i]) is None;
        assert(counts(text@[i]) is None);
    }
}

/// What was written as hexadecimal is read back.
pub proof fn law_hex_comes_back(bytes: &[u8], text: String, read: &str, back: Option<Vec<u8>>)
    requires
        call_ensures(codec::hex_encode, (bytes,), text),
        read@ == text@,
        call_ensures(codec::hex_decode, (read,), back),
    ensures
        back matches Some(b) && b@ == bytes@,
{
    codec::law_hex_round_trip(bytes@);
}

/// Numbers are written in decimal: a digit by itself, a further digit behind the others, and a
/// minus sign before a negative number.
pub proof fn law_decimal_grows_by_digits(n: int, d: int)
    requires
        0 <= n,
        0 <= d <= 9,
    ensures
        decimal::decimal_text(d).len() == 1,
        decimal::decimal_text(d)[0] as int == '0' as int + d,
        n > 0 ==> decimal::decimal_text(10 * n + d) == decimal::decimal_text(n)
            + decimal::decimal_text(d),
        n > 0 ==> decimal::decimal_text(-n) == seq!['-'] + decimal::decimal_text(n),
{
    if n > 0 {
        assert((10 * n + d) / 10 == n && (10 * n + d) % 10 == d) by (nonlinear_arith)
            requires
                0 <= d <= 9,
        ;
        assert(decimal::decimal_nat((10 * n + d) as nat) == decimal::decimal_nat(n as nat).push(
            decimal::decimal_digit(d as nat),
        ));
        assert(decimal::decimal_text(10 * n + d) =~= decimal::decimal_text(n)
            + decimal::decimal_text(d));
    }
}

/// A number is written as its decimal text, and read back from it.
pub proof fn law_numbers_come_back(n: i64, text: String, read: &str, back: Option<i64>)
    requires
        call_ensures(decimal::decimal_i64, (n,), text),
        read@ == text@,
        call_ensures(decimal::parse_i64, (read,), back),
    ensures
        text@ == decimal::decimal_text(n as int),
        back == Some(n),
{
    decimal::law_decimal_round_trip(n);
}

/// A text without a digit is no number; a sign stands only at the front; and every further digit
/// makes ten times as much and the digit.
pub proof fn law_numbers_are_read_digit_by_digit(
    text: &str,
    value: Option<i64>,
    longer: &str,
    c: char,
    more: Option<i64>,
)
    requires
        call_ensures(decimal::parse_i64, (text,), value),
        call_ensures(decimal::parse_i64, (longer,), more),
        longer@ == text@.push(c),
    ensures
        text@.len() == 0 ==> value is None,
        text@.len() == 0 && '0' <= c <= '9' ==> more == Some((c as int - '0' as int) as i64),
        text@.len() > 0 && !('0' <= c <= '9') ==> more is None,
        value matches Some(v) ==> '0' <= c <= '9' ==> {
            let digit = c as int - '0' as int;
            let next = if text@[0] == '-' {
                10 * v - digit
            } else {
                10 * v + digit
            };
            if i64::MIN <= next <= i64::MAX {
                more == Some(next as i64)
            } else {
                more is None
            }
        },
{
    let l = longer@;
    assert(l.drop_last() =~= text@);
    if text@.len() == 0 {
        assert(l =~= seq![c]);
        assert(l.drop_first() =~= Seq::<char>::empty());
        assert(decimal::digits_value(Seq::<char>::empty()) == Some(0nat));
    } else {
        assert(l[0] == text@[0]);
        assert(l.drop_first().drop_last() =~= text@.drop_first());
        assert(l.drop_first().last() == c);
    }
}

/// The view of an optional text or of optional bytes is the whole of what is there.
pub proof fn law_optional_views_are_whole(text: Option<String>, bytes: Option<Vec<u8>>)
    ensures
        text is None ==> codec::text_view(text) is None,
        text matches Some(t) ==> codec::text_view(text) == Some(t@),
        bytes is None ==> codec::bytes_view(bytes) is None,
        bytes matches Some(b) ==> codec::bytes_view(bytes) == Some(b@),
{
}

/// What stands behind the derivation in the associated data of a slot.
pub open spec fn behind_derivation(slot: SlotView) -> Seq<u8> {
    codec::prefixed(slot.salt) + (codec::optional_text(slot.usb_partition_uuid) + codec::be_i64(
        slot.dek_generation,
    ))
}

/// The parts of the associated data of a slot lie one behind the other.
proof fn lemma_aad_parts(id: Seq<u8>, factor: u8, kdf: Seq<u8>, tail: Seq<u8>)
    requires
        id.len() == 8,
        kdf.len() == 13,
    ensures
        ({
            let whole = id + (seq![factor] + (kdf + tail));
            &&& whole.len() == 22 + tail.len()
            &&& whole.subrange(0, 8) == id
            &&& whole[8] == factor
            &&& whole.subrange(9, 22) == kdf
            &&& whole.subrange(22, whole.len() as int) == tail
        }),
{
    let whole = id + (seq![factor] + (kdf + tail));
    assert(whole.subrange(0, 8) =~= id);
    assert(whole.subrange(9, 22) =~= kdf);
    assert(whole.subrange(22, whole.len() as int) =~= tail);
}

/// The associated data of a slot starts with its id in eight bytes, the number of its factor and
/// its derivation in thirteen bytes.
pub proof fn law_slot_aad_starts_with_its_identity(slot: &Keyslot, aad: Vec<u8>)
    requires
        call_ensures(keyslot::keyslot_aad, (slot,), aad),
    ensures
        aad@.len() >= 22,
        number(aad@.subrange(0, 8)) == wrapped(slot.id),
        aad@[8] == (match slot.factor {
            Factor::Usb => 1u8,
            Factor::Passphrase => 2u8,
            Factor::RequireBoth => 3u8,
        }),
        aad@.subrange(9, 22) == keyslot::kdf_bytes(slot.kdf),
        aad@.subrange(22, aad@.len() as int) == behind_derivation(slot@),
{
    lemma_be_i64_is_its_number(slot.id);
    law_derivation_has_every_parameter(slot.kdf);
    lemma_aad_parts(
        codec::be_i64(slot.id),
        keyslot::factor_code(slot.factor),
        keyslot::kdf_bytes(slot.kdf),
        behind_derivation(slot@),
    );
}

/// A derivation is told by its number and its three parameters, in four bytes each.
pub proof fn law_derivation_has_every_parameter(kdf: Kdf)
    ensures
        ({
            let bytes = keyslot::kdf_bytes(kdf);
            &&& bytes.len() == 13
            &&& kdf matches Kdf::Argon2id(p) ==> {
                &&& bytes[0] == 1
                &&& number(bytes.subrange(1, 5)) == p.m_kib
                &&& number(bytes.subrange(5, 9)) == p.t_cost
                &&& number(bytes.subrange(9, 13)) == p.p_lanes
            }
            &&& kdf is HkdfSha256 ==> bytes[0] == 2
        }),
{
    let bytes = keyslot::kdf_bytes(kdf);
    match kdf {
        Kdf::Argon2id(p) => {
            lemma_be32_is_its_number(p.m_kib);
            lemma_be32_is_its_number(p.t_cost);
            lemma_be32_is_its_number(p.p_lanes);
            assert(bytes.subrange(1, 5) =~= codec::be32(p.m_kib));
            assert(bytes.subrange(5, 9) =~= codec::be32(p.t_cost));
            assert(bytes.subrange(9, 13) =~= codec::be32(p.p_lanes));
        },
        Kdf::HkdfSha256 => {
            lemma_be32_is_its_number(0);
        },
    }
}

/// Behind the derivation the associated data of a slot has the salt with its length in front, the
/// partition, and the generation at the end.
pub proof fn law_slot_aad_ends_with_its_salt_and_generation(slot: SlotView)
    requires
        slot.salt.len() <= u64::MAX,
    ensures
        ({
            let tail = behind_derivation(slot);
            let n = slot.salt.len() as int;
            let m = tail.len() as int;
            &&& m >= n + 17
            &&& number(tail.subrange(0, 8)) == n
            &&& tail.subrange(8, 8 + n) == slot.salt
            &&& slot.usb_partition_uuid is None ==> m == n + 17 && tail[8 + n] == 0
            &&& slot.usb_partition_uuid matches Some(uuid) ==> {
                &&& tail[8 + n] == 1
                &&& tail.subrange(n + 17, m - 8) == vstd::utf8::encode_utf8(uuid)
            }
            &&& number(tail.subrange(m - 8, m)) == wrapped(slot.dek_generation)
        }),
{
    let end = codec::be_i64(slot.dek_generation);
    let tail = behind_derivation(slot);
    let n = slot.salt.len() as int;
    let m = tail.len() as int;
    lemma_be_i64_is_its_number(slot.dek_generation);
    lemma_be64_is_its_number(n as u64);
    assert(tail.subrange(0, 8) =~= codec::be64(n as u64));
    assert(tail.subrange(8, 8 + n) =~= slot.salt);
    assert(tail.subrange(m - 8, m) =~= end);
    match slot.usb_partition_uuid {
        Some(uuid) => {
            let bytes = vstd::utf8::encode_utf8(uuid);
            lemma_be64_is_its_number(bytes.len() as u64);
            assert(tail.subrange(n + 17, m - 8) =~= bytes);
        },
        None => {},
    }
}

/// The message under the header MAC starts with its domain, the floor and the number of slots.
pub proof fn law_header_message_starts_with_the_floor(slots: Seq<SlotView>, floor_ms: i64)
    requires
        slots.len() <= u64::MAX,
    ensures
        ({
            let domain = vstd::utf8::encode_utf8("env-ctl/v1/header-mac"@);
            let d = domain.len() as int;
            let message = keyslot::header_message(slots, floor_ms);
            &&& message.len() >= d + 16
            &&& message.subrange(0, d) == domain
            &&& number(message.subrange(d, d + 8)) == wrapped(floor_ms)
            &&& number(message.subrange(d + 8, d + 16)) == slots.len()
        }),
{
    let domain = vstd::utf8::encode_utf8("env-ctl/v1/header-mac"@);
    let d = domain.len() as int;
    let message = keyslot::header_message(slots, floor_ms);
    lemma_be_i64_is_its_number(floor_ms);
    lemma_be64_is_its_number(slots.len() as u64);
    assert(message.subrange(0, d) =~= domain);
    assert(message.subrange(d, d + 8) =~= codec::be_i64(floor_ms));
    assert(message.subrange(d + 8, d + 16) =~= codec::be64(slots.len() as u64));
}

/// What is hashed of a row starts with the whole hash of the row before it and the number of the
/// row, and ends with its outcome.
pub proof fn law_row_message_starts_with_the_link(row: &AuditRecord, digest: [u8; 32])
    requires
        call_ensures(audit::digest_row, (row,), digest),
        row.prev_hash@.len() <= u64::MAX,
    ensures
        ({
            let message = audit::row_message(row@);
            let n = row.prev_hash@.len() as int;
            &&& digest@ == primitives::blake3_hash(message)
            &&& message.len() >= n + 17
            &&& number(message.subrange(0, 8)) == n
            &&& message.subrange(8, 8 + n) == row.prev_hash@
            &&& number(message.subrange(8 + n, 16 + n)) == wrapped(row.seq)
            &&& message.last() == (match row.outcome {
                AuditOutcome::Succeeded => 1u8,
                AuditOutcome::Failed => 2u8,
                AuditOutcome::Refused => 3u8,
            })
        }),
{
    let message = audit::row_message(row@);
    let n = row.prev_hash@.len() as int;
    lemma_be64_is_its_number(n as u64);
    lemma_be_i64_is_its_number(row.seq);
    assert(message.subrange(0, 8) =~= codec::be64(n as u64));
    assert(message.subrange(8, 8 + n) =~= row.prev_hash@);
    assert(message.subrange(8 + n, 16 + n) =~= codec::be_i64(row.seq));
}

} // verus!
