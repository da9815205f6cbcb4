//! Decimal text of integers, and integers read from decimal text.
use vstd::prelude::*;

verus! {

/// The character of a decimal digit.
pub open spec fn decimal_digit(n: nat) -> char {
    (48 + n) as char
}

/// The decimal digits of a natural number, without leading zeros.
pub open spec fn decimal_nat(n: nat) -> Seq<char>
    decreases n,
{
    if n < 10 {
        seq![decimal_digit(n)]
    } else {
        decimal_nat(n / 10).push(decimal_digit(n % 10))
    }
}

/// The decimal text of an integer: a minus sign before a negative one.
pub open spec fn decimal_text(n: int) -> Seq<char> {
    if n < 0 {
        seq!['-'] + decimal_nat((-n) as nat)
    } else {
        decimal_nat(n as nat)
    }
}

/// The number that a run of decimal digits stands for; `None` if another character occurs.
pub open spec fn digits_value(text: Seq<char>) -> Option<nat>
    decreases text.len(),
{
    if text.len() == 0 {
        Some(0)
    } else {
        match digits_value(text.drop_last()) {
            None => None,
            Some(v) => if '0' <= text.last() <= '9' {
                Some((v * 10 + (text.last() as int - 48)) as nat)
            } else {
                None
            },
        }
    }
}

/// The integer that an optional sign and at least one digit stand for.
pub open spec fn signed_value(text: Seq<char>) -> Option<int> {
    let signed = text.len() > 0 && (text[0] == '-' || text[0] == '+');
    let body = if signed {
        text.drop_first()
    } else {
        text
    };
    if body.len() == 0 {
        None
    } else {
        match digits_value(body) {
            None => None,
            Some(v) => if signed && text[0] == '-' {
                Some(-(v as int))
            } else {
                Some(v as int)
            },
        }
    }
}

/// The 64-bit integer written in `text`; `None` if the text is malformed or out of range.
pub open spec fn parsed_i64(text: Seq<char>) -> Option<i64> {
    match signed_value(text) {
        Some(v) => if i64::MIN <= v <= i64::MAX {
            Some(v as i64)
        } else {
            None
        },
        None => None,
    }
}

fn push_decimal(out: &mut String, n: u64)
    ensures
        final(out)@ == old(out)@ + decimal_nat(n as nat),
    decreases n,
{
    if n >= 10 {
        push_decimal(out, n / 10);
    }
    let d: u8 = (n % 10) as u8;
    out.push((48 + d) as char);
    assert(out@ =~= old(out)@ + decimal_nat(n as nat));
}

/// The decimal text of `n`.
pub fn decimal_i64(n: i64) -> (text: String)
    ensures
        text@ == decimal_text(n as int),
{
    let mut out: String = String::new();
    if n < 0 {
        out.push('-');
        let magnitude: u64 = if n == i64::MIN {
            9223372036854775808u64
        } else {
            (-n) as u64
        };
        push_decimal(&mut out, magnitude);
    } else {
        push_decimal(&mut out, n as u64);
    }
    assert(out@ =~= decimal_text(n as int));
    out
}

/// The decimal text of `n`.
pub fn decimal_u64(n: u64) -> (text: String)
    ensures
        text@ == decimal_text(n as int),
{
    let mut out: String = String::new();
    push_decimal(&mut out, n);
    assert(out@ =~= decimal_text(n as int));
    out
}

/// The decimal text of `n`.
pub fn decimal_u32(n: u32) -> (text: String)
    ensures
        text@ == decimal_text(n as int),
{
    let mut out: String = String::new();
    push_decimal(&mut out, n as u64);
    assert(out@ =~= decimal_text(n as int));
    out
}

/// Further digits never make the number smaller.
proof fn lemma_digits_grow(text: Seq<char>, k: int)
    requires
        0 <= k <= text.len(),
        digits_value(text) is Some,
    ensures
        digits_value(text.take(k)) is Some,
        digits_value(text.take(k))->0 <= digits_value(text)->0,
    decreases text.len() - k,
{
    if k == text.len() {
        assert(text.take(k) =~= text);
    } else {
        lemma_digits_grow(text, k + 1);
        assert(text.take(k + 1).drop_last() =~= text.take(k));
    }
}

/// Reads a 64-bit integer: an optional sign and at least one decimal digit.
pub fn parse_i64(text: &str) -> (value: Option<i64>)
    ensures
        value == parsed_i64(text@),
{
    let ascii: bool = text.is_ascii();
    proof {
        vstd::string::is_ascii_spec_bytes(text);
        if !ascii {
            let k = choose|k: int|
                0 <= k < text@.len() && !('\0' <= #[trigger] text@[k] <= '\u{7f}');
            lemma_bad_character(text@, k);
        }
    }
    if !ascii {
        return None;
    }
    let raw: &[u8] = text.as_bytes();
    let n: usize = raw.len();
    if n == 0 {
        return None;
    }
    assert(forall|i: int| 0 <= i < n ==> raw@[i] == text@[i] as u8);
    assert(raw@[0] as char == text@[0]);
    let negative: bool = raw[0] == 45;
    let start: usize = if raw[0] == 45 || raw[0] == 43 {
        1
    } else {
        0
    };
    if start == n {
        return None;
    }
    let ghost body = text@.skip(start as int);
    assert(start == 0 ==> body =~= text@);
    assert(start == 1 ==> body =~= text@.drop_first());
    let mut value: u64 = 0;
    let mut i: usize = start;
    proof {
        assert(body.take(0) =~= Seq::<char>::empty());
    }
    while i < n
        invariant
            n == raw@.len(),
            n == text@.len(),
            start <= 1,
            start < n,
            start <= i <= n,
            body == text@.skip(start as int),
            start == 0 ==> body == text@,
            start == 1 ==> body == text@.drop_first(),
            start == 1 <==> (text@[0] == '-' || text@[0] == '+'),
            negative == (text@[0] == '-'),
            forall|j: int| 0 <= j < n ==> raw@[j] == text@[j] as u8,
            forall|j: int| 0 <= j < n ==> '\0' <= #[trigger] text@[j] <= '\u{7f}',
            digits_value(body.take(i - start)) == Some(value as nat),
            value <= 9223372036854775808u64,
        decreases n - i,
    {
        let c: u8 = raw[i];
        assert(c as char == text@[i as int]);
        assert(body[i - start] == text@[i as int]);
        let ghost longer = body.take(i - start + 1);
        assert(longer.drop_last() =~= body.take(i - start));
        assert(longer.last() == text@[i as int]);
        if c < 48 || c > 57 {
            proof {
                if digits_value(body) is Some {
                    lemma_digits_grow(body, i - start + 1);
                }
            }
            return None;
        }
        if value > 922337203685477580u64 || value * 10 + ((c - 48) as u64)
            > 9223372036854775808u64 {
            proof {
                if digits_value(body) is Some {
                    lemma_digits_grow(body, i - start + 1);
                }
            }
            return None;
        }
        value = value * 10 + ((c - 48) as u64);
        i = i + 1;
    }
    assert(body.take(i - start) =~= body);
    if negative {
        if value == 9223372036854775808u64 {
            Some(i64::MIN)
        } else {
            Some(-(value as i64))
        }
    } else if value == 9223372036854775808u64 {
        None
    } else {
        Some(value as i64)
    }
}

/// A character that is neither a digit nor a sign makes the text malformed.
proof fn lemma_bad_character(text: Seq<char>, k: int)
    requires
        0 <= k < text.len(),
        !('\0' <= text[k] <= '\u{7f}'),
    ensures
        signed_value(text) is None,
{
    let signed = text[0] == '-' || text[0] == '+';
    let body = if signed {
        text.drop_first()
    } else {
        text
    };
    let at = if signed {
        k - 1
    } else {
        k
    };
    assert(body[at] == text[k]);
    if digits_value(body) is Some {
        lemma_digits_grow(body, at + 1);
        assert(body.take(at + 1).last() == text[k]);
    }
}

proof fn lemma_digits_of_nat(n: nat)
    ensures
        digits_value(decimal_nat(n)) == Some(n),
        decimal_nat(n).len() > 0,
        '0' <= decimal_nat(n)[0] <= '9',
    decreases n,
{
    if n < 10 {
        let s = decimal_nat(n);
        assert(s.drop_last() =~= Seq::<char>::empty());
        assert(digits_value(s.drop_last()) == Some(0nat));
    } else {
        lemma_digits_of_nat(n / 10);
        let s = decimal_nat(n);
        assert(s.drop_last() =~= decimal_nat(n / 10));
    }
}

/// Reading the decimal text of a 64-bit integer gives that integer back.
pub proof fn law_decimal_round_trip(n: i64)
    ensures
        parsed_i64(decimal_text(n as int)) == Some(n),
{
    if n < 0 {
        lemma_digits_of_nat((-n) as nat);
        assert(decimal_text(n as int).drop_first() =~= decimal_nat((-n) as nat));
    } else {
        lemma_digits_of_nat(n as nat);
    }
}

} // verus!
