//! Decimal text of integers, as used for directory names on disk.

use vstd::prelude::*;
use vstd::string::*;

verus! {

/// The character that writes the digit `d`.
pub open spec fn digit_char(d: int) -> char {
    if d == 0 {
        '0'
    } else if d == 1 {
        '1'
    } else if d == 2 {
        '2'
    } else if d == 3 {
        '3'
    } else if d == 4 {
        '4'
    } else if d == 5 {
        '5'
    } else if d == 6 {
        '6'
    } else if d == 7 {
        '7'
    } else if d == 8 {
        '8'
    } else {
        '9'
    }
}

/// The value of a digit character, or -1 for any other character.
pub open spec fn digit_value(c: char) -> int {
    if c == '0' {
        0
    } else if c == '1' {
        1
    } else if c == '2' {
        2
    } else if c == '3' {
        3
    } else if c == '4' {
        4
    } else if c == '5' {
        5
    } else if c == '6' {
        6
    } else if c == '7' {
        7
    } else if c == '8' {
        8
    } else if c == '9' {
        9
    } else {
        -1
    }
}

/// True when every character of `s` is a decimal digit.
pub open spec fn all_digits(s: Seq<char>) -> bool {
    forall|i: int| 0 <= i < s.len() ==> digit_value(#[trigger] s[i]) >= 0
}

/// The number that a sequence of digits writes, most significant digit first.
pub open spec fn digits_value(s: Seq<char>) -> int
    decreases s.len(),
{
    if s.len() == 0 {
        0
    } else {
        digits_value(s.drop_last()) * 10 + digit_value(s.last())
    }
}

/// The digits of a natural number, without leading zeros.
pub open spec fn nat_text(n: nat) -> Seq<char>
    decreases n,
{
    if n < 10 {
        seq![digit_char(n as int)]
    } else {
        nat_text(n / 10).push(digit_char((n % 10) as int))
    }
}

/// The decimal text of an integer: a minus sign for a negative one, then its digits.
pub open spec fn int_text(v: int) -> Seq<char> {
    if v < 0 {
        seq!['-'] + nat_text((-v) as nat)
    } else {
        nat_text(v as nat)
    }
}

/// The integer that a text writes: an optional sign, then at least one digit and nothing else.
pub open spec fn parse_int(s: Seq<char>) -> Option<int> {
    if s.len() > 0 && (s[0] == '-' || s[0] == '+') {
        let body = s.subrange(1, s.len() as int);
        if body.len() > 0 && all_digits(body) {
            if s[0] == '-' {
                Some(-digits_value(body))
            } else {
                Some(digits_value(body))
            }
        } else {
            None
        }
    } else if s.len() > 0 && all_digits(s) {
        Some(digits_value(s))
    } else {
        None
    }
}

/// The signed 64-bit integer that a text writes, if it writes one that fits.
pub open spec fn parse_i64_spec(s: Seq<char>) -> Option<i64> {
    match parse_int(s) {
        Some(v) => if i64::MIN <= v <= i64::MAX {
            Some(v as i64)
        } else {
            None
        },
        None => None,
    }
}

/// The unsigned 32-bit integer that a text writes, if it writes one that fits.
/// A minus sign is not accepted, not even before zero.
pub open spec fn parse_u32_spec(s: Seq<char>) -> Option<u32> {
    if s.len() > 0 && s[0] == '-' {
        None
    } else {
        match parse_int(s) {
            Some(v) => if v <= u32::MAX {
                Some(v as u32)
            } else {
                None
            },
            None => None,
        }
    }
}

/// A sequence of digits writes a number that is not negative.
pub proof fn lemma_digits_value_nonnegative(s: Seq<char>)
    requires
        all_digits(s),
    ensures
        digits_value(s) >= 0,
    decreases s.len(),
{
    if s.len() > 0 {
        assert(all_digits(s.drop_last())) by {
            assert forall|i: int| 0 <= i < s.drop_last().len() implies digit_value(
                #[trigger] s.drop_last()[i],
            ) >= 0 by {
                assert(s.drop_last()[i] == s[i]);
            }
        }
        lemma_digits_value_nonnegative(s.drop_last());
        assert(digit_value(s.last()) >= 0);
    }
}

/// A prefix of a sequence of digits writes a number that is not larger.
pub proof fn lemma_digits_value_prefix(s: Seq<char>, n: int)
    requires
        all_digits(s),
        0 <= n <= s.len(),
    ensures
        all_digits(s.take(n)),
        0 <= digits_value(s.take(n)) <= digits_value(s),
    decreases s.len() - n,
{
    assert(all_digits(s.take(n))) by {
        assert forall|i: int| 0 <= i < s.take(n).len() implies digit_value(
            #[trigger] s.take(n)[i],
        ) >= 0 by {
            assert(s.take(n)[i] == s[i]);
        }
    }
    lemma_digits_value_nonnegative(s.take(n));
    if n < s.len() {
        lemma_digits_value_prefix(s, n + 1);
        assert(s.take(n + 1).drop_last() =~= s.take(n));
        assert(digit_value(s.take(n + 1).last()) >= 0);
    } else {
        assert(s.take(n) =~= s);
    }
}

/// The digits of a natural number are digits, at least one, and write that number.
pub proof fn lemma_nat_text(n: nat)
    ensures
        nat_text(n).len() > 0,
        all_digits(nat_text(n)),
        digits_value(nat_text(n)) == n,
        nat_text(n)[0] != '-',
        nat_text(n)[0] != '+',
    decreases n,
{
    if n < 10 {
        let s = nat_text(n);
        assert(s.drop_last() =~= Seq::<char>::empty());
        assert(digits_value(s.drop_last()) == 0);
    } else {
        lemma_nat_text(n / 10);
        let head = nat_text(n / 10);
        let s = nat_text(n);
        assert(s.drop_last() =~= head);
        assert(s.last() == digit_char((n % 10) as int));
        assert(s[0] == head[0]);
    }
}

/// Reading the decimal text of an integer gives that integer back.
pub proof fn lemma_parse_int_text(v: int)
    ensures
        parse_int(int_text(v)) == Some(v),
{
    if v < 0 {
        let body = nat_text((-v) as nat);
        lemma_nat_text((-v) as nat);
        let s = int_text(v);
        assert(s[0] == '-');
        assert(s.subrange(1, s.len() as int) =~= body);
    } else {
        lemma_nat_text(v as nat);
    }
}

/// Reading the decimal text of a signed 64-bit integer gives that integer back.
pub proof fn lemma_parse_i64_text(v: i64)
    ensures
        parse_i64_spec(int_text(v as int)) == Some(v),
{
    lemma_parse_int_text(v as int);
}

/// Reading the decimal text of an unsigned 32-bit integer gives that integer back.
pub proof fn lemma_parse_u32_text(v: u32)
    ensures
        parse_u32_spec(int_text(v as int)) == Some(v),
{
    lemma_parse_int_text(v as int);
    lemma_nat_text(v as nat);
}

/// The digit that a character writes, if it writes one.
fn digit_of(c: char) -> (r: Option<u8>)
    ensures
        match r {
            Some(d) => digit_value(c) == d && d <= 9,
            None => digit_value(c) == -1,
        },
{
    if c == '0' {
        Some(0)
    } else if c == '1' {
        Some(1)
    } else if c == '2' {
        Some(2)
    } else if c == '3' {
        Some(3)
    } else if c == '4' {
        Some(4)
    } else if c == '5' {
        Some(5)
    } else if c == '6' {
        Some(6)
    } else if c == '7' {
        Some(7)
    } else if c == '8' {
        Some(8)
    } else if c == '9' {
        Some(9)
    } else {
        None
    }
}

/// Reads the characters of `s` from position `from` on as a sequence of digits
/// that writes a number of at most `limit`.
fn parse_digits(s: &str, from: usize, limit: u64) -> (r: Option<u64>)
    requires
        from <= s@.len(),
    ensures
        ({
            let body = s@.subrange(from as int, s@.len() as int);
            r == if body.len() > 0 && all_digits(body) && digits_value(body) <= limit {
                Some(digits_value(body) as u64)
            } else {
                None
            }
        }),
{
    let len: usize = s.unicode_len();
    if from == len {
        return None;
    }
    let ghost body = s@.subrange(from as int, s@.len() as int);
    let mut acc: u128 = 0;
    let mut i: usize = from;
    while i < len
        invariant
            from <= i <= len,
            len == s@.len(),
            body == s@.subrange(from as int, s@.len() as int),
            all_digits(body.take(i - from)),
            acc == digits_value(body.take(i - from)),
            acc <= limit,
        decreases len - i,
    {
        let c = s.get_char(i);
        assert(body[i - from] == c);
        let digit = digit_of(c);
        match digit {
            None => {
                return None;
            },
            Some(d) => {
                let next: u128 = acc * 10 + d as u128;
                proof {
                    let grown = body.take(i - from + 1);
                    assert(grown.drop_last() =~= body.take(i - from));
                    assert(grown.last() == c);
                    assert(digits_value(grown) == next);
                    assert forall|k: int| 0 <= k < grown.len() implies digit_value(
                        #[trigger] grown[k],
                    ) >= 0 by {
                        if k < i - from {
                            assert(grown[k] == body.take(i - from)[k]);
                        }
                    }
                    if all_digits(body) {
                        lemma_digits_value_prefix(body, i - from + 1);
                    }
                }
                if next > limit as u128 {
                    return None;
                }
                acc = next;
                i = i + 1;
            },
        }
    }
    proof {
        assert(body.take(len - from) =~= body);
    }
    Some(acc as u64)
}

/// Reads a text as a signed 64-bit integer: an optional sign, then digits.
pub fn parse_i64(s: &str) -> (r: Option<i64>)
    ensures
        r == parse_i64_spec(s@),
{
    let len: usize = s.unicode_len();
    if len == 0 {
        return None;
    }
    let first = s.get_char(0);
    if first == '-' {
        let r = parse_digits(s, 1, 0x8000_0000_0000_0000);
        proof {
            let body = s@.subrange(1, s@.len() as int);
            if body.len() > 0 && all_digits(body) {
                lemma_digits_value_nonnegative(body);
            }
        }
        match r {
            Some(m) => {
                if m == 0x8000_0000_0000_0000 {
                    Some(i64::MIN)
                } else {
                    Some(-(m as i64))
                }
            },
            None => None,
        }
    } else if first == '+' {
        let r = parse_digits(s, 1, 0x7fff_ffff_ffff_ffff);
        proof {
            let body = s@.subrange(1, s@.len() as int);
            if body.len() > 0 && all_digits(body) {
                lemma_digits_value_nonnegative(body);
            }
        }
        match r {
            Some(m) => Some(m as i64),
            None => None,
        }
    } else {
        let r = parse_digits(s, 0, 0x7fff_ffff_ffff_ffff);
        proof {
            assert(s@.subrange(0, s@.len() as int) =~= s@);
            if all_digits(s@) {
                lemma_digits_value_nonnegative(s@);
            }
        }
        match r {
            Some(m) => Some(m as i64),
            None => None,
        }
    }
}

/// Reads a text as an unsigned 32-bit integer: an optional plus sign, then digits.
pub fn parse_u32(s: &str) -> (r: Option<u32>)
    ensures
        r == parse_u32_spec(s@),
{
    let len: usize = s.unicode_len();
    if len == 0 {
        return None;
    }
    let first = s.get_char(0);
    if first == '-' {
        None
    } else if first == '+' {
        let r = parse_digits(s, 1, 0xffff_ffff);
        proof {
            let body = s@.subrange(1, s@.len() as int);
            if body.len() > 0 && all_digits(body) {
                lemma_digits_value_nonnegative(body);
            }
        }
        match r {
            Some(m) => Some(m as u32),
            None => None,
        }
    } else {
        let r = parse_digits(s, 0, 0xffff_ffff);
        proof {
            assert(s@.subrange(0, s@.len() as int) =~= s@);
            if all_digits(s@) {
                lemma_digits_value_nonnegative(s@);
            }
        }
        match r {
            Some(m) => Some(m as u32),
            None => None,
        }
    }
}

/// The text of one digit.
fn digit_str(d: u64) -> (r: &'static str)
    requires
        d <= 9,
    ensures
        r@ == seq![digit_char(d as int)],
{
    proof {
        reveal_strlit("0");
        reveal_strlit("1");
        reveal_strlit("2");
        reveal_strlit("3");
        reveal_strlit("4");
        reveal_strlit("5");
        reveal_strlit("6");
        reveal_strlit("7");
        reveal_strlit("8");
        reveal_strlit("9");
    }
    let r = if d == 0 {
        "0"
    } else if d == 1 {
        "1"
    } else if d == 2 {
        "2"
    } else if d == 3 {
        "3"
    } else if d == 4 {
        "4"
    } else if d == 5 {
        "5"
    } else if d == 6 {
        "6"
    } else if d == 7 {
        "7"
    } else if d == 8 {
        "8"
    } else {
        "9"
    };
    assert(r@ =~= seq![digit_char(d as int)]);
    r
}

/// Writes a natural number in decimal, without leading zeros.
pub fn u64_to_string(n: u64) -> (r: String)
    ensures
        r@ == nat_text(n as nat),
    decreases n,
{
    if n < 10 {
        String::from_str(digit_str(n))
    } else {
        let head = u64_to_string(n / 10);
        head.concat(digit_str(n % 10))
    }
}

/// Writes a signed 64-bit integer in decimal.
pub fn i64_to_string(v: i64) -> (r: String)
    ensures
        r@ == int_text(v as int),
{
    if v < 0 {
        let magnitude: u64 = if v == i64::MIN {
            0x8000_0000_0000_0000
        } else {
            (-v) as u64
        };
        let digits = u64_to_string(magnitude);
        proof {
            reveal_strlit("-");
            assert("-"@ =~= seq!['-']);
        }
        String::from_str("-").concat(digits.as_str())
    } else {
        u64_to_string(v as u64)
    }
}

} // verus!
