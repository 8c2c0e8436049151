//! Decimal text of integers: what `i32`'s `Display` writes and what
//! `str::parse::<i32>` accepts.
use vstd::prelude::*;

verus! {

/// The decimal digits of `n`, most significant first, as ASCII bytes.
pub open spec fn nat_digits(n: nat) -> Seq<u8>
    decreases n,
{
    if n < 10 {
        seq![(48 + n) as u8]
    } else {
        nat_digits(n / 10).push((48 + n % 10) as u8)
    }
}

/// The text `i32`'s `Display` writes for `n`, as ASCII bytes.
pub open spec fn decimal_bytes(n: int) -> Seq<u8> {
    if n < 0 {
        seq![45u8] + nat_digits((-n) as nat)
    } else {
        nat_digits(n as nat)
    }
}

/// The same text as characters.
pub open spec fn decimal_text(n: int) -> Seq<char> {
    decimal_bytes(n).map_values(|b: u8| b as char)
}

pub open spec fn is_digit(c: char) -> bool {
    '0' <= c <= '9'
}

pub open spec fn all_digits(s: Seq<char>) -> bool {
    forall|i: int| 0 <= i < s.len() ==> is_digit(#[trigger] s[i])
}

/// The value of a string of decimal digits.
pub open spec fn digits_value(s: Seq<char>) -> int
    decreases s.len(),
{
    if s.len() == 0 {
        0
    } else {
        digits_value(s.drop_last()) * 10 + (s.last() as int - 48)
    }
}

/// What `str::parse::<i32>` returns on `s`: an optional sign, then one or
/// more ASCII digits, with the value in range.
pub open spec fn parse_i32_spec(s: Seq<char>) -> Option<i32> {
    let signed = s.len() > 0 && (s[0] == '+' || s[0] == '-');
    let body = if signed { s.drop_first() } else { s };
    let value = if signed && s[0] == '-' { -digits_value(body) } else { digits_value(body) };
    if body.len() > 0 && all_digits(body) && i32::MIN <= value <= i32::MAX {
        Some(value as i32)
    } else {
        None
    }
}

fn nat_digit_bytes(n: u32) -> (r: Vec<u8>)
    ensures
        r@ == nat_digits(n as nat),
    decreases n,
{
    if n < 10 {
        let mut v: Vec<u8> = Vec::new();
        v.push((48 + n) as u8);
        proof {
            assert(v@ =~= nat_digits(n as nat));
        }
        v
    } else {
        let mut v = nat_digit_bytes(n / 10);
        v.push((48 + n % 10) as u8);
        v
    }
}

/// The decimal text of `n` as ASCII bytes, as `format!("{}", n)` writes it.
pub fn decimal_of(n: i32) -> (r: Vec<u8>)
    ensures
        r@ == decimal_bytes(n as int),
{
    if n < 0 {
        let magnitude: u32 = if n == i32::MIN {
            2147483648u32
        } else {
            (-n) as u32
        };
        let digits = nat_digit_bytes(magnitude);
        let mut v: Vec<u8> = Vec::new();
        v.push(45u8);
        let mut i: usize = 0;
        while i < digits.len()
            invariant
                0 <= i <= digits.len(),
                v@ =~= seq![45u8] + digits@.subrange(0, i as int),
            decreases digits.len() - i,
        {
            v.push(digits[i]);
            i = i + 1;
            proof {
                assert(v@ =~= seq![45u8] + digits@.subrange(0, i as int));
            }
        }
        proof {
            assert(digits@.subrange(0, digits@.len() as int) =~= digits@);
        }
        v
    } else {
        nat_digit_bytes(n as u32)
    }
}

/// Parses the characters `s[start..end]` as `str::parse::<i32>` does.
pub fn parse_i32_range(s: &str, start: usize, end: usize) -> (r: Option<i32>)
    requires
        start <= end <= s@.len(),
    ensures
        r == parse_i32_spec(s@.subrange(start as int, end as int)),
{
    let ghost text = s@.subrange(start as int, end as int);
    if start == end {
        return None;
    }
    let first = s.get_char(start);
    let signed = first == '+' || first == '-';
    let negative = first == '-';
    let body_start: usize = if signed { start + 1 } else { start };
    let ghost body = s@.subrange(body_start as int, end as int);
    proof {
        assert(text[0] == first);
        if signed {
            assert(body =~= text.drop_first());
        } else {
            assert(body =~= text);
        }
    }
    if body_start == end {
        return None;
    }
    let mut value: i64 = 0;
    let mut i: usize = body_start;
    while i < end
        invariant
            body_start <= i <= end,
            end <= s@.len(),
            body == s@.subrange(body_start as int, end as int),
            text == s@.subrange(start as int, end as int),
            text.len() > 0 && text[0] == first,
            signed == (first == '+' || first == '-'),
            negative == (first == '-'),
            body.len() > 0,
            signed ==> body == text.drop_first(),
            !signed ==> body == text,
            all_digits(s@.subrange(body_start as int, i as int)),
            value == digits_value(s@.subrange(body_start as int, i as int)),
            0 <= value <= 2147483648,
        decreases end - i,
    {
        let c = s.get_char(i);
        if !('0' <= c && c <= '9') {
            proof {
                assert(body[i - body_start] == s@[i as int]);
                assert(!is_digit(body[i - body_start]));
            }
            return None;
        }
        let ghost prev = s@.subrange(body_start as int, i as int);
        let ghost next = s@.subrange(body_start as int, i + 1);
        proof {
            assert(next.drop_last() =~= prev);
            assert(next.last() == c);
            assert(all_digits(next)) by {
                assert forall|k: int| 0 <= k < next.len() implies is_digit(#[trigger] next[k]) by {
                    if k < prev.len() {
                        assert(next[k] == prev[k]);
                    }
                }
            }
        }
        let d = (c as u32 - 48) as i64;
        value = value * 10 + d;
        i = i + 1;
        if value > 2147483648 {
            proof {
                if all_digits(body) {
                    lemma_digits_value_grows(body, i - body_start);
                    assert(body.subrange(0, i - body_start) =~= s@.subrange(body_start as int, i as int));
                }
            }
            return None;
        }
    }
    proof {
        assert(s@.subrange(body_start as int, i as int) =~= body);
    }
    if negative {
        Some((-value) as i32)
    } else if value <= 2147483647 {
        Some(value as i32)
    } else {
        None
    }
}

/// A string of digits is worth at least any of its prefixes.
proof fn lemma_digits_value_grows(s: Seq<char>, k: int)
    requires
        0 <= k <= s.len(),
        all_digits(s),
    ensures
        digits_value(s) >= digits_value(s.subrange(0, k)),
    decreases s.len(),
{
    if k < s.len() {
        let init = s.drop_last();
        assert(all_digits(init)) by {
            assert forall|j: int| 0 <= j < init.len() implies is_digit(#[trigger] init[j]) by {
                assert(init[j] == s[j]);
            }
        }
        lemma_digits_value_grows(init, k);
        assert(init.subrange(0, k) =~= s.subrange(0, k));
        lemma_digits_value_nonneg(init);
        assert(is_digit(s[s.len() - 1]));
    } else {
        assert(s.subrange(0, k) =~= s);
    }
}

proof fn lemma_digits_value_nonneg(s: Seq<char>)
    requires
        all_digits(s),
    ensures
        digits_value(s) >= 0,
    decreases s.len(),
{
    if s.len() > 0 {
        let init = s.drop_last();
        assert(all_digits(init)) by {
            assert forall|j: int| 0 <= j < init.len() implies is_digit(#[trigger] init[j]) by {
                assert(init[j] == s[j]);
            }
        }
        lemma_digits_value_nonneg(init);
        assert(is_digit(s[s.len() - 1]));
    }
}

/// The characters of `nat_digits(n)`.
pub open spec fn nat_text(n: nat) -> Seq<char> {
    nat_digits(n).map_values(|b: u8| b as char)
}

proof fn lemma_nat_text(n: nat)
    ensures
        nat_text(n).len() > 0,
        all_digits(nat_text(n)),
        digits_value(nat_text(n)) == n,
    decreases n,
{
    let t = nat_text(n);
    if n < 10 {
        assert(t =~= seq![((48 + n) as u8) as char]);
        assert(t.drop_last() =~= Seq::<char>::empty());
        assert((((48 + n) as u8) as char) as int == 48 + n);
        assert(digits_value(t.drop_last()) == 0);
        assert(t.last() == ((48 + n) as u8) as char);
    } else {
        lemma_nat_text(n / 10);
        let p = nat_text(n / 10);
        let d = (48 + n % 10) as u8;
        assert(t =~= p.push(d as char));
        assert(t.drop_last() =~= p);
        assert((d as char) as int == 48 + n % 10);
        assert(t.last() == d as char);
        assert(digits_value(t) == digits_value(p) * 10 + (n % 10));
        assert(n == (n / 10) * 10 + n % 10);
        assert(all_digits(t)) by {
            assert forall|k: int| 0 <= k < t.len() implies is_digit(#[trigger] t[k]) by {
                if k < p.len() {
                    assert(t[k] == p[k]);
                }
            }
        }
    }
}

/// Parsing the decimal text of an `i32` gives the number back.
pub proof fn lemma_decimal_round_trip(n: i32)
    ensures
        parse_i32_spec(decimal_text(n as int)) == Some(n),
        decimal_text(n as int).len() > 0,
        forall|k: int|
            0 <= k < decimal_text(n as int).len() ==> is_digit(#[trigger] decimal_text(n as int)[k])
                || decimal_text(n as int)[k] == '-',
{
    let t = decimal_text(n as int);
    if n < 0 {
        let m = (-n) as nat;
        lemma_nat_text(m);
        assert(t =~= seq!['-'] + nat_text(m));
        assert(t.drop_first() =~= nat_text(m));
    } else {
        lemma_nat_text(n as nat);
        assert(t =~= nat_text(n as nat));
        assert(is_digit(t[0]));
    }
}

} // verus!
