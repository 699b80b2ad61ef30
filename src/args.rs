use vstd::prelude::*;
use vstd::utf8::is_ascii_chars;

verus! {

/// Puzzles per dimension when the given count is not a number.
pub const DEFAULT_COUNT: usize = 10000;

pub open spec fn is_digit(c: char) -> bool {
    '0' <= c && c <= '9'
}

/// The value of a string of decimal digits.
pub open spec fn digits_value(s: Seq<char>) -> int
    decreases s.len(),
{
    if s.len() == 0 {
        0
    } else {
        digits_value(s.drop_last()) * 10 + (s.last() as int - '0' as int)
    }
}

/// The digits after an optional leading `+`.
pub open spec fn unsigned_part(s: Seq<char>) -> Seq<char> {
    if s.len() > 0 && s[0] == '+' {
        s.drop_first()
    } else {
        s
    }
}

/// A `usize` written in decimal: an optional `+`, then one or more digits,
/// whose value fits.
pub open spec fn parse_usize_spec(s: Seq<char>) -> Option<usize> {
    let d = unsigned_part(s);
    if d.len() > 0 && (forall|i: int| 0 <= i < d.len() ==> is_digit(#[trigger] d[i]))
        && digits_value(d) <= usize::MAX {
        Some(digits_value(d) as usize)
    } else {
        None
    }
}

proof fn lemma_digits_monotone(s: Seq<char>, k: int)
    requires
        0 <= k <= s.len(),
        forall|i: int| 0 <= i < s.len() ==> is_digit(#[trigger] s[i]),
    ensures
        digits_value(s.take(k)) <= digits_value(s),
        digits_value(s) >= 0,
    decreases s.len(),
{
    if s.len() > 0 {
        let p = s.drop_last();
        assert forall|i: int| 0 <= i < p.len() implies is_digit(#[trigger] p[i]) by {
            assert(p[i] == s[i]);
        }
        if k == s.len() {
            assert(s.take(k) == s);
            lemma_digits_monotone(p, 0);
        } else {
            assert(s.take(k) == p.take(k));
            lemma_digits_monotone(p, k);
        }
    }
}

/// Reads a `usize` written in decimal, as `str::parse::<usize>` does.
pub fn parse_usize(s: &str) -> (r: Option<usize>)
    ensures
        r == parse_usize_spec(s@),
{
    if !s.is_ascii() {
        proof {
            let d = unsigned_part(s@);
            if d.len() > 0 && (forall|i: int| 0 <= i < d.len() ==> is_digit(#[trigger] d[i])) {
                assert forall|i: int| 0 <= i < s@.len() implies '\0' <= #[trigger] s@[i] <= '\u{7f}' by {
                    if s@.len() > 0 && s@[0] == '+' && i == 0 {
                        assert(s@[i] == '+');
                    } else if s@.len() > 0 && s@[0] == '+' && i > 0 {
                        assert(d[i - 1] == s@[i]);
                    } else if !(s@.len() > 0 && s@[0] == '+') {
                        assert(d[i] == s@[i]);
                    }
                }
                assert(is_ascii_chars(s@));
            }
        }
        return None;
    }
    let bytes = s.as_bytes();
    proof {
        vstd::string::is_ascii_spec_bytes(s);
    }
    let n = bytes.len();
    let start: usize = if n > 0 && bytes[0] == 43u8 {
        1
    } else {
        0
    };
    let ghost d = unsigned_part(s@);
    proof {
        assert(bytes@.len() == s@.len());
        if n > 0 {
            assert(bytes@[0] == s@[0] as u8);
        }
        assert(d == s@.subrange(start as int, s@.len() as int));
    }
    if start >= n {
        return None;
    }
    let mut value: usize = 0;
    let mut k: usize = start;
    while k < n
        invariant
            start <= k <= n,
            n == s@.len(),
            n == bytes@.len(),
            is_ascii_chars(s@),
            forall|i: int| 0 <= i < n ==> #[trigger] bytes@[i] == s@[i] as u8,
            d == unsigned_part(s@),
            d == s@.subrange(start as int, n as int),
            forall|i: int| 0 <= i < k - start ==> is_digit(#[trigger] d[i]),
            value as int == digits_value(d.take(k - start)),
        decreases n - k,
    {
        let b = bytes[k];
        proof {
            assert(d[k - start] == s@[k as int]);
            assert(s@[k as int] <= '\u{7f}');
            assert(b as int == s@[k as int] as int);
        }
        if b < 48u8 || b > 57u8 {
            proof {
                assert(!is_digit(d[k - start]));
            }
            return None;
        }
        let digit = (b - 48u8) as usize;
        proof {
            assert(is_digit(d[k - start]));
            assert(d.take(k - start + 1).drop_last() == d.take(k - start));
            assert(d.take(k - start + 1).last() == d[k - start]);
            assert(digit as int == d[k - start] as int - '0' as int);
            assert(digits_value(d.take(k - start + 1)) == value * 10 + digit);
        }
        if value > (usize::MAX - digit) / 10 {
            proof {
                assert(value * 10 + digit > usize::MAX) by (nonlinear_arith)
                    requires
                        value > (usize::MAX - digit) / 10,
                        digit <= 9,
                ;
                if forall|i: int| 0 <= i < d.len() ==> is_digit(#[trigger] d[i]) {
                    lemma_digits_monotone(d, k - start + 1);
                }
            }
            return None;
        }
        proof {
            assert(value * 10 + digit <= usize::MAX) by (nonlinear_arith)
                requires
                    value <= (usize::MAX - digit) / 10,
                    digit <= 9,
            ;
        }
        value = value * 10 + digit;
        k = k + 1;
    }
    proof {
        assert(d.take(k - start) == d);
    }
    Some(value)
}

/// Accepts a numeric command-line value, or explains that it must be a
/// number.
pub fn is_number(n: String) -> (r: Result<(), String>)
    ensures
        r is Ok <==> parse_usize_spec(n@) is Some,
        r matches Err(e) ==> e@ == "Number of puzzles, heights, and widths arguments must be numbers"@,
{
    if parse_usize(n.as_str()).is_some() {
        return Ok(());
    }
    Err("Number of puzzles, heights, and widths arguments must be numbers".to_owned())
}

/// The number of puzzles per dimension: the value given, or the default when
/// it is not a number.
pub fn parse_count(s: &str) -> (r: usize)
    ensures
        parse_usize_spec(s@) matches Some(v) ==> r == v,
        parse_usize_spec(s@) is None ==> r == DEFAULT_COUNT,
{
    match parse_usize(s) {
        Some(v) => v,
        None => DEFAULT_COUNT,
    }
}

} // verus!
