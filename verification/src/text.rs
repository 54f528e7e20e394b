use vstd::prelude::*;

verus! {

/// `String::push` appends one character.
pub assume_specification[ std::string::String::push ](s: &mut std::string::String, ch: char)
    ensures
        final(s)@ == old(s)@.push(ch),
;

/// The character of the decimal digit `d`.
pub open spec fn digit_char(d: int) -> char {
    (48 + d) as char
}

/// Whether `c` is an ASCII decimal digit.
pub open spec fn is_digit(c: char) -> bool {
    '0' <= c && c <= '9'
}

/// The decimal digits of `n`, most significant first, without leading zeros.
pub open spec fn nat_digits(n: nat) -> Seq<char>
    decreases n,
{
    if n < 10 {
        seq![digit_char(n as int)]
    } else {
        nat_digits(n / 10).push(digit_char((n % 10) as int))
    }
}

/// The decimal text of `n`, as integers are displayed: a minus sign for negative values.
pub open spec fn decimal(n: int) -> Seq<char> {
    if n < 0 {
        seq!['-'] + nat_digits((-n) as nat)
    } else {
        nat_digits(n as nat)
    }
}

/// The value of a string of decimal digits.
pub open spec fn digits_value(s: Seq<char>) -> int
    decreases s.len(),
{
    if s.len() == 0 {
        0
    } else {
        digits_value(s.drop_last()) * 10 + (s.last() as int - 48)
    }
}

/// A non-empty string of decimal digits.
pub open spec fn all_digits(s: Seq<char>) -> bool {
    s.len() > 0 && forall|i: int| 0 <= i < s.len() ==> is_digit(#[trigger] s[i])
}

/// The integer that a signed decimal text denotes, as Rust's `FromStr` for integers reads it:
/// an optional `+` or `-`, then one or more decimal digits, nothing else.
pub open spec fn signed_decimal_value(s: Seq<char>) -> Option<int> {
    if s.len() > 0 && s[0] == '-' && all_digits(s.skip(1)) {
        Some(-digits_value(s.skip(1)))
    } else if s.len() > 0 && s[0] == '+' && all_digits(s.skip(1)) {
        Some(digits_value(s.skip(1)))
    } else if all_digits(s) {
        Some(digits_value(s))
    } else {
        None
    }
}

/// The integer that an unsigned decimal text denotes: an optional `+`, then digits.
pub open spec fn unsigned_decimal_value(s: Seq<char>) -> Option<int> {
    if s.len() > 0 && s[0] == '+' && all_digits(s.skip(1)) {
        Some(digits_value(s.skip(1)))
    } else if all_digits(s) {
        Some(digits_value(s))
    } else {
        None
    }
}

proof fn lemma_digits_value_nonneg(s: Seq<char>)
    requires
        forall|i: int| 0 <= i < s.len() ==> is_digit(#[trigger] s[i]),
    ensures
        digits_value(s) >= 0,
    decreases s.len(),
{
    if s.len() > 0 {
        assert forall|i: int| 0 <= i < s.drop_last().len() implies is_digit(#[trigger] s.drop_last()[i]) by {
            assert(s.drop_last()[i] == s[i]);
        }
        lemma_digits_value_nonneg(s.drop_last());
        assert(is_digit(s[s.len() - 1]));
    }
}

/// Appending digits never makes the value smaller.
proof fn lemma_digits_value_grows(s: Seq<char>, k: int)
    requires
        0 <= k <= s.len(),
        forall|i: int| 0 <= i < s.len() ==> is_digit(#[trigger] s[i]),
    ensures
        digits_value(s.subrange(0, k)) <= digits_value(s),
    decreases s.len() - k,
{
    if k < s.len() {
        let t = s.subrange(0, k + 1);
        assert(t.drop_last() =~= s.subrange(0, k));
        assert(is_digit(t.last()));
        assert forall|i: int| 0 <= i < s.subrange(0, k).len() implies is_digit(#[trigger] s.subrange(0, k)[i]) by {
            assert(s.subrange(0, k)[i] == s[i]);
        }
        lemma_digits_value_nonneg(s.subrange(0, k));
        lemma_digits_value_grows(s, k + 1);
    } else {
        assert(s.subrange(0, k) =~= s);
    }
}

/// Appends the decimal digits of `mag` to `out`.
fn push_digits(out: &mut String, mag: u64)
    ensures
        final(out)@ == old(out)@ + nat_digits(mag as nat),
{
    let mut rev: Vec<char> = Vec::new();
    let mut m = mag;
    while m >= 10
        invariant
            nat_digits(mag as nat) =~= nat_digits(m as nat) + rev@.reverse(),
        decreases m,
    {
        let d = m % 10;
        let c = (48u8 + d as u8) as char;
        proof {
            assert(c == digit_char(d as int));
            assert(nat_digits(m as nat) == nat_digits((m / 10) as nat).push(c));
            assert(rev@.push(c).reverse() =~= seq![c] + rev@.reverse());
        }
        rev.push(c);
        m = m / 10;
    }
    let c0 = (48u8 + m as u8) as char;
    assert(nat_digits(m as nat) =~= seq![c0]);
    out.push(c0);
    let mut i = rev.len();
    while i > 0
        invariant
            i <= rev@.len(),
            out@ =~= old(out)@ + seq![c0] + rev@.subrange(i as int, rev@.len() as int).reverse(),
            nat_digits(mag as nat) =~= seq![c0] + rev@.reverse(),
        decreases i,
    {
        proof {
            let a = rev@.subrange(i as int, rev@.len() as int);
            let b = rev@.subrange(i - 1, rev@.len() as int);
            assert(b =~= seq![rev@[i - 1]] + a);
            assert(b.reverse() =~= a.reverse().push(rev@[i - 1]));
        }
        out.push(rev[i - 1]);
        i = i - 1;
    }
    assert(rev@.subrange(0, rev@.len() as int) =~= rev@);
}

/// The decimal text of `n`, as `n.to_string()` gives it.
pub fn i64_to_string(n: i64) -> (s: String)
    ensures
        s@ == decimal(n as int),
{
    let mut s = String::new();
    if n < 0 {
        s.push('-');
        let mag: u64 = if n == i64::MIN {
            9223372036854775808u64
        } else {
            (-n) as u64
        };
        push_digits(&mut s, mag);
        assert(s@ =~= seq!['-'] + nat_digits((-n) as nat));
    } else {
        push_digits(&mut s, n as u64);
        assert(s@ =~= nat_digits(n as nat));
    }
    s
}

/// Reads the digits `s[start..]` into a value, when it is at most `limit`.
fn read_digits(s: &str, start: usize, limit: u64) -> (r: Option<u64>)
    requires
        start <= s@.len(),
    ensures
        match r {
            Some(v) => all_digits(s@.skip(start as int)) && v == digits_value(s@.skip(start as int))
                && v <= limit,
            None => !all_digits(s@.skip(start as int)) || digits_value(s@.skip(start as int)) > limit,
        },
{
    let n = s.unicode_len();
    let ghost t = s@.skip(start as int);
    if start >= n {
        return None;
    }
    let mut acc: u64 = 0;
    let mut i = start;
    while i < n
        invariant
            n == s@.len(),
            start <= i <= n,
            t == s@.skip(start as int),
            forall|j: int| 0 <= j < i - start ==> is_digit(#[trigger] t[j]),
            acc == digits_value(t.subrange(0, i - start)),
            acc <= limit,
        decreases n - i,
    {
        let c = s.get_char(i);
        assert(c == t[i - start]);
        if !('0' <= c && c <= '9') {
            return None;
        }
        let d = (c as u32 - 48) as u64;
        proof {
            assert(t.subrange(0, i + 1 - start).drop_last() =~= t.subrange(0, i - start));
        }
        if d > limit || acc > (limit - d) / 10 {
            proof {
                assert(digits_value(t.subrange(0, i + 1 - start)) == acc * 10 + d);
                if d <= limit {
                    assert(acc * 10 + d > limit) by (nonlinear_arith)
                        requires
                            acc > (limit - d) / 10,
                            d <= limit,
                    ;
                }
                if all_digits(t) {
                    lemma_digits_value_grows(t, i + 1 - start);
                }
            }
            return None;
        }
        proof {
            assert(acc * 10 + d <= limit) by (nonlinear_arith)
                requires
                    acc <= (limit - d) / 10,
                    d <= limit,
            ;
        }
        acc = acc * 10 + d;
        i = i + 1;
    }
    assert(t.subrange(0, n - start) =~= t);
    Some(acc)
}

/// Reads a signed decimal as `s.parse::<i64>()` does: `None` where that gives an error.
pub fn parse_i64(s: &str) -> (r: Option<i64>)
    ensures
        match r {
            Some(n) => signed_decimal_value(s@) == Some(n as int),
            None => match signed_decimal_value(s@) {
                Some(v) => !(i64::MIN <= v <= i64::MAX),
                None => true,
            },
        },
{
    let n = s.unicode_len();
    if n > 0 && s.get_char(0) == '-' {
        match read_digits(s, 1, 9223372036854775808u64) {
            Some(v) => {
                if v == 9223372036854775808u64 {
                    Some(i64::MIN)
                } else {
                    Some(-(v as i64))
                }
            },
            None => None,
        }
    } else if n > 0 && s.get_char(0) == '+' {
        match read_digits(s, 1, 9223372036854775807u64) {
            Some(v) => Some(v as i64),
            None => None,
        }
    } else {
        let r = read_digits(s, 0, 9223372036854775807u64);
        assert(s@.skip(0) =~= s@);
        match r {
            Some(v) => Some(v as i64),
            None => None,
        }
    }
}

/// Reads an unsigned decimal as `s.parse::<usize>()` does: `None` where that gives an error.
pub fn parse_usize(s: &str) -> (r: Option<usize>)
    ensures
        match r {
            Some(n) => unsigned_decimal_value(s@) == Some(n as int),
            None => match unsigned_decimal_value(s@) {
                Some(v) => v > usize::MAX,
                None => true,
            },
        },
{
    let n = s.unicode_len();
    if n > 0 && s.get_char(0) == '+' {
        match read_digits(s, 1, usize::MAX as u64) {
            Some(v) => Some(v as usize),
            None => None,
        }
    } else {
        let r = read_digits(s, 0, usize::MAX as u64);
        assert(s@.skip(0) =~= s@);
        match r {
            Some(v) => Some(v as usize),
            None => None,
        }
    }
}


/// The digits of a number read back as the number.
pub proof fn lemma_nat_digits_value(m: nat)
    ensures
        all_digits(nat_digits(m)),
        digits_value(nat_digits(m)) == m,
        is_digit(nat_digits(m)[0]),
    decreases m,
{
    if m < 10 {
        let c = digit_char(m as int);
        assert(c as int == 48 + m);
        assert(nat_digits(m) =~= seq![c]);
        assert(seq![c].drop_last() =~= Seq::<char>::empty());
        assert(digits_value(seq![c]) == digits_value(Seq::<char>::empty()) * 10 + (c as int - 48));
    } else {
        lemma_nat_digits_value(m / 10);
        let s = nat_digits(m / 10);
        let c = digit_char((m % 10) as int);
        assert(c as int == 48 + m % 10);
        let t = s.push(c);
        assert(t.drop_last() =~= s);
        assert forall|i: int| 0 <= i < t.len() implies is_digit(#[trigger] t[i]) by {
            if i < s.len() {
                assert(t[i] == s[i]);
            }
        }
        assert(t[0] == s[0]);
        assert(t.last() == c);
        assert(digits_value(t) == digits_value(s) * 10 + (c as int - 48));
        assert(m == (m / 10) * 10 + m % 10);
        assert(nat_digits(m) == t);
    }
}

/// Printing an integer in decimal and reading the text back gives the integer: what
/// `i64_to_string` writes, `parse_i64` reads back as the same number.
pub proof fn law_decimal_round_trip(n: int)
    ensures
        signed_decimal_value(decimal(n)) == Some(n),
{
    if n < 0 {
        let m = (-n) as nat;
        lemma_nat_digits_value(m);
        let s = seq!['-'] + nat_digits(m);
        assert(s.skip(1) =~= nat_digits(m));
        assert(s[0] == '-');
    } else {
        lemma_nat_digits_value(n as nat);
        let s = nat_digits(n as nat);
        assert(s[0] != '-' && s[0] != '+');
    }
}

} // verus!
