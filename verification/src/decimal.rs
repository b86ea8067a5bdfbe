use vstd::prelude::*;

verus! {

/// The decimal digit character of `d`, for `0 <= d < 10`.
pub open spec fn digit_char(d: int) -> char {
    if d == 0 {
        '0'
    } else if d == 1 {
        '1'
    } else if d == 2 {
        '2'
    } else if d == 3 {
        '3'
    } else if d == 4 {
        '4'
    } else if d == 5 {
        '5'
    } else if d == 6 {
        '6'
    } else if d == 7 {
        '7'
    } else if d == 8 {
        '8'
    } else {
        '9'
    }
}

/// Whether `c` is an ASCII decimal digit.
pub open spec fn is_digit(c: char) -> bool {
    '0' <= c && c <= '9'
}

/// The value of a digit character.
pub open spec fn digit_value(c: char) -> int {
    (c as int) - ('0' as int)
}

/// The digits of `v` in base ten, most significant first, without leading zeros.
pub open spec fn nat_digits(v: nat) -> Seq<char>
    decreases v,
{
    if v < 10 {
        seq![digit_char(v as int)]
    } else {
        nat_digits(v / 10) + seq![digit_char(v as int % 10)]
    }
}

/// How `n` is written in base ten: a minus sign for a negative number, then
/// the digits of its magnitude.
pub open spec fn decimal(n: int) -> Seq<char> {
    if n < 0 {
        seq!['-'] + nat_digits((-n) as nat)
    } else {
        nat_digits(n as nat)
    }
}

/// Every character of `s` is a digit.
pub open spec fn all_digits(s: Seq<char>) -> bool {
    forall|i: int| 0 <= i < s.len() ==> is_digit(#[trigger] s[i])
}

/// The number that a string of digits stands for.
pub open spec fn digits_value(s: Seq<char>) -> int
    decreases s.len(),
{
    if s.len() == 0 {
        0
    } else {
        digits_value(s.drop_last()) * 10 + digit_value(s.last())
    }
}

/// The number in range of `i64` that `s` stands for, as `str::parse::<i64>`
/// reads it: an optional sign, then one digit or more and nothing else.
pub open spec fn parsed_i64(s: Seq<char>) -> Option<i64> {
    if s.len() > 0 && (s[0] == '-' || s[0] == '+') {
        let body = s.drop_first();
        let v = if s[0] == '-' {
            -digits_value(body)
        } else {
            digits_value(body)
        };
        if body.len() > 0 && all_digits(body) && i64::MIN <= v <= i64::MAX {
            Some(v as i64)
        } else {
            None
        }
    } else {
        let v = digits_value(s);
        if s.len() > 0 && all_digits(s) && v <= i64::MAX {
            Some(v as i64)
        } else {
            None
        }
    }
}

/// The number in range of `usize` that `s` stands for, as
/// `str::parse::<usize>` reads it: an optional plus sign, then one digit or
/// more and nothing else.
pub open spec fn parsed_usize(s: Seq<char>) -> Option<usize> {
    let body = if s.len() > 0 && s[0] == '+' {
        s.drop_first()
    } else {
        s
    };
    if body.len() > 0 && all_digits(body) && digits_value(body) <= usize::MAX {
        Some(digits_value(body) as usize)
    } else {
        None
    }
}

/// The literal of one digit.
fn digit_str(d: u64) -> (res: &'static str)
    requires
        d < 10,
    ensures
        res@ == seq![digit_char(d as int)],
{
    proof {
        reveal_strlit("0");
        reveal_strlit("1");
        reveal_strlit("2");
        reveal_strlit("3");
        reveal_strlit("4");
        reveal_strlit("5");
        reveal_strlit("6");
        reveal_strlit("7");
        reveal_strlit("8");
        reveal_strlit("9");
    }
    if d == 0 {
        "0"
    } else if d == 1 {
        "1"
    } else if d == 2 {
        "2"
    } else if d == 3 {
        "3"
    } else if d == 4 {
        "4"
    } else if d == 5 {
        "5"
    } else if d == 6 {
        "6"
    } else if d == 7 {
        "7"
    } else if d == 8 {
        "8"
    } else {
        "9"
    }
}

/// Appends the digits of `v` to `out`.
pub fn append_digits(out: &mut String, v: u64)
    ensures
        final(out)@ == old(out)@ + nat_digits(v as nat),
    decreases v,
{
    if v >= 10 {
        append_digits(out, v / 10);
    }
    out.append(digit_str(v % 10));
}

/// Appends `n` written in base ten to `out`.
pub fn append_decimal(out: &mut String, n: i64)
    ensures
        final(out)@ == old(out)@ + decimal(n as int),
{
    if n < 0 {
        proof {
            reveal_strlit("-");
        }
        out.append("-");
        let magnitude: u64 = if n == i64::MIN {
            9223372036854775808u64
        } else {
            (-n) as u64
        };
        append_digits(out, magnitude);
        assert(seq!['-'] + nat_digits(magnitude as nat) == decimal(n as int));
    } else {
        append_digits(out, n as u64);
    }
}

/// `n` written in base ten, as `n.to_string()` writes it.
pub fn decimal_string(n: i64) -> (res: String)
    ensures
        res@ == decimal(n as int),
{
    let mut res = String::new();
    append_decimal(&mut res, n);
    assert(Seq::<char>::empty() + decimal(n as int) == decimal(n as int));
    res
}

/// One more digit multiplies the value so far by ten and adds the digit.
proof fn lemma_digits_value_take(s: Seq<char>, i: int)
    requires
        0 <= i < s.len(),
    ensures
        digits_value(s.take(i + 1)) == digits_value(s.take(i)) * 10 + digit_value(s[i]),
{
    assert(s.take(i + 1).drop_last() == s.take(i));
}

proof fn lemma_digits_value_nonneg(s: Seq<char>)
    requires
        all_digits(s),
    ensures
        digits_value(s) >= 0,
    decreases s.len(),
{
    if s.len() > 0 {
        assert(all_digits(s.drop_last()));
        lemma_digits_value_nonneg(s.drop_last());
        assert(is_digit(s[s.len() - 1]));
    }
}

/// Reads a number in range of `i64` as `s.parse::<i64>().ok()` does.
pub fn parse_i64(s: &str) -> (res: Option<i64>)
    ensures
        res == parsed_i64(s@),
{
    let n = s.unicode_len();
    if n == 0 {
        return None;
    }
    let first = s.get_char(0);
    let negative = first == '-';
    let start: usize = if first == '-' || first == '+' {
        1
    } else {
        0
    };
    if start == n {
        return None;
    }
    let ghost body = s@.skip(start as int);
    proof {
        if start == 1 {
            assert(body == s@.drop_first());
        } else {
            assert(body == s@);
        }
    }
    let mut acc: i128 = 0;
    let mut i: usize = start;
    while i < n
        invariant
            n == s@.len(),
            start <= i <= n,
            start < n,
            start <= 1,
            body == s@.skip(start as int),
            (start == 1) == (s@[0] == '-' || s@[0] == '+'),
            negative == (s@[0] == '-'),
            start == 1 ==> body == s@.drop_first(),
            start == 0 ==> body == s@,
            all_digits(body.take(i - start)),
            acc == digits_value(body.take(i - start)),
            0 <= acc <= 9223372036854775808,
        decreases n - i,
    {
        let c = s.get_char(i);
        proof {
            assert(body[i - start] == c);
        }
        if c < '0' || c > '9' {
            proof {
                assert(!is_digit(body[i - start]));
                assert(!all_digits(body));
            }
            return None;
        }
        let d: i128 = (c as u32 - '0' as u32) as i128;
        proof {
            lemma_digits_value_take(body, i - start);
            assert(body.take(i - start + 1).drop_last() == body.take(i - start));
        }
        acc = acc * 10 + d;
        proof {
            assert forall|j: int| 0 <= j < body.take(i - start + 1).len() implies is_digit(
                #[trigger] body.take(i - start + 1)[j],
            ) by {
                if j < i - start {
                    assert(body.take(i - start + 1)[j] == body.take(i - start)[j]);
                }
            }
        }
        assert(acc == digits_value(body.take(i - start + 1)));
        if acc > 9223372036854775808 {
            proof {
                lemma_value_grows(body, (i - start + 1) as int);
                assert(all_digits(body) ==> digits_value(body) > 9223372036854775808);
                if start == 1 {
                    assert(s@.len() > 0 && (s@[0] == '-' || s@[0] == '+'));
                    assert(s@.drop_first() == body);
                    if all_digits(body) {
                        assert(-digits_value(body) < i64::MIN);
                    }
                } else {
                    assert(!(s@[0] == '-' || s@[0] == '+'));
                    if all_digits(s@) {
                        assert(digits_value(s@) > i64::MAX);
                    }
                }
                assert(parsed_i64(s@) is None);
            }
            return None;
        }
        i = i + 1;
    }
    proof {
        assert(body.take(n - start) == body);
        if start == 1 {
            assert(body == s@.drop_first());
        } else {
            assert(body == s@);
        }
    }
    if negative {
        Some((-acc) as i64)
    } else if acc > 9223372036854775807 {
        None
    } else {
        Some(acc as i64)
    }
}

/// Reads a number in range of `usize` as `s.parse::<usize>().ok()` does.
pub fn parse_usize(s: &str) -> (res: Option<usize>)
    ensures
        res == parsed_usize(s@),
{
    let n = s.unicode_len();
    if n == 0 {
        return None;
    }
    let start: usize = if s.get_char(0) == '+' {
        1
    } else {
        0
    };
    if start == n {
        return None;
    }
    let ghost body = s@.skip(start as int);
    proof {
        if start == 1 {
            assert(body == s@.drop_first());
        } else {
            assert(body == s@);
        }
    }
    let mut acc: u128 = 0;
    let mut i: usize = start;
    while i < n
        invariant
            n == s@.len(),
            start <= i <= n,
            start < n,
            start <= 1,
            body == s@.skip(start as int),
            (start == 1) == (s@[0] == '+'),
            start == 1 ==> body == s@.drop_first(),
            start == 0 ==> body == s@,
            all_digits(body.take(i - start)),
            acc == digits_value(body.take(i - start)),
            acc <= usize::MAX,
        decreases n - i,
    {
        let c = s.get_char(i);
        proof {
            assert(body[i - start] == c);
        }
        if c < '0' || c > '9' {
            proof {
                assert(!is_digit(body[i - start]));
                assert(!all_digits(body));
            }
            return None;
        }
        let d: u128 = (c as u32 - '0' as u32) as u128;
        proof {
            lemma_digits_value_take(body, i - start);
        }
        acc = acc * 10 + d;
        proof {
            assert forall|j: int| 0 <= j < body.take(i - start + 1).len() implies is_digit(
                #[trigger] body.take(i - start + 1)[j],
            ) by {
                if j < i - start {
                    assert(body.take(i - start + 1)[j] == body.take(i - start)[j]);
                }
            }
        }
        assert(acc == digits_value(body.take(i - start + 1)));
        if acc > usize::MAX as u128 {
            proof {
                lemma_value_grows(body, (i - start + 1) as int);
            }
            return None;
        }
        i = i + 1;
    }
    proof {
        assert(body.take(n - start) == body);
    }
    Some(acc as usize)
}

/// The value of all digits is at least the value of a prefix of them.
proof fn lemma_value_grows(s: Seq<char>, k: int)
    requires
        0 <= k <= s.len(),
        all_digits(s.take(k)),
    ensures
        all_digits(s) ==> digits_value(s) >= digits_value(s.take(k)),
    decreases s.len() - k,
{
    if all_digits(s) && k < s.len() {
        lemma_digits_value_take(s, k);
        assert(all_digits(s.take(k + 1)));
        lemma_digits_value_nonneg(s.take(k));
        assert(is_digit(s[k]));
        lemma_value_grows(s, k + 1);
    }
    if k == s.len() {
        assert(s.take(k) == s);
    }
}

proof fn lemma_digit_char(d: int)
    requires
        0 <= d < 10,
    ensures
        is_digit(digit_char(d)),
        digit_value(digit_char(d)) == d,
{
}

proof fn lemma_nat_digits(v: nat)
    ensures
        nat_digits(v).len() > 0,
        all_digits(nat_digits(v)),
        digits_value(nat_digits(v)) == v,
        is_digit(nat_digits(v)[0]),
    decreases v,
{
    lemma_digit_char(v as int % 10);
    if v < 10 {
        let s = nat_digits(v);
        assert(s.drop_last() =~= Seq::<char>::empty());
        assert(digits_value(s) == digits_value(s.drop_last()) * 10 + digit_value(s.last()));
    }
    if v >= 10 {
        lemma_nat_digits(v / 10);
        let s = nat_digits(v);
        assert(s.drop_last() == nat_digits(v / 10));
        assert(digits_value(s) == digits_value(s.drop_last()) * 10 + digit_value(s.last()));
        assert(digit_value(s.last()) == v % 10);
        assert((v / 10) * 10 + v % 10 == v);
        assert(s.last() == digit_char(v as int % 10));
        assert forall|i: int| 0 <= i < s.len() implies is_digit(#[trigger] s[i]) by {
            if i < s.len() - 1 {
                assert(s[i] == nat_digits(v / 10)[i]);
            }
        }
    }
}

/// Writing a number in base ten and reading it back gives the number.
pub proof fn lemma_decimal_round_trip(n: i64)
    ensures
        parsed_i64(decimal(n as int)) == Some(n),
{
    let s = decimal(n as int);
    if n < 0 {
        lemma_nat_digits((-n) as nat);
        assert(s.drop_first() == nat_digits((-n) as nat));
    } else {
        lemma_nat_digits(n as nat);
    }
}

} // verus!
