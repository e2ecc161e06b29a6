//! Decimal integer reading and writing, used for numeric attribute values
//! (`city_id=7`) and for the numeric search filters (`umur:30`).

use vstd::prelude::*;

verus! {

pub open spec fn is_digit_char(c: char) -> bool {
    ('0' as int) <= (c as int) && (c as int) <= ('9' as int)
}

pub open spec fn digit_of(c: char) -> int {
    (c as int) - ('0' as int)
}

pub open spec fn all_digits(s: Seq<char>) -> bool {
    forall|i: int| 0 <= i < s.len() ==> is_digit_char(#[trigger] s[i])
}

/// Value of a non-empty digit string, most significant digit first.
pub open spec fn digits_val(s: Seq<char>) -> int
    decreases s.len(),
{
    if s.len() == 0 {
        0
    } else {
        digits_val(s.drop_last()) * 10 + digit_of(s.last())
    }
}

/// The shape `str::parse` accepts for a signed integer: an optional single
/// leading `+` or `-` followed by at least one decimal digit.
pub open spec fn int_str_shape(s: Seq<char>) -> bool {
    if s.len() == 0 {
        false
    } else if s[0] == '+' || s[0] == '-' {
        s.len() > 1 && all_digits(s.subrange(1, s.len() as int))
    } else {
        all_digits(s)
    }
}

/// Signed value of a string of integer shape.
pub open spec fn int_str_val(s: Seq<char>) -> int {
    if s.len() > 0 && s[0] == '-' {
        -digits_val(s.subrange(1, s.len() as int))
    } else if s.len() > 0 && s[0] == '+' {
        digits_val(s.subrange(1, s.len() as int))
    } else {
        digits_val(s)
    }
}

/// What `str::parse::<i64>` returns: the value when the string has integer
/// shape and the value is representable, absence otherwise.
pub open spec fn parse_i64_spec(s: Seq<char>) -> Option<i64> {
    if int_str_shape(s) && i64::MIN <= int_str_val(s) <= i64::MAX {
        Some(int_str_val(s) as i64)
    } else {
        None
    }
}

/// What `str::parse::<i32>` returns, likewise.
pub open spec fn parse_i32_spec(s: Seq<char>) -> Option<i32> {
    if int_str_shape(s) && i32::MIN <= int_str_val(s) <= i32::MAX {
        Some(int_str_val(s) as i32)
    } else {
        None
    }
}

pub proof fn lemma_digits_val_nonneg(s: Seq<char>)
    requires
        all_digits(s),
    ensures
        digits_val(s) >= 0,
    decreases s.len(),
{
    if s.len() > 0 {
        assert(all_digits(s.drop_last()));
        lemma_digits_val_nonneg(s.drop_last());
    }
}

pub proof fn lemma_digits_val_push(q: Seq<char>, c: char)
    ensures
        digits_val(q.push(c)) == digits_val(q) * 10 + digit_of(c),
{
    let p = q.push(c);
    assert(p.drop_last() =~= q);
    assert(p.last() == c);
}

/// Reads a signed 64-bit integer exactly as `str::parse::<i64>` does.
pub fn parse_i64_str(s: &str) -> (r: Option<i64>)
    ensures
        r == parse_i64_spec(s@),
{
    let n = s.unicode_len();
    if n == 0 {
        return None;
    }
    let c0 = s.get_char(0);
    let neg = c0 == '-';
    let signed = c0 == '-' || c0 == '+';
    let ds: usize = if signed {
        1
    } else {
        0
    };
    if n == ds {
        return None;
    }
    let mut acc: u64 = 0;
    let mut over = false;
    let mut i: usize = ds;
    while i < n
        invariant
            ds <= i <= n,
            n == s@.len(),
            ds == 1 ==> (s@[0] == '-' || s@[0] == '+'),
            ds == 0 ==> !(s@[0] == '-' || s@[0] == '+'),
            ds <= 1,
            all_digits(s@.subrange(ds as int, i as int)),
            !over ==> acc as int == digits_val(s@.subrange(ds as int, i as int)) && acc
                <= 9223372036854775808u64,
            over ==> digits_val(s@.subrange(ds as int, i as int)) > 9223372036854775808,
        decreases n - i,
    {
        let c = s.get_char(i);
        let u = c as u32;
        let ghost prefix = s@.subrange(ds as int, i as int);
        if u < 48 || u > 57 {
            proof {
                assert(!is_digit_char(s@[i as int]));
                if ds == 1 {
                    assert(s@.subrange(1, n as int)[i as int - 1] == s@[i as int]);
                    assert(!all_digits(s@.subrange(1, n as int)));
                } else {
                    assert(!all_digits(s@));
                }
            }
            return None;
        }
        let d: u64 = (u - 48) as u64;
        proof {
            assert(s@.subrange(ds as int, i as int + 1) =~= prefix.push(s@[i as int]));
            lemma_digits_val_push(prefix, s@[i as int]);
            assert(d as int == digit_of(s@[i as int]));
        }
        if over {
        } else if acc > 922337203685477580u64 {
            over = true;
        } else {
            let wide = acc * 10 + d;
            if wide > 9223372036854775808u64 {
                over = true;
            } else {
                acc = wide;
            }
        }
        i = i + 1;
    }
    let ghost dseq = s@.subrange(ds as int, n as int);
    proof {
        if ds == 0 {
            assert(dseq =~= s@);
        }
        assert(all_digits(dseq));
        assert(int_str_shape(s@));
        lemma_digits_val_nonneg(dseq);
        if ds == 1 {
            assert(int_str_val(s@) == if s@[0] == '-' {
                -digits_val(dseq)
            } else {
                digits_val(dseq)
            });
        } else {
            assert(dseq =~= s@);
        }
    }
    if over {
        return None;
    }
    if neg {
        if acc == 9223372036854775808u64 {
            let min: i64 = -9223372036854775807i64 - 1;
            Some(min)
        } else {
            Some(-(acc as i64))
        }
    } else {
        if acc <= 9223372036854775807u64 {
            Some(acc as i64)
        } else {
            None
        }
    }
}

/// Reads a signed 32-bit integer exactly as `str::parse::<i32>` does.
pub fn parse_i32_str(s: &str) -> (r: Option<i32>)
    ensures
        r == parse_i32_spec(s@),
{
    match parse_i64_str(s) {
        Some(v) => {
            if -2147483648i64 <= v && v <= 2147483647i64 {
                Some(v as i32)
            } else {
                None
            }
        },
        None => {
            proof {
                if int_str_shape(s@) {
                    assert(!(i64::MIN <= int_str_val(s@) <= i64::MAX));
                }
            }
            None
        },
    }
}

pub open spec fn digit_char(d: int) -> char {
    if d == 0 {
        '0'
    } else if d == 1 {
        '1'
    } else if d == 2 {
        '2'
    } else if d == 3 {
        '3'
    } else if d == 4 {
        '4'
    } else if d == 5 {
        '5'
    } else if d == 6 {
        '6'
    } else if d == 7 {
        '7'
    } else if d == 8 {
        '8'
    } else {
        '9'
    }
}

/// Decimal digits of a non-negative number, no sign, no leading zeros.
pub open spec fn dec_str(n: int) -> Seq<char>
    decreases n,
{
    if n < 10 {
        seq![digit_char(n)]
    } else {
        dec_str(n / 10).push(digit_char(n % 10))
    }
}

/// Decimal form of a signed number, `-` before the digits when negative.
pub open spec fn spec_i64_str(n: int) -> Seq<char> {
    if n >= 0 {
        dec_str(n)
    } else {
        seq!['-'] + dec_str(-n)
    }
}

fn digit_lit(d: u64) -> (r: &'static str)
    requires
        d < 10,
    ensures
        r@ == seq![digit_char(d as int)],
{
    if d == 0 {
        proof {
            reveal_strlit("0");
            assert("0"@ =~= seq!['0']);
        }
        "0"
    } else if d == 1 {
        proof {
            reveal_strlit("1");
            assert("1"@ =~= seq!['1']);
        }
        "1"
    } else if d == 2 {
        proof {
            reveal_strlit("2");
            assert("2"@ =~= seq!['2']);
        }
        "2"
    } else if d == 3 {
        proof {
            reveal_strlit("3");
            assert("3"@ =~= seq!['3']);
        }
        "3"
    } else if d == 4 {
        proof {
            reveal_strlit("4");
            assert("4"@ =~= seq!['4']);
        }
        "4"
    } else if d == 5 {
        proof {
            reveal_strlit("5");
            assert("5"@ =~= seq!['5']);
        }
        "5"
    } else if d == 6 {
        proof {
            reveal_strlit("6");
            assert("6"@ =~= seq!['6']);
        }
        "6"
    } else if d == 7 {
        proof {
            reveal_strlit("7");
            assert("7"@ =~= seq!['7']);
        }
        "7"
    } else if d == 8 {
        proof {
            reveal_strlit("8");
            assert("8"@ =~= seq!['8']);
        }
        "8"
    } else {
        proof {
            reveal_strlit("9");
            assert("9"@ =~= seq!['9']);
        }
        "9"
    }
}

fn u64_to_dec(n: u64) -> (r: String)
    ensures
        r@ == dec_str(n as int),
    decreases n,
{
    if n < 10 {
        String::from_str(digit_lit(n))
    } else {
        let mut s = u64_to_dec(n / 10);
        let d = digit_lit(n % 10);
        s.append(d);
        proof {
            assert((n / 10) as int == n as int / 10);
            assert((n % 10) as int == n as int % 10);
            assert(dec_str(n as int / 10).push(digit_char(n as int % 10)) =~= dec_str(
                n as int / 10,
            ) + seq![digit_char(n as int % 10)]);
        }
        s
    }
}

/// Writes a signed number in decimal, as `i64`'s `Display` does.
pub fn i64_to_dec_string(n: i64) -> (r: String)
    ensures
        r@ == spec_i64_str(n as int),
{
    if n >= 0 {
        u64_to_dec(n as u64)
    } else {
        let min: i64 = -9223372036854775807i64 - 1;
        let mag: u64 = if n == min {
            9223372036854775808u64
        } else {
            (-n) as u64
        };
        proof {
            assert(mag as int == -(n as int));
        }
        let digits = u64_to_dec(mag);
        let mut s = String::from_str("-");
        s.append(digits.as_str());
        proof {
            reveal_strlit("-");
            assert("-"@ =~= seq!['-']);
        }
        s
    }
}

} // verus!
