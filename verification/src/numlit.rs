//! Verified recognizers for numeric and boolean literals, matching the
//! accepting grammars documented for std's `FromStr` on `i64`, on the
//! 64-bit binary float type, and on `bool`.  The coercer uses these to
//! decide how a loosely-typed literal is bound.

use vstd::prelude::*;

use crate::text::{ascii_lower, chars_vec, is_digit_char, lower_seq, str_eq, string_from_chars};

verus! {

pub open spec fn all_digits(s: Seq<char>) -> bool {
    forall|i: int| 0 <= i < s.len() ==> is_digit_char(#[trigger] s[i])
}

pub open spec fn digit_val(c: char) -> nat {
    if is_digit_char(c) {
        (c as u32 - '0' as u32) as nat
    } else {
        0
    }
}

/// The value of a string of decimal digits.
pub open spec fn digits_value(s: Seq<char>) -> nat
    decreases s.len(),
{
    if s.len() == 0 {
        0
    } else {
        digits_value(s.drop_last()) * 10 + digit_val(s.last())
    }
}

/// The text after an optional single leading `+` or `-`.
pub open spec fn sign_body(s: Seq<char>) -> Seq<char> {
    if s.len() > 0 && (s[0] == '+' || s[0] == '-') {
        s.drop_first()
    } else {
        s
    }
}

pub open spec fn sign_negative(s: Seq<char>) -> bool {
    s.len() > 0 && s[0] == '-'
}

/// The signed integer value of the text, meaningful when the body is all
/// digits.
pub open spec fn signed_value(s: Seq<char>) -> int {
    if sign_negative(s) {
        -(digits_value(sign_body(s)) as int)
    } else {
        digits_value(sign_body(s)) as int
    }
}

/// Whether std's `i64::from_str` accepts the text: an optional sign, one or
/// more decimal digits, and a value within the 64-bit signed range.
pub open spec fn is_i64_literal(s: Seq<char>) -> bool {
    let b = sign_body(s);
    b.len() > 0 && all_digits(b) && i64::MIN <= signed_value(s) <= i64::MAX
}

pub open spec fn i64_of(s: Seq<char>) -> Option<i64> {
    if is_i64_literal(s) {
        Some(signed_value(s) as i64)
    } else {
        None
    }
}

/// Appending digits never shrinks the value.
proof fn lemma_digits_value_prefix(b: Seq<char>, j: int)
    requires
        0 <= j <= b.len(),
    ensures
        digits_value(b) >= digits_value(b.take(j)),
    decreases b.len() - j,
{
    if j < b.len() {
        assert(b.take(j + 1).drop_last() =~= b.take(j));
        assert(digits_value(b.take(j + 1)) == digits_value(b.take(j)) * 10 + digit_val(b[j]));
        lemma_digits_value_prefix(b, j + 1);
    } else {
        assert(b.take(j) =~= b);
    }
}

/// Parses a signed decimal 64-bit integer exactly as std's `i64::from_str`
/// does.
pub fn parse_i64(s: &str) -> (r: Option<i64>)
    ensures
        r == i64_of(s@),
{
    let v = chars_vec(s);
    let neg = v.len() > 0 && v[0] == '-';
    let off: usize = if v.len() > 0 && (v[0] == '+' || v[0] == '-') {
        1
    } else {
        0
    };
    let ghost b = sign_body(s@);
    proof {
        assert(b =~= v@.skip(off as int));
    }
    if v.len() == off {
        return None;
    }
    let limit: u64 = if neg {
        9223372036854775808u64
    } else {
        9223372036854775807u64
    };
    let mut acc: u64 = 0;
    let mut i: usize = off;
    while i < v.len()
        invariant
            off <= i <= v.len(),
            b == v@.skip(off as int),
            b == sign_body(s@),
            v@ == s@,
            off == if sign_negative(s@) || (s@.len() > 0 && s@[0] == '+') {
                1int
            } else {
                0int
            },
            neg == sign_negative(s@),
            limit == if neg {
                9223372036854775808u64
            } else {
                9223372036854775807u64
            },
            all_digits(b.take(i - off)),
            acc == digits_value(b.take(i - off)),
            acc <= limit,
        decreases v.len() - i,
    {
        let c = v[i];
        if !('0' <= c && c <= '9') {
            proof {
                assert(!is_digit_char(b[i - off]));
            }
            return None;
        }
        let d: u64 = (c as u32 - 48) as u64;
        if acc > limit / 10 || (acc == limit / 10 && d > limit % 10) {
            proof {
                assert(b.take(i - off + 1).drop_last() =~= b.take(i - off));
                assert(digits_value(b.take(i - off + 1)) == acc * 10 + d);
                assert(digits_value(b.take(i - off + 1)) > limit);
                lemma_digits_value_prefix(b, i - off + 1);
                assert(digits_value(b) > limit);
                if neg {
                    assert(signed_value(s@) == -(digits_value(b) as int));
                    assert(signed_value(s@) < i64::MIN);
                } else {
                    assert(signed_value(s@) == digits_value(b) as int);
                    assert(signed_value(s@) > i64::MAX);
                }
                assert(!is_i64_literal(s@));
            }
            return None;
        }
        proof {
            assert(b.take(i - off + 1).drop_last() =~= b.take(i - off));
        }
        acc = acc * 10 + d;
        i = i + 1;
    }
    proof {
        assert(b.take(v.len() - off) =~= b);
        assert(digits_value(b) == acc);
    }
    if neg {
        if acc == 9223372036854775808u64 {
            Some(i64::MIN)
        } else {
            Some(-(acc as i64))
        }
    } else {
        Some(acc as i64)
    }
}

/// Whether std's `bool::from_str` accepts the text.
pub open spec fn is_bool_literal(s: Seq<char>) -> bool {
    s == "true"@ || s == "false"@
}

pub open spec fn bool_of(s: Seq<char>) -> bool {
    s == "true"@
}

/// Recognizes exactly the two texts std's `bool::from_str` accepts.
pub fn is_bool_lit(s: &str) -> (r: bool)
    ensures
        r == is_bool_literal(s@),
{
    str_eq(s, "true") || str_eq(s, "false")
}

pub fn parse_bool(s: &str) -> (r: bool)
    ensures
        r == bool_of(s@),
{
    str_eq(s, "true")
}

pub open spec fn is_e_char(c: char) -> bool {
    c == 'e' || c == 'E'
}

/// An optional exponent: empty, or `e`/`E` followed by an optionally signed
/// non-empty digit string.
pub open spec fn is_exp_tail(e: Seq<char>) -> bool {
    e.len() == 0 || {
        let g = sign_body(e.drop_first());
        is_e_char(e[0]) && g.len() > 0 && all_digits(g)
    }
}

/// A mantissa: digits, digits with a trailing dot, digits around a dot, or a
/// dot with following digits; at least one digit in any form.
pub open spec fn is_mantissa(m: Seq<char>) -> bool {
    exists|j: int|
        0 <= j <= m.len() && all_digits(#[trigger] m.take(j)) && (if j == m.len() {
            m.len() > 0
        } else {
            m[j] == '.' && all_digits(m.skip(j + 1)) && (j > 0 || m.len() > j + 1)
        })
}

/// A float body without its sign: a mantissa followed by an optional
/// exponent.
pub open spec fn is_float_body(b: Seq<char>) -> bool {
    exists|k: int|
        0 <= k <= b.len() && (forall|i: int| 0 <= i < k ==> !is_e_char(#[trigger] b[i])) && (k
            == b.len() || is_e_char(b[k])) && is_mantissa(#[trigger] b.take(k)) && is_exp_tail(
            b.skip(k),
        )
}

/// The special float words accepted case-insensitively.
pub open spec fn is_float_special(b: Seq<char>) -> bool {
    lower_seq(b) == "inf"@ || lower_seq(b) == "infinity"@ || lower_seq(b) == "nan"@
}

/// Whether std's `FromStr` for the 64-bit binary float type accepts the
/// text, per its documented grammar: an optional sign, then `inf`,
/// `infinity` or `nan` in any casing, or a decimal mantissa with an optional
/// exponent.
pub open spec fn is_float_literal(s: Seq<char>) -> bool {
    is_float_special(sign_body(s)) || is_float_body(sign_body(s))
}

/// The characters of `v` from `from` on.
fn subvec_from(v: &Vec<char>, from: usize) -> (r: Vec<char>)
    requires
        from <= v.len(),
    ensures
        r@ == v@.skip(from as int),
{
    let mut r: Vec<char> = Vec::new();
    let mut i: usize = from;
    while i < v.len()
        invariant
            from <= i <= v.len(),
            r@ == v@.subrange(from as int, i as int),
        decreases v.len() - i,
    {
        r.push(v[i]);
        proof {
            assert(v@.subrange(from as int, i as int + 1) =~= v@.subrange(
                from as int,
                i as int,
            ).push(v@[i as int]));
        }
        i = i + 1;
    }
    proof {
        assert(v@.subrange(from as int, v@.len() as int) =~= v@.skip(from as int));
    }
    r
}

fn all_digits_range(v: &Vec<char>, from: usize, to: usize) -> (r: bool)
    requires
        from <= to <= v.len(),
    ensures
        r == all_digits(v@.subrange(from as int, to as int)),
{
    let ghost w = v@.subrange(from as int, to as int);
    let mut i: usize = from;
    while i < to
        invariant
            from <= i <= to <= v.len(),
            w == v@.subrange(from as int, to as int),
            forall|j: int| 0 <= j < i - from ==> is_digit_char(#[trigger] w[j]),
        decreases to - i,
    {
        let c = v[i];
        if !('0' <= c && c <= '9') {
            proof {
                assert(w[i - from] == v@[i as int]);
                assert(!is_digit_char(w[i - from]));
            }
            return false;
        }
        i = i + 1;
    }
    true
}

/// Recognizes a float literal exactly as std's `FromStr` for the 64-bit
/// binary float type documents it.
#[verifier::rlimit(60)]
pub fn is_float_lit(s: &str) -> (r: bool)
    ensures
        r == is_float_literal(s@),
{
    let v = chars_vec(s);
    let off: usize = if v.len() > 0 && (v[0] == '+' || v[0] == '-') {
        1
    } else {
        0
    };
    let body = subvec_from(&v, off);
    let ghost b = sign_body(s@);
    proof {
        assert(b =~= body@);
    }
    let body_str = string_from_chars(&body);
    let low = ascii_lower(body_str.as_str());
    if str_eq(low.as_str(), "inf") || str_eq(low.as_str(), "infinity") || str_eq(
        low.as_str(),
        "nan",
    ) {
        return true;
    }
    let n = body.len();
    // First exponent marker, or the end of the body.
    let mut k: usize = 0;
    while k < n && !(body[k] == 'e' || body[k] == 'E')
        invariant
            0 <= k <= n,
            n == body@.len(),
            forall|j: int| 0 <= j < k ==> !is_e_char(#[trigger] body@[j]),
        decreases n - k,
    {
        k = k + 1;
    }
    // First non-digit within the mantissa, or the mantissa's end.
    let mut j: usize = 0;
    while j < k && '0' <= body[j] && body[j] <= '9'
        invariant
            0 <= j <= k,
            k <= n,
            n == body@.len(),
            forall|i: int| 0 <= i < j ==> is_digit_char(#[trigger] body@[i]),
        decreases k - j,
    {
        j = j + 1;
    }
    let ghost m = b.take(k as int);
    let mantissa_ok: bool = if j == k {
        k > 0
    } else {
        body[j] == '.' && all_digits_range(&body, j + 1, k) && (j > 0 || k > j + 1)
    };
    let exp_ok: bool = if k == n {
        true
    } else {
        let g_off: usize = if k + 1 < n && (body[k + 1] == '+' || body[k + 1] == '-') {
            k + 2
        } else {
            k + 1
        };
        n > g_off && all_digits_range(&body, g_off, n)
    };
    proof {
        // The mantissa flag matches the spec's mantissa test at split j.
        assert(m.take(j as int) =~= b.subrange(0, j as int));
        if j < k {
            assert(m.skip(j as int + 1) =~= b.subrange(j as int + 1, k as int));
        }
        // The exponent flag matches `is_exp_tail` of the tail at k.
        if k < n {
            let e = b.skip(k as int);
            let g = sign_body(e.drop_first());
            assert(e.drop_first() =~= b.subrange(k as int + 1, n as int));
            if k + 1 < n && (b[k as int + 1] == '+' || b[k as int + 1] == '-') {
                assert(g =~= b.subrange(k as int + 2, n as int));
            } else {
                assert(g =~= b.subrange(k as int + 1, n as int));
            }
            assert(exp_ok == is_exp_tail(b.skip(k as int)));
        } else {
            assert(b.skip(k as int) =~= Seq::<char>::empty());
            assert(is_exp_tail(b.skip(k as int)));
        }
    }
    if mantissa_ok && exp_ok {
        proof {
            assert(is_mantissa(m)) by {
                assert(all_digits(m.take(j as int)));
            }
            assert(is_float_body(b)) by {
                assert(0 <= k as int <= b.len() && (forall|i: int|
                    0 <= i < k as int ==> !is_e_char(#[trigger] b[i])) && (k as int == b.len()
                    || is_e_char(b[k as int])) && is_mantissa(b.take(k as int)) && is_exp_tail(
                    b.skip(k as int),
                ));
            }
        }
        true
    } else {
        proof {
            if !mantissa_ok {
                lemma_no_mantissa_split(b, k as int, j as int);
            }
            assert(!is_float_body(b)) by {
                assert forall|k2: int|
                    !(0 <= k2 <= b.len() && (forall|i: int|
                        0 <= i < k2 ==> !is_e_char(#[trigger] b[i])) && (k2 == b.len()
                        || is_e_char(b[k2])) && is_mantissa(#[trigger] b.take(k2)) && is_exp_tail(
                        b.skip(k2),
                    )) by {
                    if 0 <= k2 <= b.len() && (forall|i: int|
                        0 <= i < k2 ==> !is_e_char(#[trigger] b[i])) && (k2 == b.len()
                        || is_e_char(b[k2])) {
                        if k2 < k {
                            assert(is_e_char(b[k2]));
                        } else if k2 > k {
                            assert(k < b.len());
                            assert(is_e_char(b[k as int]));
                        }
                    }
                }
            }
        }
        false
    }
}

/// A JSON-number mantissa: an integer part without needless leading zeros,
/// optionally followed by a dot and at least one fraction digit.
pub open spec fn is_jn_mantissa(m: Seq<char>) -> bool {
    exists|j: int|
        0 <= j <= m.len() && all_digits(#[trigger] m.take(j)) && (if j == m.len() {
            j > 0 && (m[0] != '0' || j == 1)
        } else {
            m[j] == '.' && j > 0 && (m[0] != '0' || j == 1) && j + 1 < m.len() && all_digits(
                m.skip(j + 1),
            )
        })
}

/// The text after an optional single leading minus.
pub open spec fn minus_body(s: Seq<char>) -> Seq<char> {
    if s.len() > 0 && s[0] == '-' {
        s.drop_first()
    } else {
        s
    }
}

/// A JSON number without its sign: a mantissa and an optional exponent.
pub open spec fn is_jn_body(b: Seq<char>) -> bool {
    exists|k: int|
        0 <= k <= b.len() && (forall|i: int| 0 <= i < k ==> !is_e_char(#[trigger] b[i])) && (k
            == b.len() || is_e_char(b[k])) && is_jn_mantissa(#[trigger] b.take(k)) && is_exp_tail(
            b.skip(k),
        )
}

/// Whether the text is a number in JSON's own grammar: an optional minus,
/// an integer part without needless leading zeros, an optional fraction
/// with at least one digit, and an optional signed exponent.  This is what
/// serde_json accepts when it re-reads a number from text.
pub open spec fn is_json_number(s: Seq<char>) -> bool {
    is_jn_body(minus_body(s))
}

/// Recognizes JSON-number syntax exactly.
#[verifier::rlimit(60)]
pub fn is_json_number_lit(s: &str) -> (r: bool)
    ensures
        r == is_json_number(s@),
{
    let v = chars_vec(s);
    let off: usize = if v.len() > 0 && v[0] == '-' {
        1
    } else {
        0
    };
    let body = subvec_from(&v, off);
    let ghost b = minus_body(s@);
    proof {
        assert(b =~= body@);
    }
    let n = body.len();
    // First exponent marker, or the end of the body.
    let mut k: usize = 0;
    while k < n && !(body[k] == 'e' || body[k] == 'E')
        invariant
            0 <= k <= n,
            n == body@.len(),
            forall|j: int| 0 <= j < k ==> !is_e_char(#[trigger] body@[j]),
        decreases n - k,
    {
        k = k + 1;
    }
    // First non-digit within the mantissa, or the mantissa's end.
    let mut j: usize = 0;
    while j < k && '0' <= body[j] && body[j] <= '9'
        invariant
            0 <= j <= k,
            k <= n,
            n == body@.len(),
            forall|i: int| 0 <= i < j ==> is_digit_char(#[trigger] body@[i]),
        decreases k - j,
    {
        j = j + 1;
    }
    let ghost m = b.take(k as int);
    let lead_ok: bool = j > 0 && (body[0] != '0' || j == 1);
    let mantissa_ok: bool = if j == k {
        lead_ok
    } else {
        body[j] == '.' && lead_ok && j + 1 < k && all_digits_range(&body, j + 1, k)
    };
    let exp_ok: bool = if k == n {
        true
    } else {
        let g_off: usize = if k + 1 < n && (body[k + 1] == '+' || body[k + 1] == '-') {
            k + 2
        } else {
            k + 1
        };
        n > g_off && all_digits_range(&body, g_off, n)
    };
    proof {
        // The two flags match the spec's tests at the scanned split.
        assert(m.take(j as int) =~= b.subrange(0, j as int));
        if j < k {
            assert(m.skip(j as int + 1) =~= b.subrange(j as int + 1, k as int));
        }
        if k < n {
            let e = b.skip(k as int);
            let g = sign_body(e.drop_first());
            assert(e.drop_first() =~= b.subrange(k as int + 1, n as int));
            if k + 1 < n && (b[k as int + 1] == '+' || b[k as int + 1] == '-') {
                assert(g =~= b.subrange(k as int + 2, n as int));
            } else {
                assert(g =~= b.subrange(k as int + 1, n as int));
            }
            assert(exp_ok == is_exp_tail(b.skip(k as int)));
        } else {
            assert(b.skip(k as int) =~= Seq::<char>::empty());
            assert(is_exp_tail(b.skip(k as int)));
        }
    }
    if mantissa_ok && exp_ok {
        proof {
            assert(is_jn_mantissa(m)) by {
                assert(all_digits(m.take(j as int)));
            }
            assert(is_jn_body(b)) by {
                assert(0 <= k as int <= b.len() && (forall|i: int|
                    0 <= i < k as int ==> !is_e_char(#[trigger] b[i])) && (k as int == b.len()
                    || is_e_char(b[k as int])) && is_jn_mantissa(b.take(k as int)) && is_exp_tail(
                    b.skip(k as int),
                ));
            }
        }
        true
    } else {
        proof {
            if !mantissa_ok {
                lemma_no_jn_mantissa_split(b, k as int, j as int);
            }
            assert(!is_jn_body(b)) by {
                assert forall|k2: int|
                    !(0 <= k2 <= b.len() && (forall|i: int|
                        0 <= i < k2 ==> !is_e_char(#[trigger] b[i])) && (k2 == b.len()
                        || is_e_char(b[k2])) && is_jn_mantissa(#[trigger] b.take(k2))
                        && is_exp_tail(b.skip(k2))) by {
                    if 0 <= k2 <= b.len() && (forall|i: int|
                        0 <= i < k2 ==> !is_e_char(#[trigger] b[i])) && (k2 == b.len()
                        || is_e_char(b[k2])) {
                        if k2 < k {
                            assert(is_e_char(b[k2]));
                        } else if k2 > k {
                            assert(k < b.len());
                            assert(is_e_char(b[k as int]));
                        }
                    }
                }
            }
        }
        false
    }
}

/// The JSON-number counterpart of the mantissa-uniqueness argument below.
proof fn lemma_no_jn_mantissa_split(b: Seq<char>, k: int, j: int)
    requires
        0 <= j <= k <= b.len(),
        forall|i: int| 0 <= i < j ==> is_digit_char(#[trigger] b[i]),
        j < k ==> !is_digit_char(b[j]),
        !(if j == k {
            j > 0 && (b[0] != '0' || j == 1)
        } else {
            b[j] == '.' && j > 0 && (b[0] != '0' || j == 1) && j + 1 < k && all_digits(
                b.subrange(j + 1, k),
            )
        }),
    ensures
        !is_jn_mantissa(b.take(k)),
{
    let m = b.take(k);
    assert(m.len() == k);
    assert forall|j2: int|
        !(0 <= j2 <= m.len() && all_digits(#[trigger] m.take(j2)) && (if j2 == m.len() {
            j2 > 0 && (m[0] != '0' || j2 == 1)
        } else {
            m[j2] == '.' && j2 > 0 && (m[0] != '0' || j2 == 1) && j2 + 1 < m.len() && all_digits(
                m.skip(j2 + 1),
            )
        })) by {
        if 0 <= j2 <= m.len() && all_digits(m.take(j2)) {
            if j2 < j {
                assert(m[j2] == b[j2]);
                assert(is_digit_char(m[j2]));
            } else if j2 > j {
                assert(j < k);
                assert(m.take(j2)[j] == b[j]);
            } else {
                if j < k {
                    assert(m[j] == b[j]);
                    if b[j] == '.' {
                        assert(m.skip(j + 1) =~= b.subrange(j + 1, k));
                    }
                }
                if 0 < j {
                    assert(m[0] == b[0]);
                }
            }
        }
    }
}

/// With the digits of the mantissa region running exactly up to `j` and the
/// candidate split at `j` refused, no split makes `b.take(k)` a mantissa.
proof fn lemma_no_mantissa_split(b: Seq<char>, k: int, j: int)
    requires
        0 <= j <= k <= b.len(),
        forall|i: int| 0 <= i < j ==> is_digit_char(#[trigger] b[i]),
        j < k ==> !is_digit_char(b[j]),
        !(if j == k {
            k > 0
        } else {
            b[j] == '.' && all_digits(b.subrange(j + 1, k)) && (j > 0 || k > j + 1)
        }),
    ensures
        !is_mantissa(b.take(k)),
{
    let m = b.take(k);
    assert(m.len() == k);
    assert forall|j2: int|
        !(0 <= j2 <= m.len() && all_digits(#[trigger] m.take(j2)) && (if j2 == m.len() {
            m.len() > 0
        } else {
            m[j2] == '.' && all_digits(m.skip(j2 + 1)) && (j2 > 0 || m.len() > j2 + 1)
        })) by {
        if 0 <= j2 <= m.len() && all_digits(m.take(j2)) {
            if j2 < j {
                // A digit sits where the split needs a dot or the end.
                assert(m[j2] == b[j2]);
                assert(is_digit_char(m[j2]));
            } else if j2 > j {
                // The split's leading digits would include a non-digit.
                assert(j < k);
                assert(m.take(j2)[j] == b[j]);
            } else {
                if j < k {
                    assert(m[j] == b[j]);
                    if b[j] == '.' {
                        assert(m.skip(j + 1) =~= b.subrange(j + 1, k));
                    }
                }
            }
        }
    }
}

} // verus!
