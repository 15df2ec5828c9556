//! Character-level text utilities shared by the SQL compiler, the literal
//! coercer and the row serializer: exact string equality, decimal rendering
//! of counters, ASCII lowercasing and separator joins.

use vstd::prelude::*;

verus! {

/// Relies on std's `String::push`: appends the given character to the end of
/// the string.
#[verifier::external_body]
pub fn push_char(s: &mut String, c: char)
    ensures
        final(s)@ == old(s)@.push(c),
{
    s.push(c);
}

/// The characters of `s`, as a vector.
pub fn chars_vec(s: &str) -> (v: Vec<char>)
    ensures
        v@ == s@,
{
    let n = s.unicode_len();
    let mut v: Vec<char> = Vec::new();
    let mut i: usize = 0;
    while i < n
        invariant
            i <= n,
            n == s@.len(),
            v@ == s@.take(i as int),
        decreases n - i,
    {
        let c = s.get_char(i);
        v.push(c);
        proof {
            assert(s@.take(i as int + 1) =~= s@.take(i as int).push(s@[i as int]));
        }
        i = i + 1;
    }
    proof {
        assert(v@ =~= s@);
    }
    v
}

/// A string holding exactly the characters of `v`.
pub fn string_from_chars(v: &Vec<char>) -> (s: String)
    ensures
        s@ == v@,
{
    let mut s = String::new();
    let mut i: usize = 0;
    while i < v.len()
        invariant
            i <= v.len(),
            s@ == v@.take(i as int),
        decreases v.len() - i,
    {
        push_char(&mut s, v[i]);
        proof {
            assert(v@.take(i as int + 1) =~= v@.take(i as int).push(v@[i as int]));
        }
        i = i + 1;
    }
    proof {
        assert(s@ =~= v@);
    }
    s
}

/// Exact character-for-character string equality.
pub fn str_eq(a: &str, b: &str) -> (r: bool)
    ensures
        r == (a@ == b@),
{
    let na = a.unicode_len();
    let nb = b.unicode_len();
    if na != nb {
        return false;
    }
    let mut i: usize = 0;
    while i < na
        invariant
            i <= na,
            na == a@.len(),
            nb == b@.len(),
            na == nb,
            forall|j: int| 0 <= j < i ==> a@[j] == b@[j],
        decreases na - i,
    {
        let ca = a.get_char(i);
        let cb = b.get_char(i);
        if ca != cb {
            return false;
        }
        i = i + 1;
    }
    proof {
        assert(a@ =~= b@);
    }
    true
}

/// Whether `c` occurs in `s`.
pub fn contains_char(s: &str, c: char) -> (r: bool)
    ensures
        r == s@.contains(c),
{
    let n = s.unicode_len();
    let mut i: usize = 0;
    while i < n
        invariant
            i <= n,
            n == s@.len(),
            forall|j: int| 0 <= j < i ==> s@[j] != c,
        decreases n - i,
    {
        let cur = s.get_char(i);
        if cur == c {
            proof {
                assert(s@.contains(c)) by {
                    assert(s@[i as int] == c);
                }
            }
            return true;
        }
        i = i + 1;
    }
    false
}

/// The decimal digit character for `d` (meaningful for `d < 10`).
pub open spec fn digit_char(d: nat) -> char {
    if d == 0 {
        '0'
    } else if d == 1 {
        '1'
    } else if d == 2 {
        '2'
    } else if d == 3 {
        '3'
    } else if d == 4 {
        '4'
    } else if d == 5 {
        '5'
    } else if d == 6 {
        '6'
    } else if d == 7 {
        '7'
    } else if d == 8 {
        '8'
    } else {
        '9'
    }
}

/// The usual base-10 rendering of `n`, with no sign and no leading zeros
/// (except for `n == 0` itself).
pub open spec fn dec_str_of(n: nat) -> Seq<char>
    decreases n,
{
    if n < 10 {
        seq![digit_char(n)]
    } else {
        dec_str_of(n / 10).push(digit_char(n % 10))
    }
}

fn digit_char_exec(d: usize) -> (c: char)
    requires
        d < 10,
    ensures
        c == digit_char(d as nat),
{
    if d == 0 {
        '0'
    } else if d == 1 {
        '1'
    } else if d == 2 {
        '2'
    } else if d == 3 {
        '3'
    } else if d == 4 {
        '4'
    } else if d == 5 {
        '5'
    } else if d == 6 {
        '6'
    } else if d == 7 {
        '7'
    } else if d == 8 {
        '8'
    } else {
        '9'
    }
}

/// Renders `n` in decimal.
pub fn usize_to_dec(n: usize) -> (s: String)
    ensures
        s@ == dec_str_of(n as nat),
    decreases n,
{
    if n < 10 {
        let mut s = String::new();
        push_char(&mut s, digit_char_exec(n));
        proof {
            assert(s@ =~= dec_str_of(n as nat));
        }
        s
    } else {
        let mut s = usize_to_dec(n / 10);
        push_char(&mut s, digit_char_exec(n % 10));
        s
    }
}

/// Renders `n` in decimal.
pub fn u64_to_dec(n: u64) -> (s: String)
    ensures
        s@ == dec_str_of(n as nat),
    decreases n,
{
    if n < 10 {
        let mut s = String::new();
        push_char(&mut s, digit_char_exec((n % 10) as usize));
        proof {
            assert(s@ =~= dec_str_of(n as nat));
        }
        s
    } else {
        let mut s = u64_to_dec(n / 10);
        push_char(&mut s, digit_char_exec((n % 10) as usize));
        s
    }
}

/// The base-10 rendering of a signed integer: a minus sign for negatives,
/// then the magnitude's digits.
pub open spec fn int_dec_str(v: int) -> Seq<char> {
    if v < 0 {
        seq!['-'] + dec_str_of((-v) as nat)
    } else {
        dec_str_of(v as nat)
    }
}

/// Renders a signed 64-bit integer in decimal.
pub fn i64_to_dec(v: i64) -> (s: String)
    ensures
        s@ == int_dec_str(v as int),
{
    if v >= 0 {
        u64_to_dec(v as u64)
    } else {
        let mag: u64 = if v == i64::MIN {
            9223372036854775808u64
        } else {
            (-v) as u64
        };
        let mut s = String::new();
        push_char(&mut s, '-');
        let d = u64_to_dec(mag);
        s.append(d.as_str());
        proof {
            assert(s@ =~= int_dec_str(v as int));
        }
        s
    }
}

pub open spec fn is_digit_char(c: char) -> bool {
    '0' <= c && c <= '9'
}

pub open spec fn is_ascii_lowercase(c: char) -> bool {
    'a' <= c && c <= 'z'
}

pub open spec fn is_ascii_uppercase(c: char) -> bool {
    'A' <= c && c <= 'Z'
}

/// ASCII lowercasing of one character; anything outside `'A'..='Z'` is kept.
pub open spec fn lower_char(c: char) -> char {
    if is_ascii_uppercase(c) {
        (((c as u8) + 32) as char)
    } else {
        c
    }
}

pub open spec fn lower_seq(s: Seq<char>) -> Seq<char> {
    s.map_values(|c: char| lower_char(c))
}

fn lower_char_exec(c: char) -> (r: char)
    ensures
        r == lower_char(c),
{
    if 'A' <= c && c <= 'Z' {
        (((c as u8) + 32) as char)
    } else {
        c
    }
}

/// ASCII lowercasing of a whole string; non-ASCII characters pass through.
pub fn ascii_lower(s: &str) -> (r: String)
    ensures
        r@ == lower_seq(s@),
{
    let n = s.unicode_len();
    let mut r = String::new();
    let mut i: usize = 0;
    while i < n
        invariant
            i <= n,
            n == s@.len(),
            r@ == lower_seq(s@.take(i as int)),
        decreases n - i,
    {
        let c = s.get_char(i);
        push_char(&mut r, lower_char_exec(c));
        proof {
            assert(lower_seq(s@.take(i as int + 1)) =~= lower_seq(s@.take(i as int)).push(
                lower_char(s@[i as int]),
            ));
        }
        i = i + 1;
    }
    proof {
        assert(s@.take(n as int) =~= s@);
    }
    r
}

pub open spec fn is_ascii_ws(c: char) -> bool {
    c == ' ' || c == '\t' || c == '\n' || c == '\r'
}

pub open spec fn drop_leading_ws(s: Seq<char>) -> Seq<char>
    decreases s.len(),
{
    if s.len() > 0 && is_ascii_ws(s[0]) {
        drop_leading_ws(s.drop_first())
    } else {
        s
    }
}

pub open spec fn drop_trailing_ws(s: Seq<char>) -> Seq<char>
    decreases s.len(),
{
    if s.len() > 0 && is_ascii_ws(s.last()) {
        drop_trailing_ws(s.drop_last())
    } else {
        s
    }
}

/// The text with leading and trailing ASCII whitespace removed.
pub open spec fn trim_spec(s: Seq<char>) -> Seq<char> {
    drop_trailing_ws(drop_leading_ws(s))
}

proof fn lemma_drop_leading_ws(s: Seq<char>, f: int)
    requires
        0 <= f <= s.len(),
        forall|j: int| 0 <= j < f ==> is_ascii_ws(#[trigger] s[j]),
        f < s.len() ==> !is_ascii_ws(s[f]),
    ensures
        drop_leading_ws(s) == s.skip(f),
    decreases f,
{
    if f == 0 {
        assert(s.skip(0) =~= s);
    } else {
        let t = s.drop_first();
        assert(forall|j: int| 0 <= j < f - 1 ==> is_ascii_ws(#[trigger] t[j]));
        lemma_drop_leading_ws(t, f - 1);
        assert(t.skip(f - 1) =~= s.skip(f));
    }
}

proof fn lemma_drop_trailing_ws(s: Seq<char>, l: int)
    requires
        0 <= l <= s.len(),
        forall|j: int| l <= j < s.len() ==> is_ascii_ws(#[trigger] s[j]),
        l > 0 ==> !is_ascii_ws(s[l - 1]),
    ensures
        drop_trailing_ws(s) == s.take(l),
    decreases s.len() - l,
{
    if l == s.len() {
        if s.len() > 0 && is_ascii_ws(s.last()) {
            assert(!is_ascii_ws(s[l - 1]));
        }
        assert(s.take(l) =~= s);
    } else {
        let t = s.drop_last();
        assert(forall|j: int| l <= j < t.len() ==> is_ascii_ws(#[trigger] t[j]));
        if l > 0 {
            assert(t.len() > l - 1);
            assert(t[l - 1] == s[l - 1]);
        }
        lemma_drop_trailing_ws(t, l);
        assert(t.take(l) =~= s.take(l));
    }
}

fn ws_char(c: char) -> (r: bool)
    ensures
        r == is_ascii_ws(c),
{
    c == ' ' || c == '\t' || c == '\n' || c == '\r'
}

/// Removes leading and trailing ASCII whitespace.
pub fn trim_ascii(s: &str) -> (r: String)
    ensures
        r@ == trim_spec(s@),
{
    let n = s.unicode_len();
    let mut f: usize = 0;
    while f < n && ws_char(s.get_char(f))
        invariant
            0 <= f <= n,
            n == s@.len(),
            forall|j: int| 0 <= j < f ==> is_ascii_ws(#[trigger] s@[j]),
        decreases n - f,
    {
        f = f + 1;
    }
    proof {
        lemma_drop_leading_ws(s@, f as int);
    }
    let mut l: usize = n;
    while l > f && ws_char(s.get_char(l - 1))
        invariant
            f <= l <= n,
            n == s@.len(),
            forall|j: int| 0 <= j < f ==> is_ascii_ws(#[trigger] s@[j]),
            forall|j: int| l <= j < n ==> is_ascii_ws(#[trigger] s@[j]),
        decreases l,
    {
        l = l - 1;
    }
    let r = s.substring_char(f, l);
    proof {
        let t = s@.skip(f as int);
        assert(forall|j: int|
            l - f <= j < t.len() ==> is_ascii_ws(#[trigger] t[j]));
        if l > f {
            assert(t[l - f - 1] == s@[l as int - 1]);
            assert(!is_ascii_ws(t[l - f - 1]));
        }
        lemma_drop_trailing_ws(t, l - f);
        assert(t.take(l - f) =~= s@.subrange(f as int, l as int));
    }
    String::from_str(r)
}

/// The text with every double-quote character removed.
pub open spec fn strip_dquotes(s: Seq<char>) -> Seq<char> {
    s.filter(|c: char| c != '"')
}

/// Removes every double-quote character.
pub fn strip_dq(s: &str) -> (r: String)
    ensures
        r@ == strip_dquotes(s@),
{
    let n = s.unicode_len();
    let mut r = String::new();
    proof {
        reveal(Seq::<char>::filter);
        assert(strip_dquotes(s@.take(0)) =~= Seq::<char>::empty());
    }
    let mut i: usize = 0;
    while i < n
        invariant
            i <= n,
            n == s@.len(),
            r@ == strip_dquotes(s@.take(i as int)),
        decreases n - i,
    {
        let c = s.get_char(i);
        proof {
            reveal(Seq::<char>::filter);
            assert(s@.take(i as int + 1).drop_last() =~= s@.take(i as int));
            assert(s@.take(i as int + 1).last() == s@[i as int]);
            assert(strip_dquotes(s@.take(i as int + 1)) == if s@[i as int] != '"' {
                strip_dquotes(s@.take(i as int)).push(s@[i as int])
            } else {
                strip_dquotes(s@.take(i as int))
            });
        }
        if c != '"' {
            push_char(&mut r, c);
        }
        i = i + 1;
    }
    proof {
        assert(s@.take(n as int) =~= s@);
    }
    r
}

/// An exact copy of a vector of strings.
pub fn clone_strings(v: &Vec<String>) -> (r: Vec<String>)
    ensures
        r@ == v@,
{
    let mut r: Vec<String> = Vec::new();
    let mut i: usize = 0;
    while i < v.len()
        invariant
            i <= v.len(),
            r@ == v@.take(i as int),
        decreases v.len() - i,
    {
        r.push(v[i].clone());
        proof {
            assert(v@.take(i as int + 1) =~= v@.take(i as int).push(v@[i as int]));
        }
        i = i + 1;
    }
    proof {
        assert(v@.take(v@.len() as int) =~= v@);
    }
    r
}

/// The views of a vector of strings.
pub open spec fn str_views(v: Seq<String>) -> Seq<Seq<char>> {
    v.map_values(|x: String| x@)
}

/// The mathematical values of a vector of 64-bit integers.
pub open spec fn int_views(v: Seq<i64>) -> Seq<int> {
    v.map_values(|x: i64| x as int)
}

/// Appending a string whose view is the next entry of `w` extends the
/// viewed prefix by one.
pub proof fn lemma_str_views_push(v: Seq<String>, x: String, w: Seq<Seq<char>>, i: int)
    requires
        str_views(v) == w.take(i),
        0 <= i < w.len(),
        v.len() == i,
        x@ == w[i],
    ensures
        str_views(v.push(x)) == w.take(i + 1),
{
    assert forall|j: int| 0 <= j < i + 1 implies #[trigger] str_views(v.push(x))[j] == w.take(
        i + 1,
    )[j] by {
        if j < i {
            assert(str_views(v)[j] == w.take(i)[j]);
        }
    }
    assert(str_views(v.push(x)) =~= w.take(i + 1));
}

/// The integer counterpart of `lemma_str_views_push`.
pub proof fn lemma_int_views_push(v: Seq<i64>, x: i64, w: Seq<int>, i: int)
    requires
        int_views(v) == w.take(i),
        0 <= i < w.len(),
        v.len() == i,
        x as int == w[i],
    ensures
        int_views(v.push(x)) == w.take(i + 1),
{
    assert forall|j: int| 0 <= j < i + 1 implies #[trigger] int_views(v.push(x))[j] == w.take(
        i + 1,
    )[j] by {
        if j < i {
            assert(int_views(v)[j] == w.take(i)[j]);
        }
    }
    assert(int_views(v.push(x)) =~= w.take(i + 1));
}

/// The parts joined with `sep` between consecutive parts.
pub open spec fn join_with(parts: Seq<Seq<char>>, sep: Seq<char>) -> Seq<char>
    decreases parts.len(),
{
    if parts.len() == 0 {
        Seq::empty()
    } else if parts.len() == 1 {
        parts[0]
    } else {
        parts[0] + sep + join_with(parts.drop_first(), sep)
    }
}

fn join_from(parts: &Vec<String>, sep: &str, i: usize) -> (r: String)
    requires
        i <= parts.len(),
    ensures
        r@ == join_with(str_views(parts@.skip(i as int)), sep@),
    decreases parts.len() - i,
{
    if i == parts.len() {
        proof {
            assert(str_views(parts@.skip(i as int)) =~= Seq::<Seq<char>>::empty());
        }
        String::new()
    } else if i + 1 == parts.len() {
        let r = parts[i].clone();
        proof {
            let m = str_views(parts@.skip(i as int));
            assert(m.len() == 1);
            assert(m[0] == parts@[i as int]@);
        }
        r
    } else {
        let mut r = parts[i].clone();
        r.append(sep);
        let rest = join_from(parts, sep, i + 1);
        r.append(rest.as_str());
        proof {
            let m = str_views(parts@.skip(i as int));
            let m1 = str_views(parts@.skip(i as int + 1));
            assert(m.drop_first() =~= m1);
            assert(m[0] == parts@[i as int]@);
        }
        r
    }
}

/// Joins the strings with the separator, in order.
pub fn join_strings(parts: &Vec<String>, sep: &str) -> (r: String)
    ensures
        r@ == join_with(str_views(parts@), sep@),
{
    let r = join_from(parts, sep, 0);
    proof {
        assert(parts@.skip(0) =~= parts@);
    }
    r
}

} // verus!
