//! Numeric text handling: a verified base-10 signed integer parser with the
//! same acceptance rule as `i64` parsing in std (optional sign, one or more
//! ASCII digits, value in range), verified decimal formatting, and Unicode
//! whitespace splitting.

use vstd::prelude::*;

verus! {

pub open spec fn is_digit(c: char) -> bool {
    '0' as u32 <= c as u32 && c as u32 <= '9' as u32
}

pub open spec fn digit_val(c: char) -> int {
    c as u32 - '0' as u32
}

pub open spec fn all_digits(s: Seq<char>) -> bool {
    forall|i: int| 0 <= i < s.len() ==> is_digit(#[trigger] s[i])
}

/// The value of a run of digits, most significant first.
pub open spec fn digits_val(s: Seq<char>) -> int
    decreases s.len(),
{
    if s.len() == 0 {
        0
    } else {
        digits_val(s.drop_last()) * 10 + digit_val(s.last())
    }
}

/// The digit part of an integer literal: everything after one optional
/// leading sign.
pub open spec fn int_digits(s: Seq<char>) -> Seq<char> {
    if s.len() > 0 && (s[0] == '+' || s[0] == '-') {
        s.drop_first()
    } else {
        s
    }
}

pub open spec fn int_value(s: Seq<char>) -> int {
    if s.len() > 0 && s[0] == '-' {
        -digits_val(int_digits(s))
    } else {
        digits_val(int_digits(s))
    }
}

/// What parsing `s` as a base-10 `i64` yields: the signed digit value where
/// `s` is an optional sign followed by one or more digits and the value is
/// representable, and nothing otherwise.
pub open spec fn spec_parse_i64(s: Seq<char>) -> Option<i64> {
    if int_digits(s).len() > 0 && all_digits(int_digits(s)) && i64::MIN <= int_value(s)
        && int_value(s) <= i64::MAX {
        Some(int_value(s) as i64)
    } else {
        None
    }
}

proof fn lemma_digits_val_nonneg(s: Seq<char>)
    requires
        all_digits(s),
    ensures
        digits_val(s) >= 0,
    decreases s.len(),
{
    if s.len() > 0 {
        assert(all_digits(s.drop_last()));
        lemma_digits_val_nonneg(s.drop_last());
    }
}

/// A digit run's value only grows as more digits follow.
proof fn lemma_digits_val_prefix(s: Seq<char>, j: int)
    requires
        all_digits(s),
        0 <= j <= s.len(),
    ensures
        digits_val(s.take(j)) <= digits_val(s),
    decreases s.len() - j,
{
    assert(all_digits(s.take(j)));
    if j == s.len() {
        assert(s.take(j) =~= s);
    } else {
        assert(s.take(j + 1).drop_last() =~= s.take(j));
        lemma_digits_val_nonneg(s.take(j));
        assert(digits_val(s.take(j + 1)) == digits_val(s.take(j)) * 10 + digit_val(s.take(j + 1).last()));
        lemma_digits_val_prefix(s, j + 1);
    }
}

fn digit_of(c: char) -> (r: Option<u8>)
    ensures
        r is Some <==> is_digit(c),
        r is Some ==> r->0 == digit_val(c),
{
    let u = c as u32;
    if 48 <= u && u <= 57 {
        Some((u - 48) as u8)
    } else {
        None
    }
}

/// Parse a base-10 signed integer, accepting exactly what `spec_parse_i64`
/// describes.
pub fn parse_i64(v: &Vec<char>) -> (r: Option<i64>)
    ensures
        r == spec_parse_i64(v@),
{
    let ghost s = v@;
    let mut i: usize = 0;
    let mut neg: bool = false;
    if v.len() > 0 && (v[0] == '+' || v[0] == '-') {
        neg = v[0] == '-';
        i = 1;
    }
    let ghost ds = int_digits(s);
    proof {
        assert(ds =~= s.skip(i as int));
    }
    if i == v.len() {
        return None;
    }
    let limit: i128 = if neg { 9223372036854775808i128 } else { 9223372036854775807i128 };
    let mut acc: i128 = 0;
    let mut j: usize = i;
    while j < v.len()
        invariant
            i <= j <= v@.len(),
            s == v@,
            ds == int_digits(s),
            ds =~= s.skip(i as int),
            limit == if neg { 9223372036854775808i128 } else { 9223372036854775807i128 },
            neg == (s.len() > 0 && s[0] == '-'),
            0 <= acc <= limit,
            all_digits(ds.take(j - i)),
            acc == digits_val(ds.take(j - i)),
        decreases v@.len() - j,
    {
        match digit_of(v[j]) {
            Some(d) => {
                proof {
                    assert(ds[j - i] == s[j as int]);
                    assert(ds.take(j - i + 1).drop_last() =~= ds.take(j - i));
                }
                acc = acc * 10 + (d as i128);
                if acc > limit {
                    proof {
                        if all_digits(ds) {
                            lemma_digits_val_prefix(ds, j - i + 1);
                            assert(digits_val(ds) >= acc > limit);
                        }
                    }
                    return None;
                }
            },
            None => {
                proof {
                    assert(ds[j - i] == s[j as int]);
                    assert(!is_digit(ds[j - i]));
                }
                return None;
            },
        }
        j += 1;
    }
    proof {
        assert(ds.take(v@.len() - i) =~= ds);
        assert(acc == digits_val(ds));
        assert(ds.len() > 0);
    }
    if neg {
        Some((-acc) as i64)
    } else {
        Some(acc as i64)
    }
}

pub open spec fn dec_digit(d: int) -> char {
    if d == 0 { '0' }
    else if d == 1 { '1' }
    else if d == 2 { '2' }
    else if d == 3 { '3' }
    else if d == 4 { '4' }
    else if d == 5 { '5' }
    else if d == 6 { '6' }
    else if d == 7 { '7' }
    else if d == 8 { '8' }
    else { '9' }
}

/// The decimal text of a nonnegative integer, no leading zeros.
pub open spec fn dec_nat(n: int) -> Seq<char>
    recommends
        n >= 0,
    decreases n,
{
    if n < 10 {
        seq![dec_digit(n)]
    } else {
        dec_nat(n / 10).push(dec_digit(n % 10))
    }
}

/// The decimal text of a signed integer.
pub open spec fn dec_int(n: int) -> Seq<char> {
    if n < 0 {
        seq!['-'] + dec_nat(-n)
    } else {
        dec_nat(n)
    }
}

fn dec_digit_of(d: u64) -> (c: char)
    requires
        d < 10,
    ensures
        c == dec_digit(d as int),
{
    match d {
        0 => '0',
        1 => '1',
        2 => '2',
        3 => '3',
        4 => '4',
        5 => '5',
        6 => '6',
        7 => '7',
        8 => '8',
        _ => '9',
    }
}

/// Format a nonnegative integer in decimal.
pub fn u64_to_chars(n: u64) -> (r: Vec<char>)
    ensures
        r@ == dec_nat(n as int),
{
    let mut rev: Vec<char> = Vec::new();
    let mut m: u64 = n;
    while m >= 10
        invariant
            dec_nat(n as int) == dec_nat(m as int) + rev@.reverse(),
        decreases m,
    {
        let ghost rev0 = rev@;
        rev.push(dec_digit_of(m % 10));
        proof {
            assert(rev@.reverse() =~= seq![dec_digit((m % 10) as int)] + rev0.reverse());
            assert(dec_nat(m as int) =~= dec_nat((m / 10) as int) + seq![dec_digit((m % 10) as int)]);
            assert(dec_nat((m / 10) as int) + rev@.reverse() =~= dec_nat(m as int) + rev0.reverse());
        }
        m = m / 10;
    }
    let mut out: Vec<char> = Vec::new();
    out.push(dec_digit_of(m));
    proof {
        assert(out@ =~= dec_nat(m as int));
    }
    let mut k: usize = rev.len();
    while k > 0
        invariant
            0 <= k <= rev@.len(),
            dec_nat(n as int) == dec_nat(m as int) + rev@.reverse(),
            out@ == dec_nat(m as int) + rev@.reverse().take(rev@.len() - k),
        decreases k,
    {
        k -= 1;
        out.push(rev[k]);
        proof {
            assert(rev@.reverse()[rev@.len() - k - 1] == rev@[k as int]);
            assert(rev@.reverse().take(rev@.len() - k) =~= rev@.reverse().take(rev@.len() - (k + 1)).push(rev@[k as int]));
        }
    }
    proof {
        assert(rev@.reverse().take(rev@.len() as int) =~= rev@.reverse());
        assert(out@ =~= dec_nat(n as int));
    }
    out
}

/// Format a signed integer in decimal.
pub fn i64_to_chars(n: i64) -> (r: Vec<char>)
    ensures
        r@ == dec_int(n as int),
{
    if n >= 0 {
        u64_to_chars(n as u64)
    } else {
        let mag: u64 = (-(n as i128)) as u64;
        let mut out: Vec<char> = Vec::new();
        out.push('-');
        let digits = u64_to_chars(mag);
        crate::text::append_chars(&mut out, &digits);
        proof {
            assert(out@ =~= dec_int(n as int));
        }
        out
    }
}

/// Whether a character counts as whitespace for token splitting; what
/// `char::is_whitespace` answers.
pub uninterp spec fn is_unicode_ws(c: char) -> bool;

/// Relies on `char::is_whitespace`: a function of the character alone,
/// true on the Unicode whitespace characters (among them space, tab,
/// carriage return and newline) and false on everything else.
#[verifier::external_body]
pub fn is_ws(c: char) -> (r: bool)
    ensures
        r == is_unicode_ws(c),
{
    c.is_whitespace()
}

/// One splitting step: whitespace closes the pending token, anything else
/// extends it.
pub open spec fn ws_step(st: (Seq<Seq<char>>, Seq<char>), c: char) -> (Seq<Seq<char>>, Seq<char>) {
    if is_unicode_ws(c) {
        if st.1.len() > 0 {
            (st.0.push(st.1), Seq::empty())
        } else {
            st
        }
    } else {
        (st.0, st.1.push(c))
    }
}

pub open spec fn ws_run(st: (Seq<Seq<char>>, Seq<char>), s: Seq<char>) -> (Seq<Seq<char>>, Seq<char>)
    decreases s.len(),
{
    if s.len() == 0 {
        st
    } else {
        ws_run(ws_step(st, s.first()), s.drop_first())
    }
}

/// The maximal runs of non-whitespace characters of `s`, in order.
pub open spec fn split_ws(s: Seq<char>) -> Seq<Seq<char>> {
    let end = ws_run((Seq::empty(), Seq::empty()), s);
    if end.1.len() > 0 {
        end.0.push(end.1)
    } else {
        end.0
    }
}

/// Split a character sequence on Unicode whitespace.
pub fn split_ws_chars(v: &Vec<char>) -> (toks: Vec<Vec<char>>)
    ensures
        crate::segmenter::frag_views(toks@) == split_ws(v@),
{
    let ghost s = v@;
    let mut out: Vec<Vec<char>> = Vec::new();
    let mut cur: Vec<char> = Vec::new();
    proof {
        assert(s.skip(0) =~= s);
        assert(crate::segmenter::frag_views(out@) =~= Seq::<Seq<char>>::empty());
    }
    let mut i: usize = 0;
    while i < v.len()
        invariant
            0 <= i <= v@.len(),
            s == v@,
            ws_run((Seq::empty(), Seq::empty()), s) == ws_run(
                (crate::segmenter::frag_views(out@), cur@),
                s.skip(i as int),
            ),
        decreases v@.len() - i,
    {
        let ghost st_old = (crate::segmenter::frag_views(out@), cur@);
        proof {
            assert(s.skip(i as int).first() == s[i as int]);
            assert(s.skip(i as int).drop_first() =~= s.skip(i + 1));
        }
        let c = v[i];
        if is_ws(c) {
            if cur.len() > 0 {
                out.push(cur);
                cur = Vec::new();
                proof {
                    assert(crate::segmenter::frag_views(out@) =~= st_old.0.push(st_old.1));
                }
            }
        } else {
            cur.push(c);
        }
        proof {
            assert((crate::segmenter::frag_views(out@), cur@) == ws_step(st_old, s[i as int]));
        }
        i += 1;
    }
    proof {
        assert(s.skip(s.len() as int).len() == 0);
    }
    if cur.len() > 0 {
        out.push(cur);
        proof {
            assert(crate::segmenter::frag_views(out@) =~= split_ws(s));
        }
    }
    out
}

} // verus!
