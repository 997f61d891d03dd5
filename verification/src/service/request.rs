//! Utilities for processing HTTP requests.
use vstd::prelude::*;

use crate::service::error::{decimal, digit_char};
use crate::store::SequenceId;

verus! {

/// The name/value pairs of a URL-encoded query string, in order, or
/// `None` when it cannot be decoded.
pub uninterp spec fn urlencoded_pairs(query: Seq<char>) -> Option<Seq<(Seq<char>, Seq<char>)>>;

/// The models of name/value pairs.
pub open spec fn pairs_view(pairs: Seq<(String, String)>) -> Seq<(Seq<char>, Seq<char>)> {
    pairs.map_values(|p: (String, String)| (p.0@, p.1@))
}

/// Calls `serde_urlencoded::from_str` to decode `query` into its
/// name/value pairs, in order; the result (named `urlencoded_pairs`) is
/// `None` where the crate reports an error.
#[verifier::external_body]
fn decode_urlencoded(query: &str) -> (r: Option<Vec<(String, String)>>)
    ensures
        match r {
            Some(v) => urlencoded_pairs(query@) == Some(pairs_view(v@)),
            None => urlencoded_pairs(query@) is None,
        },
{
    serde_urlencoded::from_str::<Vec<(String, String)>>(query).ok()
}

/// The query parameters of a request URL: none when there is no query
/// string, its decoded pairs otherwise, and `None` when the query
/// string cannot be decoded.
pub fn query_params(query: Option<&str>) -> (r: Option<Vec<(String, String)>>)
    ensures
        match query {
            None => r matches Some(v) && v@.len() == 0,
            Some(q) => match urlencoded_pairs(q@) {
                Some(p) => r matches Some(v) && pairs_view(v@) == p,
                None => r is None,
            },
        },
{
    match query {
        Some(q) => decode_urlencoded(q),
        None => Some(Vec::new()),
    }
}

/// The value of the last pair named `name`, as a map built from the
/// pairs in order would hold it.
pub open spec fn param_value(pairs: Seq<(Seq<char>, Seq<char>)>, name: Seq<char>) -> Option<Seq<char>>
    decreases pairs.len(),
{
    if pairs.len() == 0 {
        None
    } else if pairs.last().0 == name {
        Some(pairs.last().1)
    } else {
        param_value(pairs.drop_last(), name)
    }
}

/// The value of parameter `name`: that of its last occurrence.
pub fn query_param(params: &Vec<(String, String)>, name: &str) -> (r: Option<String>)
    ensures
        match param_value(pairs_view(params@), name@) {
            Some(v) => r matches Some(s) && s@ == v,
            None => r is None,
        },
{
    let key = String::from_str(name);
    let ghost all = pairs_view(params@);
    let mut i: usize = params.len();
    assert(all.take(params.len() as int) =~= all);
    while i > 0
        invariant
            0 <= i <= params.len(),
            all == pairs_view(params@),
            key@ == name@,
            param_value(all, name@) == param_value(all.take(i as int), name@),
        decreases i,
    {
        let ghost prefix = all.take(i as int);
        assert(prefix.drop_last() =~= all.take(i - 1));
        assert(prefix.last() == (params@[i - 1].0@, params@[i - 1].1@));
        if params[i - 1].0 == key {
            assert(prefix.last().0 == name@);
            return Some(params[i - 1].1.clone());
        }
        assert(param_value(prefix, name@) == param_value(prefix.drop_last(), name@));
        i = i - 1;
    }
    None
}

/// The request asks for the editor: parameter "action" is "edit".
pub fn is_edit_action(params: &Vec<(String, String)>) -> (r: bool)
    ensures
        r == (param_value(pairs_view(params@), "action"@) == Some("edit"@)),
{
    match query_param(params, "action") {
        Some(value) => value == String::from_str("edit"),
        None => false,
    }
}

/// The decimal value of ASCII digits.
pub open spec fn digits_value(s: Seq<char>) -> int
    decreases s.len(),
{
    if s.len() == 0 {
        0
    } else {
        digits_value(s.drop_last()) * 10 + (s.last() as int - 48)
    }
}

pub open spec fn is_digit(c: char) -> bool {
    48 <= (c as int) <= 57
}

/// `s` without a leading '+'.
pub open spec fn unsigned_digits(s: Seq<char>) -> Seq<char> {
    if s.len() > 0 && s[0] == '+' {
        s.drop_first()
    } else {
        s
    }
}

/// A `u64` written as an optional '+' followed by decimal digits, as
/// `str::parse::<u64>` reads it; `None` for anything else or a value
/// too large.
pub open spec fn parse_u64_spec(s: Seq<char>) -> Option<u64> {
    let d = unsigned_digits(s);
    if d.len() > 0 && (forall|i: int| 0 <= i < d.len() ==> is_digit(#[trigger] d[i])) && digits_value(d)
        <= u64::MAX {
        Some(digits_value(d) as u64)
    } else {
        None
    }
}

/// Reads a `u64` written as an optional '+' followed by decimal digits.
pub fn parse_u64(s: &str) -> (r: Option<u64>)
    ensures
        r == parse_u64_spec(s@),
{
    let n = s.unicode_len();
    let mut i: usize = 0;
    if n > 0 && s.get_char(0) == '+' {
        i = 1;
    }
    let ghost d = unsigned_digits(s@);
    assert(d =~= s@.skip(i as int));
    if i >= n {
        return None;
    }
    let start = i;
    let mut value: u64 = 0;
    assert(d.take(0) =~= Seq::<char>::empty());
    while i < n
        invariant
            start <= i <= n,
            n == s@.len(),
            d == s@.skip(start as int),
            d == unsigned_digits(s@),
            d.len() == n - start,
            value == digits_value(d.take(i - start)),
            forall|j: int| 0 <= j < i - start ==> is_digit(#[trigger] d[j]),
        decreases n - i,
    {
        let c = s.get_char(i);
        let v = c as u32;
        assert(v == c as int);
        let ghost k = (i - start) as int;
        assert(d[k] == c);
        if v < 48 || v > 57 {
            assert(!is_digit(d[k]));
            return None;
        }
        let digit = (v - 48) as u64;
        assert(d.take(k + 1).drop_last() =~= d.take(k));
        assert(d.take(k + 1).last() == c);
        assert(digits_value(d.take(k + 1)) == value * 10 + digit);
        if value > (u64::MAX - digit) / 10 {
            proof {
                assert(value * 10 + digit > u64::MAX) by (nonlinear_arith)
                    requires
                        value > (u64::MAX - digit) / 10,
                        digit <= 9,
                ;
                if forall|j: int| 0 <= j < d.len() ==> is_digit(#[trigger] d[j]) {
                    lemma_digits_value_mono(d, k + 1, d.len() as int);
                    assert(d.take(d.len() as int) =~= d);
                }
            }
            return None;
        }
        assert(value * 10 + digit <= u64::MAX) by (nonlinear_arith)
            requires
                value <= (u64::MAX - digit) / 10,
                digit <= 9,
        ;
        value = value * 10 + digit;
        i = i + 1;
    }
    assert(d.take(n - start) =~= d);
    Some(value)
}

/// Adding digits never makes the value smaller.
proof fn lemma_digits_value_mono(d: Seq<char>, k: int, m: int)
    requires
        0 <= k <= m <= d.len(),
        forall|j: int| 0 <= j < m ==> is_digit(#[trigger] d[j]),
    ensures
        digits_value(d.take(m)) >= digits_value(d.take(k)),
    decreases m - k,
{
    if m > k {
        assert(d.take(m).drop_last() =~= d.take(m - 1));
        lemma_digits_value_mono(d, k, m - 1);
        assert(is_digit(d[m - 1]));
        assert(d.take(m).last() == d[m - 1]);
        assert forall|j: int| 0 <= j < d.take(m - 1).len() implies is_digit(#[trigger] d.take(m - 1)[j]) by {
            assert(d.take(m - 1)[j] == d[j]);
        }
        lemma_digits_value_nonneg(d.take(m - 1));
    }
}

proof fn lemma_digits_value_nonneg(s: Seq<char>)
    requires
        forall|j: int| 0 <= j < s.len() ==> is_digit(#[trigger] s[j]),
    ensures
        digits_value(s) >= 0,
    decreases s.len(),
{
    if s.len() > 0 {
        assert forall|j: int| 0 <= j < s.drop_last().len() implies is_digit(#[trigger] s.drop_last()[j]) by {
            assert(s.drop_last()[j] == s[j]);
        }
        lemma_digits_value_nonneg(s.drop_last());
        assert(is_digit(s[s.len() - 1]));
    }
}

/// The sequence id a client asks to read from: parameter "seq" read as
/// a number, 0 when it is missing or not a number.
pub fn since_param(params: &Vec<(String, String)>) -> (r: SequenceId)
    ensures
        r == match param_value(pairs_view(params@), "seq"@) {
            Some(v) => match parse_u64_spec(v) {
                Some(n) => n,
                None => 0,
            },
            None => 0,
        },
{
    match query_param(params, "seq") {
        Some(value) => match parse_u64(value.as_str()) {
            Some(n) => n,
            None => 0,
        },
        None => 0,
    }
}

/// The document path of a request path: the path without its leading
/// character (the request path starts with an ASCII character, as an
/// HTTP path starts with '/').
pub fn document_path(uri_path: &str) -> (r: String)
    requires
        uri_path@.len() > 0,
        (uri_path@[0] as u32) < 128,
    ensures
        r@ == uri_path@.drop_first(),
{
    let n = uri_path.unicode_len();
    let rest = uri_path.substring_char(1, n);
    assert(rest@ =~= uri_path@.drop_first());
    String::from_str(rest)
}

/// A parameter is found exactly when some pair carries its name, and its
/// value is that of the last such pair: no later pair has the name.
pub proof fn lemma_param_value_last(pairs: Seq<(Seq<char>, Seq<char>)>, name: Seq<char>)
    ensures
        param_value(pairs, name) is None <==> forall|i: int| 0 <= i < pairs.len() ==> (#[trigger] pairs[i]).0 != name,
        param_value(pairs, name) matches Some(v) ==> exists|i: int|
            0 <= i < pairs.len() && #[trigger] pairs[i] == (name, v) && forall|j: int|
                i < j < pairs.len() ==> (#[trigger] pairs[j]).0 != name,
    decreases pairs.len(),
{
    if pairs.len() > 0 {
        let r = pairs.drop_last();
        lemma_param_value_last(r, name);
        let n = pairs.len() - 1;
        assert(pairs.last() == pairs[n]);
        assert forall|i: int| 0 <= i < r.len() implies r[i] == pairs[i] by {}
        if pairs.last().0 == name {
            assert(pairs[n] == (name, pairs.last().1));
        } else if param_value(r, name) is Some {
            let v = param_value(r, name)->Some_0;
            let i = choose|i: int|
                0 <= i < r.len() && #[trigger] r[i] == (name, v) && forall|j: int|
                    i < j < r.len() ==> (#[trigger] r[j]).0 != name;
            assert(pairs[i] == (name, v));
            assert forall|j: int| i < j < pairs.len() implies (#[trigger] pairs[j]).0 != name by {
                if j < n {
                    assert(r[j] == pairs[j]);
                }
            }
        } else {
            assert forall|i: int| 0 <= i < pairs.len() implies (#[trigger] pairs[i]).0 != name by {
                if i < n {
                    assert(r[i] == pairs[i]);
                }
            }
        }
    }
}

/// The value of decimal digits written one after the other: the digits of
/// `s` followed by those of `t` are worth `s` shifted left by the length of
/// `t`, plus `t`.
pub proof fn lemma_digits_concat(s: Seq<char>, t: Seq<char>)
    ensures
        digits_value(s + t) == digits_value(s) * vstd::arithmetic::power::pow(10, t.len()) + digits_value(t),
    decreases t.len(),
{
    vstd::arithmetic::power::lemma_pow0(10);
    if t.len() == 0 {
        assert(s + t =~= s);
    } else {
        let tl = t.drop_last();
        lemma_digits_concat(s, tl);
        assert((s + t).drop_last() =~= s + tl);
        assert((s + t).last() == t.last());
        vstd::arithmetic::power::lemma_pow_adds(10, tl.len(), 1);
        vstd::arithmetic::power::lemma_pow1(10);
        let p = vstd::arithmetic::power::pow(10, tl.len());
        assert(digits_value(s) * (p * 10) == (digits_value(s) * p) * 10) by (nonlinear_arith);
        assert((digits_value(s) * p + digits_value(tl)) * 10 == digits_value(s) * p * 10 + digits_value(tl) * 10)
            by (nonlinear_arith);
    }
}

/// A single decimal digit is worth its own value.
pub proof fn lemma_digit_value(c: char)
    ensures
        digits_value(seq![c]) == c as int - 48,
{
    assert(seq![c].drop_last() =~= Seq::<char>::empty());
    assert(seq![c].last() == c);
    assert(digits_value(Seq::<char>::empty()) == 0);
}

/// Reading a `u64`: a leading '+' changes nothing, and nothing is read
/// from an empty string, a lone '+', or a string holding a character other
/// than a digit after its optional '+'; what is read is the decimal value
/// of the digits.
pub proof fn lemma_parse_u64_shape(s: Seq<char>)
    ensures
        parse_u64_spec(seq!['+'] + s) == (if s.len() > 0 && s[0] == '+' {
            None
        } else {
            parse_u64_spec(s)
        }),
        s.len() == 0 ==> parse_u64_spec(s) is None,
        (exists|i: int| 0 <= i < s.len() && s[i] != '+' && !is_digit(#[trigger] s[i])) ==> parse_u64_spec(s) is None,
        parse_u64_spec(s) matches Some(n) ==> n == digits_value(unsigned_digits(s)),
{
    let p = seq!['+'] + s;
    let ds = unsigned_digits(s);
    if ds.len() > 0 && (forall|i: int| 0 <= i < ds.len() ==> is_digit(#[trigger] ds[i])) {
        lemma_digits_value_nonneg(ds);
    }
    assert(p[0] == '+');
    assert(p.drop_first() =~= s);
    if s.len() > 0 && s[0] == '+' {
        assert(unsigned_digits(p) == s);
        assert(!is_digit(s[0]));
    }
    if exists|i: int| 0 <= i < s.len() && s[i] != '+' && !is_digit(#[trigger] s[i]) {
        let i = choose|i: int| 0 <= i < s.len() && s[i] != '+' && !is_digit(#[trigger] s[i]);
        let d = unsigned_digits(s);
        if s.len() > 0 && s[0] == '+' {
            assert(d[i - 1] == s[i]);
        } else {
            assert(d[i] == s[i]);
        }
    }
}

/// A number written by `decimal` is made of digits, starts with a
/// nonzero digit unless it is zero, and reads back as the number.
pub proof fn lemma_decimal_reads_back(n: nat)
    ensures
        forall|i: int| 0 <= i < decimal(n).len() ==> is_digit(#[trigger] decimal(n)[i]),
        n > 0 ==> decimal(n)[0] != '0',
        digits_value(decimal(n)) == n,
        n <= u64::MAX ==> parse_u64_spec(decimal(n)) == Some(n as u64),
    decreases n,
{
    let c = digit_char(n % 10);
    assert(c as int == n % 10 + 48);
    if n < 10 {
        lemma_digit_value(c);
        assert(decimal(n) == seq![c]);
    } else {
        lemma_decimal_reads_back(n / 10);
        let p = decimal(n / 10);
        assert(decimal(n) == p.push(c));
        assert(p.push(c).drop_last() =~= p);
        assert(p.push(c).last() == c);
        assert forall|i: int| 0 <= i < decimal(n).len() implies is_digit(#[trigger] decimal(n)[i]) by {
            if i < p.len() {
                assert(decimal(n)[i] == p[i]);
            }
        }
        assert(decimal(n)[0] == p[0]);
    }
    let d = decimal(n);
    assert(d.len() > 0);
    if d[0] == '+' {
        assert(is_digit(d[0]));
    }
    assert(unsigned_digits(d) == d);
}

} // verus!
