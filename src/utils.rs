use vstd::prelude::*;
use vstd::string::StringExecFns;

use crate::identity::{principal_text_of, Identity, MAX_PRINCIPAL_LEN};

verus! {

/// The decimal digit `d`.
pub open spec fn digit_char(d: nat) -> char {
    seq!['0', '1', '2', '3', '4', '5', '6', '7', '8', '9'][d as int]
}

/// The decimal text of `n`, without sign or leading zeros.
pub open spec fn decimal_of(n: nat) -> Seq<char>
    decreases n,
{
    if n < 10 {
        seq![digit_char(n)]
    } else {
        decimal_of(n / 10).push(digit_char(n % 10))
    }
}

/// The address at which an asset is served, from the shard's address text.
pub open spec fn url_spec(in_prod: bool, canister_text: Seq<char>, asset_id: u128) -> Seq<char> {
    if in_prod {
        "https://"@ + canister_text + ".raw.ic0.app/asset/"@ + decimal_of(asset_id as nat)
    } else {
        "http://"@ + canister_text + ".localhost:8080/asset/"@ + decimal_of(asset_id as nat)
    }
}

/// The text that follows the last '/', or all of `s` when it has none.
pub open spec fn last_segment(s: Seq<char>) -> Seq<char>
    decreases s.len(),
{
    if s.len() == 0 {
        s
    } else if s.last() == '/' {
        seq![]
    } else {
        last_segment(s.drop_last()).push(s.last())
    }
}

/// The text before the first '?', or all of `s` when it has none.
pub open spec fn before_query(s: Seq<char>) -> Seq<char>
    decreases s.len(),
{
    if s.len() == 0 {
        s
    } else if s[0] == '?' {
        seq![]
    } else {
        seq![s[0]] + before_query(s.drop_first())
    }
}

/// `s` without leading and trailing white space.
pub uninterp spec fn trim_of(s: Seq<char>) -> Seq<char>;

pub open spec fn is_digit(c: char) -> bool {
    '0' <= c && c <= '9'
}

pub open spec fn all_digits(s: Seq<char>) -> bool {
    forall|i: int| 0 <= i < s.len() ==> is_digit(s[i])
}

/// The number that a string of decimal digits denotes.
pub open spec fn digits_value(s: Seq<char>) -> nat
    decreases s.len(),
{
    if s.len() == 0 {
        0
    } else {
        digits_value(s.drop_last()) * 10 + ((s.last() as u32) - ('0' as u32)) as nat
    }
}

/// The digits of an unsigned number, after an optional leading '+'.
pub open spec fn unsigned_digits(s: Seq<char>) -> Seq<char> {
    if s.len() > 0 && s[0] == '+' {
        s.drop_first()
    } else {
        s
    }
}

/// An unsigned 128-bit decimal: an optional '+', then at least one digit,
/// denoting a value that fits.
pub open spec fn parse_decimal(s: Seq<char>) -> Option<u128> {
    let d = unsigned_digits(s);
    if d.len() > 0 && all_digits(d) && digits_value(d) <= u128::MAX {
        Some(digits_value(d) as u128)
    } else {
        None
    }
}

/// The asset id at the end of a request path: the last segment, cut at the
/// query string, without surrounding white space.
pub open spec fn path_asset_id(url: Seq<char>) -> Option<u128> {
    parse_decimal(trim_of(before_query(last_segment(url))))
}

/// Relies on the decimal `Display` of `u128` (through `to_string`).
#[verifier::external_body]
fn decimal_text(n: u128) -> (r: String)
    ensures
        r@ == decimal_of(n as nat),
{
    n.to_string()
}

/// Relies on `str::trim`: the result depends on the characters alone.
#[verifier::external_body]
fn trim_text(s: &str) -> (r: String)
    ensures
        r@ == trim_of(s@),
{
    s.trim().to_string()
}

/// The address at which the asset with the given id is served by this shard.
pub fn url_generator(in_prod: bool, canister_id: &Identity, asset_id: u128) -> (r: String)
    requires
        canister_id@.len() <= MAX_PRINCIPAL_LEN,
    ensures
        r@ == url_spec(in_prod, principal_text_of(canister_id@), asset_id),
{
    let text = canister_id.to_text();
    let digits = decimal_text(asset_id);
    let mut url = if in_prod {
        String::from_str("https://")
    } else {
        String::from_str("http://")
    };
    url.append(text.as_str());
    if in_prod {
        url.append(".raw.ic0.app/asset/");
    } else {
        url.append(".localhost:8080/asset/");
    }
    url.append(digits.as_str());
    url
}

proof fn lemma_digits_value_grows(s: Seq<char>, i: int)
    requires
        0 <= i <= s.len(),
        all_digits(s),
    ensures
        digits_value(s.take(i)) <= digits_value(s),
    decreases s.len() - i,
{
    if i < s.len() {
        lemma_digits_value_grows(s, i + 1);
        assert(s.take(i + 1).drop_last() =~= s.take(i));
        assert(is_digit(s[i]));
    } else {
        assert(s.take(i) =~= s);
    }
}

/// Reads an unsigned 128-bit decimal, with an optional leading '+'.
pub fn parse_asset_id(text: &str) -> (r: Option<u128>)
    ensures
        r == parse_decimal(text@),
{
    let n = text.unicode_len();
    let ghost s = text@;
    let mut start: usize = 0;
    if n > 0 && text.get_char(0) == '+' {
        start = 1;
    }
    let ghost d = unsigned_digits(s);
    assert(d =~= s.skip(start as int));
    if start == n {
        assert(d.len() == 0);
        return None;
    }
    let mut i: usize = start;
    while i < n
        invariant
            start <= i <= n,
            n == s.len(),
            s == text@,
            d == s.skip(start as int),
            d == unsigned_digits(s),
            forall|k: int| start <= k < i ==> is_digit(s[k]),
        decreases n - i,
    {
        let c = text.get_char(i);
        if !('0' <= c && c <= '9') {
            assert(!is_digit(d[i - start]));
            return None;
        }
        i = i + 1;
    }
    assert(all_digits(d));
    let mut value: u128 = 0;
    let mut i: usize = start;
    while i < n
        invariant
            start <= i <= n,
            n == s.len(),
            s == text@,
            d == s.skip(start as int),
            d == unsigned_digits(s),
            all_digits(d),
            value as nat == digits_value(d.take(i - start)),
        decreases n - i,
    {
        let c = text.get_char(i);
        assert(d[i - start] == c);
        assert(is_digit(d[i - start]));
        let digit = (c as u32 - '0' as u32) as u128;
        assert(d.take(i - start + 1).drop_last() =~= d.take(i - start));
        assert(d.take(i - start + 1).last() == c);
        assert(digits_value(d.take(i - start + 1)) == value * 10 + digit);
        proof {
            lemma_digits_value_grows(d, i - start + 1);
        }
        match value.checked_mul(10) {
            None => {
                return None;
            },
            Some(tens) => match tens.checked_add(digit) {
                None => {
                    return None;
                },
                Some(next) => {
                    value = next;
                },
            },
        }
        i = i + 1;
    }
    assert(d.take(n - start) =~= d);
    Some(value)
}

/// Finds the asset id at the end of a request path such as `/asset/42?x=1`.
pub fn asset_id_extractor(url: &str) -> (r: Option<u128>)
    ensures
        r == path_asset_id(url@),
{
    let n = url.unicode_len();
    let ghost s = url@;
    let mut st: usize = n;
    assert(s.take(n as int) =~= s);
    while st > 0 && url.get_char(st - 1) != '/'
        invariant
            st <= n,
            n == s.len(),
            s == url@,
            last_segment(s) == last_segment(s.take(st as int)) + s.skip(st as int),
        decreases st,
    {
        assert(s.take(st as int).drop_last() =~= s.take(st - 1));
        assert(s.take(st - 1).push(s[st - 1]) + s.skip(st as int) =~= s.take(st - 1) + s.skip(
            st - 1,
        ));
        assert(last_segment(s.take(st - 1)).push(s[st - 1]) + s.skip(st as int) =~= last_segment(
            s.take(st - 1),
        ) + s.skip(st - 1));
        st = st - 1;
    }
    if st == 0 {
        assert(s.take(0) =~= seq![]);
    }
    assert(last_segment(s.take(st as int)) =~= seq![]);
    assert(last_segment(s) =~= s.skip(st as int));
    let mut j: usize = st;
    while j < n && url.get_char(j) != '?'
        invariant
            st <= j <= n,
            n == s.len(),
            s == url@,
            before_query(s.skip(st as int)) == s.subrange(st as int, j as int) + before_query(
                s.skip(j as int),
            ),
        decreases n - j,
    {
        assert(s.skip(j as int).drop_first() =~= s.skip(j + 1));
        assert(s.subrange(st as int, j as int) + (seq![s[j as int]] + before_query(s.skip(j + 1)))
            =~= s.subrange(st as int, j + 1) + before_query(s.skip(j + 1)));
        j = j + 1;
    }
    assert(before_query(s.skip(j as int)) =~= seq![]);
    assert(before_query(s.skip(st as int)) =~= s.subrange(st as int, j as int));
    let segment = url.substring_char(st, j);
    let trimmed = trim_text(segment);
    parse_asset_id(trimmed.as_str())
}

} // verus!
