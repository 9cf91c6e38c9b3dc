//! What holds of the default policy and of every `Retry-After`.
use crate::duration::nanos;
use crate::error::TransportError;
use crate::outcome::{ascii_text, content, fields, is_visible, Outcome};
use crate::policy::{
    preview_bytes, retry_nanos, retry_seconds, status_decision, Decision, HttpStatusError,
};
use crate::status::status_text;
use crate::text::{decimal_digits, digits_value, is_blank, is_digit, parsed_u64, trimmed};
use http::HeaderMap;
use vstd::prelude::*;

verus! {

/// No `Retry-After` stalls the arm for longer than the policy allows.
pub proof fn law_retry_after_is_bounded(headers: HeaderMap, max: nat)
    ensures
        retry_nanos(headers, max) matches Some(n) ==> n <= max,
{
}

/// Trimming keeps every character that is no blank.
proof fn lemma_trimmed_keeps(s: Seq<char>, i: int) -> (j: int)
    requires
        0 <= i < s.len(),
        !is_blank(s[i]),
    ensures
        0 <= j < trimmed(s).len(),
        trimmed(s)[j] == s[i],
    decreases s.len(),
{
    if is_blank(s.first()) {
        assert(s.drop_first()[i - 1] == s[i]);
        lemma_trimmed_keeps(s.drop_first(), i - 1)
    } else if is_blank(s.last()) {
        assert(s.drop_last()[i] == s[i]);
        lemma_trimmed_keeps(s.drop_last(), i)
    } else {
        i
    }
}

/// A value with anything in it but digits, blanks and plus signs, such as an
/// HTTP date, counts as absent.
pub proof fn law_dates_count_as_absent(value: Seq<u8>, i: int)
    requires
        0 <= i < value.len(),
        !is_digit(value[i] as char),
        !is_blank(value[i] as char),
        value[i] as char != '+',
    ensures
        retry_seconds(value) is None,
{
    let s = ascii_text(value);
    assert(s[i] == value[i] as char);
    let j = lemma_trimmed_keeps(s, i);
    let t = trimmed(s);
    if t[0] == '+' {
        assert(t.drop_first()[j - 1] == t[j]);
        assert(!is_digit(t.drop_first()[j - 1]));
    } else {
        assert(!is_digit(t[j]));
    }
}

proof fn lemma_decimal_digits(n: nat)
    ensures
        decimal_digits(n).len() > 0,
        forall|i: int| 0 <= i < decimal_digits(n).len() ==> is_digit(#[trigger] decimal_digits(n)[i]),
        digits_value(decimal_digits(n)) == n,
    decreases n,
{
    reveal_with_fuel(digits_value, 2);
    let d = decimal_digits(n);
    if n < 10 {
        assert(d.drop_last() =~= Seq::<char>::empty());
    } else {
        lemma_decimal_digits(n / 10);
        assert(d.drop_last() =~= decimal_digits(n / 10));
        assert(forall|i: int| 0 <= i < d.len() - 1 ==> d[i] == decimal_digits(n / 10)[i]);
    }
}

/// Text without blanks at either end is what it is when trimmed.
proof fn lemma_trimmed_digits(s: Seq<char>)
    requires
        s.len() > 0,
        forall|i: int| 0 <= i < s.len() ==> is_digit(#[trigger] s[i]),
    ensures
        trimmed(s) == s,
{
    assert(is_digit(s[0]) && is_digit(s[s.len() - 1]));
}

/// A number of seconds written in decimal is read as that number.
pub proof fn law_seconds_read_back(value: Seq<u8>, secs: u64)
    requires
        ascii_text(value) == decimal_digits(secs as nat),
    ensures
        retry_seconds(value) == Some(secs),
{
    let d = decimal_digits(secs as nat);
    lemma_decimal_digits(secs as nat);
    lemma_trimmed_digits(d);
    assert(is_digit(d[0]));
    assert forall|i: int| 0 <= i < value.len() implies is_visible(#[trigger] value[i]) by {
        assert(ascii_text(value)[i] == value[i] as char);
        assert(is_digit(d[i]));
    }
}

/// What the default policy decides.
///
/// * 2xx: accept.
/// * 408, 429, 500, 502, 503, 504: retry, after the pause that the response
///   asks for if it asks for one.
/// * Any other status: fail with that status and that body.
/// * Timeout, connect or body failure: retry with backoff.
/// * Any other failure: accept, which hands it back.
pub proof fn law_default_policy_table(
    max: nat,
    result: Result<Outcome, TransportError>,
    d: Decision<HttpStatusError>,
)
    requires
        status_decision(max, result, d),
    ensures
        match result {
            Ok(o) => {
                let code = o.status@;
                let again = code == 408 || code == 429 || code == 500 || code == 502 || code == 503
                    || code == 504;
                &&& d is Accept <==> 200 <= code <= 299
                &&& d is Retry <==> again
                &&& d matches Decision::Fail(e) ==> e.status == o.status && content(e.body)
                    == content(o.body)
                &&& d matches Decision::Retry { after } ==> match retry_nanos(o.headers, max) {
                    Some(n) => after is Some && nanos(after->0) == n,
                    None => after is None,
                }
            },
            Err(e) => {
                let again = e@.kind is Timeout || e@.kind is Connect || e@.kind is Body;
                &&& d is Retry <==> again
                &&& d is Accept <==> !again
                &&& d matches Decision::Retry { after } ==> after is None
            },
        },
{
}

/// A `Retry-After` of so many seconds pauses for exactly that long, or for as
/// long as the policy allows if that is less.
pub proof fn law_retry_after_is_honoured(headers: HeaderMap, max: nat, secs: u64)
    requires
        fields(headers).contains_key("retry-after"@),
        ascii_text(fields(headers)["retry-after"@][0]) == decimal_digits(secs as nat),
    ensures
        secs * 1_000_000_000 <= max ==> retry_nanos(headers, max) == Some(
            (secs * 1_000_000_000) as nat,
        ),
        secs * 1_000_000_000 > max ==> retry_nanos(headers, max) == Some(max),
{
    law_seconds_read_back(fields(headers)["retry-after"@][0], secs);
}

/// Without a `Retry-After` that is a number of seconds there is no pause, and
/// with one there is.
pub proof fn law_only_retry_after_pauses(headers: HeaderMap, max: nat)
    ensures
        retry_nanos(headers, max) is Some <==> fields(headers).contains_key("retry-after"@)
            && retry_seconds(fields(headers)["retry-after"@][0]) is Some,
{
}

/// More seconds than fit into 64 bits count as absent.
pub proof fn law_too_many_seconds_count_as_absent(value: Seq<u8>, n: nat)
    requires
        ascii_text(value) == decimal_digits(n),
        n > 0xffff_ffff_ffff_ffff,
    ensures
        retry_seconds(value) is None,
{
    let d = decimal_digits(n);
    lemma_decimal_digits(n);
    lemma_trimmed_digits(d);
    assert(is_digit(d[0]));
}

/// Blanks around a value make no difference.
proof fn lemma_trimmed_blanks(s: Seq<char>, c: char)
    requires
        c == ' ' || c == '\t',
    ensures
        trimmed(seq![c] + s) == trimmed(s),
        trimmed(s.push(c)) == trimmed(s),
    decreases s.len(),
{
    assert((seq![c] + s).drop_first() =~= s);
    let t = s.push(c);
    if s.len() > 0 && is_blank(s.first()) {
        assert(t.drop_first() =~= s.drop_first().push(c));
        assert(t.first() == s.first());
        lemma_trimmed_blanks(s.drop_first(), c);
    } else if s.len() > 0 {
        assert(t.first() == s.first());
        assert(t.drop_last() =~= s);
    } else {
        assert(t.drop_first() =~= s);
    }
}

/// A space or a tab before or after a value makes no difference to it.
pub proof fn law_blanks_make_no_difference(value: Seq<u8>, b: u8)
    requires
        b == 32 || b == 9,
    ensures
        retry_seconds(seq![b] + value) == retry_seconds(value),
        retry_seconds(value.push(b)) == retry_seconds(value),
{
    let c = b as char;
    let s = ascii_text(value);
    let front = seq![b] + value;
    let back = value.push(b);
    assert(ascii_text(front) =~= seq![c] + s);
    assert(ascii_text(back) =~= s.push(c));
    lemma_trimmed_blanks(s, c);
    let all = |v: Seq<u8>| forall|i: int| 0 <= i < v.len() ==> is_visible(#[trigger] v[i]);
    if all(value) {
        assert forall|i: int| 0 <= i < front.len() implies is_visible(#[trigger] front[i]) by {
            if i > 0 {
                assert(front[i] == value[i - 1]);
            }
        }
    } else {
        let i = choose|i: int| 0 <= i < value.len() && !is_visible(#[trigger] value[i]);
        assert(front[i + 1] == value[i]);
        assert(back[i] == value[i]);
    }
}

/// A plus sign before a number makes no difference to it.
pub proof fn law_plus_sign_makes_no_difference(n: nat)
    ensures
        parsed_u64(seq!['+'] + decimal_digits(n)) == parsed_u64(decimal_digits(n)),
{
    let d = decimal_digits(n);
    lemma_decimal_digits(n);
    assert((seq!['+'] + d).drop_first() =~= d);
    assert(is_digit(d[0]));
}

/// Decimal notation: one more digit behind a number is ten times that number
/// plus the digit, and a number below ten is its own digit.
pub proof fn law_decimal_notation(n: nat, d: nat)
    requires
        d < 10,
    ensures
        decimal_digits(d) == seq![(48 + d) as char],
        n > 0 ==> decimal_digits(10 * n + d) == decimal_digits(n).push((48 + d) as char),
        digits_value(decimal_digits(n)) == n,
{
    lemma_decimal_digits(n);
    if n > 0 {
        assert((10 * n + d) / 10 == n && (10 * n + d) % 10 == d);
    }
}

/// A run of digits is the number that reading them one by one makes, each ten
/// times what came before plus the digit.
pub proof fn law_digits_are_read_in_order(s: Seq<char>, d: nat)
    requires
        d < 10,
    ensures
        digits_value(Seq::empty()) == 0,
        digits_value(s.push((48 + d) as char)) == 10 * digits_value(s) + d,
{
    assert(s.push((48 + d) as char).drop_last() =~= s);
}

/// A number is read wherever there are only digits that fit into 64 bits.
pub proof fn law_digits_are_a_number(s: Seq<char>)
    requires
        s.len() > 0,
        forall|i: int| 0 <= i < s.len() ==> '0' <= #[trigger] s[i] <= '9',
    ensures
        digits_value(s) <= 0xffff_ffff_ffff_ffff ==> parsed_u64(s) == Some(digits_value(s) as u64),
        digits_value(s) > 0xffff_ffff_ffff_ffff ==> parsed_u64(s) is None,
{
    assert('0' <= s[0] <= '9');
    assert forall|i: int| 0 <= i < s.len() implies is_digit(#[trigger] s[i]) by {
        assert('0' <= s[i] <= '9');
    }
}

/// Nothing but digits is read as a number, a plus sign in front left aside.
pub proof fn law_a_number_is_digits(s: Seq<char>, i: int)
    requires
        parsed_u64(s) is Some,
        0 <= i < s.len(),
    ensures
        s.len() > 0,
        '0' <= s[s.len() - 1] <= '9',
        '0' <= s[i] <= '9' || (i == 0 && s[0] == '+'),
{
    if s[0] == '+' {
        let t = s.drop_first();
        assert(is_digit(t[t.len() - 1]));
        if i > 0 {
            assert(is_digit(t[i - 1]));
        }
    } else {
        assert(is_digit(s[i]));
        assert(is_digit(s[s.len() - 1]));
    }
}

/// Text without a space or a tab at either end is left as it is.
pub proof fn law_trimming_stops_at_text(s: Seq<char>)
    requires
        s.len() > 0,
        s[0] != ' ' && s[0] != '\t',
        s[s.len() - 1] != ' ' && s[s.len() - 1] != '\t',
    ensures
        trimmed(s) == s,
{
}

/// A message shows the beginning of a body: all of it up to 200 bytes, and the
/// first 200 of a longer one.
pub proof fn law_preview_is_the_beginning(body: Seq<u8>)
    ensures
        body.len() <= 200 ==> preview_bytes(body) == body,
        body.len() > 200 ==> preview_bytes(body).len() == 200,
        preview_bytes(body) == body.take(preview_bytes(body).len() as int),
{
    assert(body.take(body.len() as int) =~= body);
}

/// The text of a status is its number, a space and its phrase.
pub proof fn law_status_text(code: u16, phrase: Seq<char>)
    ensures
        status_text(code, Some(phrase)) == decimal_digits(code as nat) + " "@ + phrase,
        status_text(code, None) == decimal_digits(code as nat) + " "@ + "<unknown status code>"@,
{
}

} // verus!
