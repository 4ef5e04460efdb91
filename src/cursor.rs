//! Feed cursors: a point in feed order, written `<time>::<uri>`, where the
//! time is the indexing time in microseconds, in decimal.

use vstd::prelude::*;
use vstd::string::*;

use crate::text::{find_char, first_index, lemma_first_index, substring};

verus! {

/// The character of a decimal digit.
pub open spec fn digit_char(d: int) -> char {
    (('0' as int) + d) as char
}

/// The decimal digits of a natural number, most significant first.
pub open spec fn nat_digits(n: nat) -> Seq<char>
    decreases n,
{
    if n < 10 {
        seq![digit_char(n as int)]
    } else {
        nat_digits(n / 10).push(digit_char((n % 10) as int))
    }
}

/// The decimal text of an integer, with a leading `-` when negative.
pub open spec fn decimal(v: int) -> Seq<char> {
    if v < 0 {
        seq!['-'] + nat_digits((-v) as nat)
    } else {
        nat_digits(v as nat)
    }
}

/// Every character is a decimal digit.
pub open spec fn all_digits(s: Seq<char>) -> bool {
    forall|i: int| 0 <= i < s.len() ==> '0' <= #[trigger] s[i] <= '9'
}

/// The value of a sequence of decimal digits.
pub open spec fn digits_value(s: Seq<char>) -> int
    decreases s.len(),
{
    if s.len() == 0 {
        0
    } else {
        digits_value(s.drop_last()) * 10 + ((s.last() as int) - ('0' as int))
    }
}

/// How a text reads as an `i64`: an optional `+` or `-`, then one or more
/// decimal digits, whose value must be in range.
pub open spec fn parse_i64_spec(s: Seq<char>) -> Option<i64> {
    let neg = s.len() > 0 && s[0] == '-';
    let d = if s.len() > 0 && (s[0] == '-' || s[0] == '+') {
        s.drop_first()
    } else {
        s
    };
    if d.len() == 0 || !all_digits(d) {
        None
    } else {
        let v = if neg {
            -digits_value(d)
        } else {
            digits_value(d)
        };
        if i64::MIN <= v <= i64::MAX {
            Some(v as i64)
        } else {
            None
        }
    }
}

/// Relies on `FromStr` for `i64`: an optional sign followed by decimal digits,
/// and an error for anything else or a value out of range.
#[verifier::external_body]
fn parse_i64(s: &str) -> (r: Option<i64>)
    ensures
        r == parse_i64_spec(s@),
{
    s.parse::<i64>().ok()
}

/// Relies on `Display` for `i64`: its decimal digits, after a `-` when negative.
#[verifier::external_body]
fn i64_to_string(v: i64) -> (r: String)
    ensures
        r@ == decimal(v as int),
{
    v.to_string()
}

/// The cursor that marks the post `uri` indexed at `time`.
pub open spec fn cursor_text(time: i64, uri: Seq<char>) -> Seq<char> {
    decimal(time as int) + "::"@ + uri
}

/// The point a cursor marks: the text before its first `:` read as a time,
/// followed by `::` and the uri.
pub open spec fn parse_cursor(s: Seq<char>) -> Option<(i64, Seq<char>)> {
    let i = first_index(s, ':');
    if i + 1 < s.len() && s[i + 1] == ':' {
        match parse_i64_spec(s.take(i)) {
            Some(t) => Some((t, s.skip(i + 2))),
            None => None,
        }
    } else {
        None
    }
}

/// The cursor that marks the post `uri` indexed at `time`.
pub fn encode_cursor(time: i64, uri: &str) -> (r: String)
    ensures
        r@ == cursor_text(time, uri@),
{
    let mut r = i64_to_string(time);
    r.append("::");
    r.append(uri);
    r
}

/// The point a cursor marks, if it reads as one.
pub fn decode_cursor(cursor: &str) -> (r: Option<(i64, String)>)
    ensures
        match r {
            Some((t, u)) => parse_cursor(cursor@) == Some((t, u@)),
            None => parse_cursor(cursor@) is None,
        },
{
    let i = find_char(cursor, ':');
    let n = cursor.unicode_len();
    if i < n && n - i > 1 && cursor.get_char(i + 1) == ':' {
        let time_text = substring(cursor, 0, i);
        assert(time_text@ =~= cursor@.take(i as int));
        match parse_i64(time_text.as_str()) {
            Some(t) => Some((t, substring(cursor, i + 2, n))),
            None => None,
        }
    } else {
        None
    }
}

proof fn lemma_nat_digits(n: nat)
    ensures
        nat_digits(n).len() > 0,
        all_digits(nat_digits(n)),
        digits_value(nat_digits(n)) == n,
    decreases n,
{
    let d = nat_digits(n);
    if n < 10 {
        assert(d.drop_last() =~= Seq::<char>::empty());
        assert((digit_char(n as int) as int) == ('0' as int) + n);
        assert(digits_value(Seq::<char>::empty()) == 0);
        assert(d.last() == digit_char(n as int));
        assert(digits_value(d) == digits_value(d.drop_last()) * 10 + ((d.last() as int) - ('0' as int)));
    } else {
        lemma_nat_digits(n / 10);
        assert(d.drop_last() =~= nat_digits(n / 10));
        assert((digit_char((n % 10) as int) as int) == ('0' as int) + n % 10);
        assert((n / 10) * 10 + n % 10 == n) by (nonlinear_arith);
        assert(d.last() == digit_char((n % 10) as int));
        assert(digits_value(d) == digits_value(d.drop_last()) * 10 + ((d.last() as int) - ('0' as int)));
        assert forall|i: int| 0 <= i < d.len() implies '0' <= #[trigger] d[i] <= '9' by {
            if i < d.len() - 1 {
                assert(d[i] == nat_digits(n / 10)[i]);
            }
        }
    }
}

/// Reading back the decimal text of a time gives that time, and the text
/// holds no `:`.
proof fn lemma_decimal_round_trip(time: i64)
    ensures
        parse_i64_spec(decimal(time as int)) == Some(time),
        forall|j: int| 0 <= j < decimal(time as int).len() ==> decimal(time as int)[j] != ':',
{
    if time < 0 {
        let m = (-(time as int)) as nat;
        lemma_nat_digits(m);
        let s = decimal(time as int);
        assert(s.drop_first() =~= nat_digits(m));
        assert forall|j: int| 0 <= j < s.len() implies s[j] != ':' by {
            if j > 0 {
                assert(s[j] == nat_digits(m)[j - 1]);
            }
        }
    } else {
        lemma_nat_digits(time as nat);
        let s = decimal(time as int);
        assert(s[0] != '-' && s[0] != '+');
    }
}

/// Reading back the cursor of a post gives that post's time and uri.
pub proof fn lemma_cursor_round_trip(time: i64, uri: Seq<char>)
    ensures
        parse_cursor(cursor_text(time, uri)) == Some((time, uri)),
{
    reveal_strlit("::");
    lemma_decimal_round_trip(time);
    let d = decimal(time as int);
    let s = cursor_text(time, uri);
    assert(s[d.len() as int] == ':');
    assert(s[d.len() as int + 1] == ':');
    assert forall|j: int| 0 <= j < d.len() implies s[j] != ':' by {
        assert(s[j] == d[j]);
    }
    lemma_first_index(s, ':', d.len() as int);
    assert(s.take(d.len() as int) =~= d);
    assert(s.skip(d.len() as int + 2) =~= uri);
}

} // verus!
