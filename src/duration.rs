//! A signed span of whole seconds, with its two textual renderings and its
//! serialized form.

use vstd::prelude::*;

verus! {

/// The largest magnitude, in seconds, that a [`Duration`] can hold:
/// `i64::MAX` milliseconds, truncated to whole seconds.
pub const MAX_DURATION_SECONDS: i64 = 9_223_372_036_854_775;

/// A signed time span in whole seconds.
///
/// Equality and ordering are those of the underlying seconds.
#[derive(Clone, Copy, Debug, PartialEq, Eq, PartialOrd, Ord, Hash, Structural)]
pub struct Duration {
    pub seconds: i64,
}

/// The character of a decimal digit.
pub open spec fn digit_char(d: nat) -> char
    recommends
        d < 10,
{
    seq!['0', '1', '2', '3', '4', '5', '6', '7', '8', '9'][d as int]
}

/// The decimal digits of `n`, most significant first, without leading zeros.
pub open spec fn decimal(n: nat) -> Seq<char>
    decreases n,
{
    if n < 10 {
        seq![digit_char(n)]
    } else {
        decimal(n / 10).push(digit_char(n % 10))
    }
}

/// The decimal digits of `n`, padded with zeros to at least two digits.
pub open spec fn padded2(n: nat) -> Seq<char> {
    if n < 10 {
        seq!['0'] + decimal(n)
    } else {
        decimal(n)
    }
}

/// `HH:MM:SS` for a magnitude of `m` seconds: hours are not wrapped at 24,
/// minutes and seconds are taken modulo 60.
pub open spec fn hms(m: nat) -> Seq<char> {
    padded2(m / 3600) + seq![':'] + padded2((m / 60) % 60) + seq![':'] + padded2(m % 60)
}

/// The absolute value of `x`.
pub open spec fn abs(x: int) -> nat {
    if x < 0 {
        (-x) as nat
    } else {
        x as nat
    }
}

/// The sign character of `x`: `+`, `-`, or a blank for zero.
pub open spec fn sign_char(x: int) -> char {
    if x < 0 {
        '-'
    } else if x > 0 {
        '+'
    } else {
        ' '
    }
}

/// Appends the character of the digit `d` to `s`.
fn push_digit(s: &mut String, d: u64)
    requires
        d < 10,
    ensures
        final(s)@ == old(s)@.push(digit_char(d as nat)),
{
    proof {
        reveal_strlit("0");
        reveal_strlit("1");
        reveal_strlit("2");
        reveal_strlit("3");
        reveal_strlit("4");
        reveal_strlit("5");
        reveal_strlit("6");
        reveal_strlit("7");
        reveal_strlit("8");
        reveal_strlit("9");
    }
    let digit = match d {
        0 => "0",
        1 => "1",
        2 => "2",
        3 => "3",
        4 => "4",
        5 => "5",
        6 => "6",
        7 => "7",
        8 => "8",
        _ => "9",
    };
    s.append(digit);
    assert(final(s)@ =~= old(s)@.push(digit_char(d as nat)));
}

/// Appends the decimal digits of `n` to `s`.
fn push_decimal(s: &mut String, n: u64)
    ensures
        final(s)@ == old(s)@ + decimal(n as nat),
    decreases n,
{
    if n >= 10 {
        push_decimal(s, n / 10);
        push_digit(s, n % 10);
        assert(final(s)@ =~= old(s)@ + decimal(n as nat));
    } else {
        push_digit(s, n);
        assert(final(s)@ =~= old(s)@ + decimal(n as nat));
    }
}

/// Appends the decimal digits of `n`, padded to two digits, to `s`.
fn push_padded2(s: &mut String, n: u64)
    ensures
        final(s)@ == old(s)@ + padded2(n as nat),
{
    if n < 10 {
        push_digit(s, 0);
    }
    push_decimal(s, n);
    assert(final(s)@ =~= old(s)@ + padded2(n as nat));
}

/// Appends `HH:MM:SS` for a magnitude of `m` seconds to `s`.
fn push_hms(s: &mut String, m: u64)
    ensures
        final(s)@ == old(s)@ + hms(m as nat),
{
    proof {
        reveal_strlit(":");
    }
    push_padded2(s, m / 3600);
    s.append(":");
    push_padded2(s, (m / 60) % 60);
    s.append(":");
    push_padded2(s, m % 60);
    assert(final(s)@ =~= old(s)@ + hms(m as nat));
}

impl Duration {
    /// Whether the span lies within the range that a duration can hold.
    pub open spec fn wf(self) -> bool {
        -MAX_DURATION_SECONDS <= self.seconds <= MAX_DURATION_SECONDS
    }

    /// The unsigned rendering: `HH:MM:SS` of the magnitude.
    pub open spec fn unsigned_text(self) -> Seq<char> {
        hms(abs(self.seconds as int))
    }

    /// The signed rendering: a sign character, then the unsigned rendering.
    pub open spec fn signed_text(self) -> Seq<char> {
        seq![sign_char(self.seconds as int)] + hms(abs(self.seconds as int))
    }

    /// What decoding a serialized number of seconds gives.
    pub open spec fn decoded(seconds: int) -> Option<Duration> {
        if -MAX_DURATION_SECONDS <= seconds <= MAX_DURATION_SECONDS {
            Some(Duration { seconds: seconds as i64 })
        } else {
            None
        }
    }

    /// A duration of `seconds` seconds.
    pub fn of(seconds: i64) -> (r: Duration)
        requires
            -MAX_DURATION_SECONDS <= seconds <= MAX_DURATION_SECONDS,
        ensures
            r.seconds == seconds,
            r.wf(),
    {
        Duration { seconds }
    }

    /// The zero duration.
    pub fn zero() -> (r: Duration)
        ensures
            r.seconds == 0,
            r.wf(),
    {
        Duration { seconds: 0 }
    }

    /// The span in whole seconds.
    pub fn num_seconds(&self) -> (r: i64)
        ensures
            r == self.seconds,
    {
        self.seconds
    }

    /// The magnitude of the span in seconds.
    fn magnitude(&self) -> (r: u64)
        ensures
            r as nat == abs(self.seconds as int),
    {
        if self.seconds < 0 {
            (0i128 - self.seconds as i128) as u64
        } else {
            self.seconds as u64
        }
    }

    /// Renders the magnitude as `HH:MM:SS`, without a sign.
    pub fn format_unsigned(&self) -> (r: String)
        ensures
            r@ == self.unsigned_text(),
    {
        let mut s = String::new();
        push_hms(&mut s, self.magnitude());
        assert(s@ =~= hms(abs(self.seconds as int)));
        s
    }

    /// Renders the span as `±HH:MM:SS`; zero has a blank in place of the sign.
    pub fn format_signed(&self) -> (r: String)
        ensures
            r@ == self.signed_text(),
    {
        proof {
            reveal_strlit("-");
            reveal_strlit("+");
            reveal_strlit(" ");
        }
        let mut s = String::new();
        if self.seconds < 0 {
            s.append("-");
        } else if self.seconds > 0 {
            s.append("+");
        } else {
            s.append(" ");
        }
        push_hms(&mut s, self.magnitude());
        assert(s@ =~= seq![sign_char(self.seconds as int)] + hms(abs(self.seconds as int)));
        s
    }

    /// The serialized form: the span as a signed integer of seconds.
    pub fn serialize(&self) -> (r: i64)
        ensures
            r == self.seconds,
    {
        self.seconds
    }

    /// Reads the serialized form back; `None` when the number of seconds lies
    /// outside the range that a duration can hold.
    pub fn deserialize(seconds: i64) -> (r: Option<Duration>)
        ensures
            r == Duration::decoded(seconds as int),
    {
        if -MAX_DURATION_SECONDS <= seconds && seconds <= MAX_DURATION_SECONDS {
            Some(Duration { seconds })
        } else {
            None
        }
    }
}

impl Default for Duration {
    fn default() -> (r: Duration)
        ensures
            r.seconds == 0,
    {
        Duration { seconds: 0 }
    }
}

/// Decoding the serialized seconds of a duration and encoding the result
/// again gives back the same duration; encoding a decoded number gives back
/// that number.
pub proof fn lemma_serialized_round_trip(d: Duration, seconds: i64)
    requires
        d.wf(),
    ensures
        Duration::decoded(d.seconds as int) == Some(d),
        Duration::decoded(seconds as int) matches Some(e) ==> e.seconds == seconds,
{
}

/// The unsigned and the signed rendering agree on the magnitude: the signed
/// one is the unsigned one behind a sign character, which is a blank exactly
/// for the zero duration; a span and its negation render alike unsigned.
pub proof fn lemma_formats_agree(d: Duration, e: Duration)
    requires
        e.seconds == -d.seconds,
    ensures
        d.signed_text() == seq![d.signed_text()[0]] + d.unsigned_text(),
        d.signed_text().drop_first() == d.unsigned_text(),
        (d.signed_text()[0] == ' ') <==> d.seconds == 0,
        (d.signed_text()[0] == '-') <==> d.seconds < 0,
        (d.signed_text()[0] == '+') <==> d.seconds > 0,
        d.unsigned_text() == e.unsigned_text(),
{
    assert(d.signed_text().drop_first() =~= d.unsigned_text());
}

} // verus!
