//! Playback times: a duration in nanoseconds and its display as
//! `m:ss` or `h:mm:ss`.

use vstd::prelude::*;
use crate::text::{
    decimal, digit_char, is_digit, lemma_decimal_digits, lemma_decimal_injective, lemma_two_digits,
    lemma_two_digits_injective,
    push_char, push_decimal, push_two_digits, two_digits,
};

verus! {

/// Nanoseconds in one second.
pub const NANOS_PER_SECOND: u64 = 1_000_000_000;

/// A point in a stream's timeline, in nanoseconds. The largest `u64`
/// value is reserved by GStreamer for "no time" and is never a `ClockTime`.
#[derive(Clone, Copy, Debug)]
pub struct ClockTime {
    nanos: u64,
}

impl View for ClockTime {
    type V = nat;

    closed spec fn view(&self) -> nat {
        self.nanos as nat
    }
}

impl ClockTime {
    /// The `ClockTime` is a time and not the reserved "no time" value.
    #[verifier::type_invariant]
    spec fn well_formed(self) -> bool {
        self.nanos < u64::MAX
    }

    /// The start of the timeline.
    pub fn zero() -> (t: ClockTime)
        ensures
            t@ == 0,
    {
        ClockTime { nanos: 0 }
    }

    /// The time `seconds` seconds into the timeline.
    pub fn from_seconds(seconds: u64) -> (t: ClockTime)
        requires
            seconds * NANOS_PER_SECOND <= u64::MAX,
        ensures
            t@ == seconds * NANOS_PER_SECOND,
    {
        ClockTime { nanos: seconds * NANOS_PER_SECOND }
    }

    /// The time `nanos` nanoseconds into the timeline.
    pub fn from_nseconds(nanos: u64) -> (t: ClockTime)
        requires
            nanos < u64::MAX,
        ensures
            t@ == nanos,
    {
        ClockTime { nanos }
    }

    /// The time in nanoseconds; never the reserved "no time" value.
    pub fn nseconds(&self) -> (n: u64)
        ensures
            n == self@,
            n < u64::MAX,
    {
        proof {
            use_type_invariant(self);
        }
        self.nanos
    }

    /// The number of whole seconds.
    pub fn seconds(&self) -> (s: u64)
        ensures
            s == self@ / (NANOS_PER_SECOND as nat),
    {
        self.nanos / NANOS_PER_SECOND
    }
}

/// A count of seconds as shown on the player: `m:ss` below one hour,
/// `h:mm:ss` from one hour on.
pub open spec fn time_text(seconds: nat) -> Seq<char> {
    if seconds >= 3600 {
        decimal(seconds / 3600) + seq![':'] + two_digits((seconds % 3600) / 60) + seq![':']
            + two_digits(seconds % 60)
    } else {
        decimal(seconds / 60) + seq![':'] + two_digits(seconds % 60)
    }
}

/// The display of a playback time, in whole seconds.
pub fn fmt_time(t: ClockTime) -> (text: String)
    ensures
        text@ == time_text(t@ / (NANOS_PER_SECOND as nat)),
{
    let s = t.seconds();
    let mut text = String::new();
    if s >= 3600 {
        push_decimal(&mut text, s / 3600);
        push_char(&mut text, ':');
        push_two_digits(&mut text, (s % 3600) / 60);
        push_char(&mut text, ':');
        push_two_digits(&mut text, s % 60);
    } else {
        push_decimal(&mut text, s / 60);
        push_char(&mut text, ':');
        push_two_digits(&mut text, s % 60);
    }
    text
}

/// A time built from a number of seconds gives back that number of seconds:
/// the value that `from_seconds` produces is one whose `seconds` are the
/// given count.
pub proof fn law_seconds_round_trip(seconds: nat)
    requires
        seconds * NANOS_PER_SECOND <= u64::MAX,
    ensures
        ((seconds * NANOS_PER_SECOND) as nat) / (NANOS_PER_SECOND as nat) == seconds,
{
    vstd::arithmetic::div_mod::lemma_div_by_multiple(seconds as int, NANOS_PER_SECOND as int);
}

/// The shown time tells the whole seconds apart: two counts of seconds
/// give the same text exactly when they are equal. With `fmt_time` showing
/// `time_text` of a time's whole seconds, two times show the same text
/// exactly when they have the same whole seconds.
pub proof fn law_time_text_distinct(s1: nat, s2: nat)
    ensures
        time_text(s1) == time_text(s2) <==> s1 == s2,
{
    if time_text(s1) == time_text(s2) {
        lemma_time_text_shape(s1);
        lemma_time_text_shape(s2);
        let t = time_text(s1);
        let len = t.len() as int;
        if s1 >= 3600 && s2 >= 3600 {
            let hl = decimal(s1 / 3600).len() as int;
            let hl2 = decimal(s2 / 3600).len() as int;
            assert(hl == hl2);
            assert(t.subrange(0, hl) =~= decimal(s1 / 3600));
            assert(time_text(s2).subrange(0, hl) =~= decimal(s2 / 3600));
            lemma_decimal_injective(s1 / 3600, s2 / 3600);
            lemma_two_digits_injective((s1 % 3600) / 60, (s2 % 3600) / 60);
            lemma_two_digits_injective((s2 % 3600) / 60, (s1 % 3600) / 60);
            lemma_two_digits_injective(s1 % 60, s2 % 60);
            lemma_two_digits_injective(s2 % 60, s1 % 60);
            assert(t.subrange(hl + 1, hl + 3) =~= two_digits((s1 % 3600) / 60));
            assert(time_text(s2).subrange(hl + 1, hl + 3) =~= two_digits((s2 % 3600) / 60));
            assert(t.subrange(hl + 4, hl + 6) =~= two_digits(s1 % 60));
            assert(time_text(s2).subrange(hl + 4, hl + 6) =~= two_digits(s2 % 60));
            lemma_hours_split(s1);
            lemma_hours_split(s2);
        } else if s1 < 3600 && s2 < 3600 {
            let ml = decimal(s1 / 60).len() as int;
            assert(t.subrange(0, ml) =~= decimal(s1 / 60));
            assert(time_text(s2).subrange(0, ml) =~= decimal(s2 / 60));
            lemma_decimal_injective(s1 / 60, s2 / 60);
            lemma_two_digits_injective(s1 % 60, s2 % 60);
            lemma_two_digits_injective(s2 % 60, s1 % 60);
            assert(t.subrange(ml + 1, ml + 3) =~= two_digits(s1 % 60));
            assert(time_text(s2).subrange(ml + 1, ml + 3) =~= two_digits(s2 % 60));
            vstd::arithmetic::div_mod::lemma_fundamental_div_mod(s1 as int, 60);
            vstd::arithmetic::div_mod::lemma_fundamental_div_mod(s2 as int, 60);
        } else {
            let (h, m) = if s1 >= 3600 {
                (s1, s2)
            } else {
                (s2, s1)
            };
            assert(time_text(h)[len - 6] == ':');
            let ml = decimal(m / 60).len() as int;
            lemma_decimal_digits(m / 60);
            assert(0 <= len - 6 < ml);
            assert(time_text(m)[len - 6] == decimal(m / 60)[len - 6]);
            assert(is_digit(decimal(m / 60)[len - 6]));
        }
    }
}

/// The layout of a shown time: the leading number, then `:` and two digits
/// (minutes and seconds, or seconds), the first `:` sitting right after the
/// leading number.
proof fn lemma_time_text_shape(s: nat)
    ensures
        s >= 3600 ==> time_text(s).len() == decimal(s / 3600).len() + 6 && decimal(
            s / 3600,
        ).len() >= 1 && time_text(s)[decimal(s / 3600).len() as int] == ':',
        s < 3600 ==> time_text(s).len() == decimal(s / 60).len() + 3,
        s < 3600 ==> forall|i: int|
            0 <= i < decimal(s / 60).len() ==> time_text(s)[i] == #[trigger] decimal(s / 60)[i],
{
    lemma_decimal_digits(s / 3600);
    lemma_decimal_digits(s / 60);
    lemma_two_digits_injective((s % 3600) / 60, (s % 3600) / 60);
    lemma_two_digits_injective(s % 60, s % 60);
}

/// A count of seconds from its hours, minutes and seconds.
proof fn lemma_hours_split(s: nat)
    ensures
        s == (s / 3600) * 3600 + ((s % 3600) / 60) * 60 + s % 60,
{
    vstd::arithmetic::div_mod::lemma_fundamental_div_mod(s as int, 3600);
    vstd::arithmetic::div_mod::lemma_fundamental_div_mod((s % 3600) as int, 60);
    vstd::arithmetic::div_mod::lemma_mod_mod(s as int, 60, 60);
    assert(s % 3600 == ((s % 3600) / 60) * 60 + (s % 3600) % 60);
    assert((s % 3600) % 60 == s % 60) by {
        vstd::arithmetic::div_mod::lemma_mod_mod(s as int, 60, 60);
    }
}

/// The layout of a shown time: below one hour, the minutes, `:` and the
/// seconds as exactly two digits; from one hour on, the hours, `:`, the
/// minutes within the hour as two digits, `:` and the seconds as two
/// digits.
pub proof fn law_time_text_layout(s: nat)
    ensures
        s < 3600 ==> time_text(s) == decimal(s / 60) + seq![
            ':',
            digit_char((s % 60) / 10),
            digit_char((s % 60) % 10),
        ],
        s >= 3600 ==> time_text(s) == decimal(s / 3600) + seq![
            ':',
            digit_char(((s % 3600) / 60) / 10),
            digit_char(((s % 3600) / 60) % 10),
            ':',
            digit_char((s % 60) / 10),
            digit_char((s % 60) % 10),
        ],
{
    assert((s % 3600) / 60 < 60) by (nonlinear_arith);
    lemma_two_digits(s % 60);
    lemma_two_digits((s % 3600) / 60);
    if s < 3600 {
        assert(time_text(s) =~= decimal(s / 60) + seq![
            ':',
            digit_char((s % 60) / 10),
            digit_char((s % 60) % 10),
        ]);
    } else {
        assert(time_text(s) =~= decimal(s / 3600) + seq![
            ':',
            digit_char(((s % 3600) / 60) / 10),
            digit_char(((s % 3600) / 60) % 10),
            ':',
            digit_char((s % 60) / 10),
            digit_char((s % 60) % 10),
        ]);
    }
}

} // verus!
