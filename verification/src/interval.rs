//! The refresh interval: how it is read from text, how it is shown, and how
//! much of it is left once a run of the command has taken its time.

use crate::digits::{
    all_digits, decimal_string, decimal_text, digit_of, digit_value, digits_value, is_digit,
    lemma_decimal_text_reads_back, lemma_pow10_add, lemma_pow10_positive, lemma_value_bound,
    lemma_value_concat, pow10,
};
use vstd::arithmetic::div_mod::{
    lemma_div_multiples_vanish_quotient, lemma_fundamental_div_mod,
    lemma_fundamental_div_mod_converse, lemma_mod_bound,
};
use vstd::prelude::*;
use vstd::string::*;

verus! {

/// Why a text is no interval.
#[derive(Clone, Copy, Debug, PartialEq, Eq, Structural)]
pub enum ParseError {
    /// The argument is not valid text.
    NotText,
    /// The text is empty.
    Empty,
    /// The text is not a decimal number.
    Invalid,
    /// The number carries a minus sign.
    Negative,
    /// The number of milliseconds does not fit in 64 bits.
    TooLarge,
}

impl ParseError {
    /// What the user is told.
    pub open spec fn message_text(self) -> Seq<char> {
        match self {
            ParseError::NotText => "Character set not supported"@,
            ParseError::Empty => "cannot read an interval from an empty string"@,
            ParseError::Invalid => "the interval is not a decimal number of seconds"@,
            ParseError::Negative => "the interval must not be negative"@,
            ParseError::TooLarge => "the interval is too large"@,
        }
    }

    /// What the user is told.
    pub fn message(&self) -> (r: String)
        ensures
            r@ == self.message_text(),
    {
        match self {
            ParseError::NotText => String::from_str("Character set not supported"),
            ParseError::Empty => String::from_str("cannot read an interval from an empty string"),
            ParseError::Invalid => String::from_str(
                "the interval is not a decimal number of seconds",
            ),
            ParseError::Negative => String::from_str("the interval must not be negative"),
            ParseError::TooLarge => String::from_str("the interval is too large"),
        }
    }
}

/// `s` is a decimal number without sign whose point, if it has one, stands at
/// index `d` (`d` is the length of `s` where it has none): digits only on both
/// sides, and at least one digit in all.
pub open spec fn point_at(s: Seq<char>, d: int) -> bool {
    &&& 0 <= d <= s.len()
    &&& all_digits(s.subrange(0, d))
    &&& d < s.len() ==> s[d] == '.' && all_digits(s.subrange(d + 1, s.len() as int))
    &&& s.len() >= (if d < s.len() { 2int } else { 1int })
}

/// `s` is a decimal number without sign: `12`, `1.5`, `.5` and `5.` are.
pub open spec fn is_decimal(s: Seq<char>) -> bool {
    exists|d: int| point_at(s, d)
}

/// Where the point of the decimal number `s` stands.
pub open spec fn point_index(s: Seq<char>) -> int {
    choose|d: int| point_at(s, d)
}

/// The digits of `s` before the point.
pub open spec fn whole_digits(s: Seq<char>) -> Seq<char> {
    s.subrange(0, point_index(s))
}

/// The digits of `s` after the point.
pub open spec fn fraction_digits(s: Seq<char>) -> Seq<char> {
    if point_index(s) < s.len() {
        s.subrange(point_index(s) + 1, s.len() as int)
    } else {
        Seq::empty()
    }
}

/// The number of seconds `x / 10^k`, in milliseconds, rounded to the nearest
/// whole one (a half goes up): the floor of `1000 * x / 10^k + 1/2`.
pub open spec fn round_to_millis(x: nat, k: nat) -> nat {
    ((2000 * x + pow10(k)) / (2 * pow10(k))) as nat
}

/// The decimal number of seconds `s` in milliseconds, rounded to the nearest
/// whole one. With `k` digits after the point, `s` is the number that all its
/// digits spell, divided by ten to the `k`.
pub open spec fn rounded_millis(s: Seq<char>) -> nat
    recommends
        is_decimal(s),
{
    round_to_millis(
        digits_value(whole_digits(s) + fraction_digits(s)),
        fraction_digits(s).len(),
    )
}

/// `s` without its leading `+` or `-`, if it has one.
pub open spec fn unsigned_part(s: Seq<char>) -> Seq<char> {
    if s.len() > 0 && (s[0] == '+' || s[0] == '-') {
        s.subrange(1, s.len() as int)
    } else {
        s
    }
}

/// What reading the text `s` as an interval gives.
pub open spec fn parse_text(s: Seq<char>) -> Result<u64, ParseError> {
    if s.len() == 0 {
        Err(ParseError::Empty)
    } else if !is_decimal(unsigned_part(s)) {
        Err(ParseError::Invalid)
    } else if s[0] == '-' {
        Err(ParseError::Negative)
    } else if rounded_millis(unsigned_part(s)) > u64::MAX {
        Err(ParseError::TooLarge)
    } else {
        Ok(rounded_millis(unsigned_part(s)) as u64)
    }
}

/// The first four digits of `f`, with zeros where `f` is shorter.
pub open spec fn first_four(f: Seq<char>) -> Seq<char> {
    Seq::new(4, |i: int| if i < f.len() { f[i] } else { '0' })
}

/// A number has one point only: where the leading digits of `s` end at `e`,
/// no other index is the point.
proof fn lemma_point_is_run_end(s: Seq<char>, e: int, p: int)
    requires
        0 <= e <= s.len(),
        all_digits(s.subrange(0, e)),
        e == s.len() || !is_digit(s[e]),
        point_at(s, p),
    ensures
        p == e,
{
    if p < e {
        assert(s.subrange(0, e)[p] == s[p]);
        assert(is_digit(s[p]));
    } else if p > e {
        assert(s.subrange(0, p)[e] == s[e]);
    }
}

proof fn lemma_zeros_value(z: Seq<char>)
    requires
        forall|i: int| 0 <= i < z.len() ==> z[i] == '0',
    ensures
        digits_value(z) == 0,
    decreases z.len(),
{
    if z.len() > 0 {
        lemma_zeros_value(z.drop_last());
    }
}

proof fn lemma_round_split(t: nat, m: nat, r: nat)
    requires
        m > 0,
        r < m,
    ensures
        (2000 * (t * m + r) + 10000 * m) / (20000 * m) == (t + 5) / 10,
{
    let q = (t + 5) / 10;
    let u = (t + 5) % 10;
    let x = 2000 * (t * m + r) + 10000 * m;
    let rest = 2000 * (u * m + r);
    assert(x == q * (20000 * m) + rest) by (nonlinear_arith)
        requires
            t + 5 == 10 * q + u,
            x == 2000 * (t * m + r) + 10000 * m,
            rest == 2000 * (u * m + r),
    ;
    assert(0 <= rest < 20000 * m) by (nonlinear_arith)
        requires
            0 <= u <= 9,
            0 <= r < m,
            rest == 2000 * (u * m + r),
    ;
    lemma_fundamental_div_mod_converse(x as int, (20000 * m) as int, q as int, rest as int);
}

/// Rounding a decimal number to milliseconds looks at four digits after the
/// point and no further: the fourth decides which way the third is rounded.
pub proof fn lemma_rounding_reads_four_digits(whole: Seq<char>, frac: Seq<char>)
    requires
        all_digits(frac),
    ensures
        round_to_millis(digits_value(whole + frac), frac.len()) == (digits_value(whole) * 10000
            + digits_value(first_four(frac)) + 5) / 10,
{
    let k = frac.len();
    let w = digits_value(whole);
    let f = digits_value(frac);
    let n = digits_value(whole + frac);
    let four = first_four(frac);
    let t = w * 10000 + digits_value(four);
    lemma_value_concat(whole, frac);
    lemma_pow10_positive(k);
    assert(pow10(4) == 10000) by {
        reveal_with_fuel(pow10, 5);
    }
    if k >= 4 {
        let head = frac.subrange(0, 4);
        let tail = frac.subrange(4, k as int);
        assert(frac =~= head + tail);
        assert(four =~= head);
        lemma_value_concat(head, tail);
        assert forall|i: int| 0 <= i < tail.len() implies is_digit(#[trigger] tail[i]) by {
            assert(tail[i] == frac[i + 4]);
        }
        lemma_value_bound(tail);
        let m = pow10(tail.len());
        let r = digits_value(tail);
        lemma_pow10_add(4, tail.len());
        assert(pow10(k) == 10000 * m);
        assert(n == t * m + r) by (nonlinear_arith)
            requires
                n == w * (10000 * m) + (digits_value(head) * m + r),
                t == w * 10000 + digits_value(head),
        ;
        lemma_round_split(t, m, r);
        assert(2 * (10000 * m) == 20000 * m);
    } else {
        let pad = Seq::new((4 - k) as nat, |i: int| '0');
        assert(four =~= frac + pad);
        lemma_value_concat(frac, pad);
        lemma_zeros_value(pad);
        let c = pow10(pad.len());
        let p = pow10(k);
        lemma_pow10_positive(pad.len());
        lemma_pow10_add(k, pad.len());
        assert(p * c == 10000);
        assert(t == n * c) by (nonlinear_arith)
            requires
                t == w * 10000 + f * c,
                n == w * p + f,
                p * c == 10000,
        ;
        lemma_div_multiples_vanish_quotient(c as int, (2000 * n + p) as int, (2 * p) as int);
        assert(c * (2000 * n + p) == 2000 * t + 10000) by (nonlinear_arith)
            requires
                t == n * c,
                p * c == 10000,
        ;
        assert(c * (2 * p) == 20000) by (nonlinear_arith)
            requires
                p * c == 10000,
        ;
        lemma_round_split(t, 1, 0);
        assert(t * 1 + 0 == t) by (nonlinear_arith);
    }
}

/// Rounding goes to the nearest millisecond: the result is no further than
/// half a millisecond from the exact value, and a value half way between two
/// goes up.
pub proof fn lemma_round_to_millis_is_nearest(x: nat, k: nat)
    ensures
        2 * pow10(k) * round_to_millis(x, k) - pow10(k) <= 2000 * x,
        2000 * x < 2 * pow10(k) * round_to_millis(x, k) + pow10(k),
{
    let p = pow10(k);
    lemma_pow10_positive(k);
    let n = (2000 * x + p) as int;
    let d = (2 * p) as int;
    lemma_fundamental_div_mod(n, d);
    lemma_mod_bound(n, d);
    assert(2 * p * round_to_millis(x, k) == d * (n / d)) by (nonlinear_arith)
        requires
            d == 2 * p,
            round_to_millis(x, k) == n / d,
    ;
}

/// A whole number of seconds is read as a thousand times as many milliseconds.
pub proof fn lemma_whole_seconds(x: nat)
    ensures
        round_to_millis(x, 0) == 1000 * x,
{
    assert(pow10(0) == 1);
    assert((2000 * x + 1) / 2 == 1000 * x);
}

/// A decimal number without sign is read as its value in milliseconds,
/// rounded to the nearest whole one, wherever that fits in 64 bits.
pub proof fn lemma_decimal_is_read_rounded(s: Seq<char>)
    requires
        is_decimal(s),
        rounded_millis(s) <= u64::MAX,
    ensures
        parse_text(s) == Ok::<u64, ParseError>(rounded_millis(s) as u64),
{
    let d = point_index(s);
    assert(point_at(s, d));
    if d > 0 {
        assert(s.subrange(0, d)[0] == s[0]);
        assert(is_digit(s[0]));
    }
    assert(unsigned_part(s) == s);
}

/// A number with a minus sign is refused, and so is a text that is no decimal number.
pub proof fn lemma_negative_and_malformed_are_refused(s: Seq<char>)
    requires
        (s.len() > 0 && s[0] == '-') || !is_decimal(unsigned_part(s)),
    ensures
        parse_text(s) is Err,
{
}

/// A whole number of seconds, written in decimal, is read as a thousand times
/// as many milliseconds.
pub proof fn lemma_written_seconds_are_read_back(n: nat)
    requires
        1000 * n <= u64::MAX,
    ensures
        parse_text(decimal_text(n)) == Ok::<u64, ParseError>((1000 * n) as u64),
{
    let s = decimal_text(n);
    lemma_decimal_text_reads_back(n);
    assert(s.subrange(0, s.len() as int) =~= s);
    assert(point_at(s, s.len() as int));
    lemma_point_is_run_end(s, s.len() as int, point_index(s));
    assert(whole_digits(s) + fraction_digits(s) =~= s);
    lemma_whole_seconds(n);
    lemma_decimal_is_read_rounded(s);
}

/// The end of the run of digits that starts at `from`.
fn digit_run_end(text: &str, from: usize, len: usize) -> (end: usize)
    requires
        from <= len,
        len == text@.len(),
    ensures
        from <= end <= len,
        all_digits(text@.subrange(from as int, end as int)),
        end == len || !is_digit(text@[end as int]),
{
    let mut end: usize = from;
    let mut more: bool = true;
    while more && end < len
        invariant
            from <= end <= len,
            len == text@.len(),
            all_digits(text@.subrange(from as int, end as int)),
            !more ==> end < len && !is_digit(text@[end as int]),
        decreases len - end + (if more { 1int } else { 0int }),
    {
        let c = text.get_char(end);
        if digit_of(c).is_some() {
            proof {
                let run = text@.subrange(from as int, end as int);
                let next = text@.subrange(from as int, end + 1);
                assert forall|i: int| 0 <= i < next.len() implies is_digit(#[trigger] next[i]) by {
                    if i < run.len() {
                        assert(next[i] == run[i]);
                    }
                }
            }
            end += 1;
        } else {
            more = false;
        }
    }
    end
}

/// The number that the digits from `from` up to `to` spell, where it fits in 64 bits.
fn run_value(text: &str, from: usize, to: usize) -> (r: Option<u64>)
    requires
        from <= to <= text@.len(),
        all_digits(text@.subrange(from as int, to as int)),
    ensures
        r is Some <==> digits_value(text@.subrange(from as int, to as int)) <= u64::MAX,
        r is Some ==> r->0 == digits_value(text@.subrange(from as int, to as int)),
{
    let ghost all = text@.subrange(from as int, to as int);
    let mut i: usize = from;
    let mut acc: u64 = 0;
    while i < to
        invariant
            from <= i <= to <= text@.len(),
            all == text@.subrange(from as int, to as int),
            all_digits(all),
            acc == digits_value(text@.subrange(from as int, i as int)),
        decreases to - i,
    {
        let c = text.get_char(i);
        let ghost next = text@.subrange(from as int, i + 1);
        proof {
            assert(all[i - from] == c);
            assert(next.drop_last() =~= text@.subrange(from as int, i as int));
            assert(next.last() == c);
            assert(digits_value(next) == acc * 10 + digit_value(c));
            let rest = text@.subrange(i + 1, to as int);
            assert(all =~= next + rest);
            lemma_value_concat(next, rest);
            lemma_pow10_positive(rest.len());
            assert(digits_value(next) * pow10(rest.len()) >= digits_value(next))
                by (nonlinear_arith)
                requires
                    pow10(rest.len()) >= 1,
            ;
        }
        let v: u64 = match digit_of(c) {
            Some(v) => v as u64,
            None => 0,
        };
        let shifted: u64 = match acc.checked_mul(10) {
            Some(x) => x,
            None => {
                return None;
            },
        };
        acc = match shifted.checked_add(v) {
            Some(x) => x,
            None => {
                return None;
            },
        };
        i += 1;
    }
    assert(text@.subrange(from as int, i as int) == all);
    Some(acc)
}

/// The number that the first four digits from `from` on spell, with zeros
/// where fewer than four are left before `len`.
fn four_digits_value(text: &str, from: usize, len: usize) -> (r: u64)
    requires
        from <= len,
        len == text@.len(),
        all_digits(text@.subrange(from as int, len as int)),
    ensures
        r == digits_value(first_four(text@.subrange(from as int, len as int))),
        r < 10000,
{
    let ghost frac = text@.subrange(from as int, len as int);
    let ghost four = first_four(frac);
    let mut j: usize = 0;
    let mut acc: u64 = 0;
    while j < 4
        invariant
            j <= 4,
            from <= len,
            len == text@.len(),
            frac == text@.subrange(from as int, len as int),
            all_digits(frac),
            four == first_four(frac),
            acc == digits_value(four.subrange(0, j as int)),
            acc < pow10(j as nat),
        decreases 4 - j,
    {
        let v: u64 = if j < len - from {
            let c = text.get_char(from + j);
            assert(frac[j as int] == c);
            match digit_of(c) {
                Some(v) => v as u64,
                None => 0,
            }
        } else {
            0
        };
        proof {
            reveal_with_fuel(pow10, 5);
            let next = four.subrange(0, j + 1);
            assert(next.drop_last() =~= four.subrange(0, j as int));
            assert(next.last() == four[j as int]);
            assert(v == digit_value(four[j as int]));
            assert(pow10(j as nat) <= 1000);
        }
        acc = acc * 10 + v;
        j += 1;
    }
    proof {
        reveal_with_fuel(pow10, 5);
        assert(four.subrange(0, 4) =~= four);
    }
    acc
}

/// Reads an interval in seconds, written as a decimal number, and gives it in
/// milliseconds, rounded to the nearest whole one. `None` stands for an
/// argument that is not valid text. A leading `+` is accepted; a number with
/// a minus sign is refused, `-0` too.
pub fn parse_time(ts: Option<&str>) -> (r: Result<u64, ParseError>)
    ensures
        r == (match ts {
            None => Err(ParseError::NotText),
            Some(s) => parse_text(s@),
        }),
{
    let text = match ts {
        Some(t) => t,
        None => {
            return Err(ParseError::NotText);
        },
    };
    let full_len: usize = text.unicode_len();
    if full_len == 0 {
        return Err(ParseError::Empty);
    }
    let first = text.get_char(0);
    let start: usize = if first == '+' || first == '-' {
        1
    } else {
        0
    };
    let body = text.substring_char(start, full_len);
    assert(body@ == unsigned_part(text@));
    let len: usize = full_len - start;
    let point: usize = digit_run_end(body, 0, len);
    let end: usize = if point < len && body.get_char(point) == '.' {
        digit_run_end(body, point + 1, len)
    } else {
        point
    };
    let digits: usize = if point < len {
        len - 1
    } else {
        len
    };
    if end < len || digits == 0 {
        proof {
            if is_decimal(body@) {
                let p = point_index(body@);
                lemma_point_is_run_end(body@, point as int, p);
                if point < len && body@[point as int] == '.' {
                    assert(body@.subrange(point + 1, len as int)[end - point - 1] == body@[end as int]);
                }
            }
        }
        return Err(ParseError::Invalid);
    }
    proof {
        assert(point_at(body@, point as int));
        lemma_point_is_run_end(body@, point as int, point_index(body@));
    }
    if first == '-' {
        return Err(ParseError::Negative);
    }
    let from: usize = if point < len {
        point + 1
    } else {
        len
    };
    let ghost whole = whole_digits(body@);
    let ghost frac = fraction_digits(body@);
    proof {
        assert(frac =~= body@.subrange(from as int, len as int));
        lemma_rounding_reads_four_digits(whole, frac);
    }
    let whole_value: u64 = match run_value(body, 0, point) {
        Some(w) => w,
        None => {
            return Err(ParseError::TooLarge);
        },
    };
    let part: u64 = four_digits_value(body, from, len);
    let scaled: u128 = whole_value as u128 * 10000 + part as u128;
    let millis: u128 = (scaled + 5) / 10;
    if millis > u64::MAX as u128 {
        return Err(ParseError::TooLarge);
    }
    Ok(millis as u64)
}

/// The time between two refreshes: whole seconds, or milliseconds where a
/// finer interval was asked for.
#[derive(Clone, Copy, Debug, PartialEq, Eq, Structural)]
pub enum Interval {
    Seconds(u64),
    Millis(u64),
}

impl Interval {
    /// The interval in milliseconds.
    pub open spec fn millis(self) -> nat {
        match self {
            Interval::Seconds(s) => (s * 1000) as nat,
            Interval::Millis(m) => m as nat,
        }
    }

    /// How the interval is shown: `5s`, `2500ms`.
    pub open spec fn label_text(self) -> Seq<char> {
        match self {
            Interval::Seconds(s) => decimal_text(s as nat) + seq!['s'],
            Interval::Millis(m) => decimal_text(m as nat) + seq!['m', 's'],
        }
    }

    /// What is left of the interval after `elapsed` milliseconds, if anything.
    pub open spec fn left_after(self, elapsed: nat) -> Option<u128> {
        if elapsed < self.millis() {
            Some((self.millis() - elapsed) as u128)
        } else {
            None
        }
    }

    /// The interval that the two options ask for: the finer one, in
    /// milliseconds, where it is given, else the whole seconds.
    pub fn select(seconds: u64, sub_interval: Option<u64>) -> (r: Interval)
        ensures
            r == (match sub_interval {
                Some(ms) => Interval::Millis(ms),
                None => Interval::Seconds(seconds),
            }),
    {
        match sub_interval {
            Some(ms) => Interval::Millis(ms),
            None => Interval::Seconds(seconds),
        }
    }

    /// The interval in milliseconds.
    pub fn total_millis(&self) -> (r: u128)
        ensures
            r == self.millis(),
    {
        match self {
            Interval::Seconds(s) => *s as u128 * 1000,
            Interval::Millis(m) => *m as u128,
        }
    }

    /// How the interval is shown in the header.
    pub fn label(&self) -> (r: String)
        ensures
            r@ == self.label_text(),
    {
        proof {
            reveal_strlit("s");
            reveal_strlit("ms");
        }
        match self {
            Interval::Seconds(s) => {
                let mut text = decimal_string(*s);
                text.append("s");
                assert(text@ =~= self.label_text());
                text
            },
            Interval::Millis(m) => {
                let mut text = decimal_string(*m);
                text.append("ms");
                assert(text@ =~= self.label_text());
                text
            },
        }
    }

    /// How long to rest, in milliseconds, once a run has taken `elapsed_ms`:
    /// the rest of the interval, or `None` where the run took the whole of it
    /// or more, and the next run starts at once.
    pub fn remaining(&self, elapsed_ms: u128) -> (r: Option<u128>)
        ensures
            r == self.left_after(elapsed_ms as nat),
            elapsed_ms >= self.millis() ==> r is None,
            r is Some ==> 0 < r->0 <= self.millis() && r->0 + elapsed_ms == self.millis(),
    {
        let total = self.total_millis();
        if elapsed_ms < total {
            Some(total - elapsed_ms)
        } else {
            None
        }
    }

    /// How long to rest once a run has taken `elapsed_ms`, in whole seconds
    /// and the nanoseconds beyond them: the rest of the interval, or `None`
    /// where the run took the whole of it or more.
    pub fn rest_parts(&self, elapsed_ms: u128) -> (r: Option<(u64, u32)>)
        ensures
            match r {
                Some((seconds, nanos)) => {
                    &&& self.left_after(elapsed_ms as nat) is Some
                    &&& seconds * 1000 + nanos / 1_000_000 == self.left_after(
                        elapsed_ms as nat,
                    )->0
                    &&& nanos < 1_000_000_000
                    &&& nanos % 1_000_000 == 0
                },
                None => self.left_after(elapsed_ms as nat) is None,
            },
    {
        match self.remaining(elapsed_ms) {
            Some(ms) => {
                let seconds: u128 = ms / 1000;
                let beyond: u128 = ms % 1000;
                let nanos: u32 = (beyond as u32) * 1_000_000;
                Some((seconds as u64, nanos))
            },
            None => None,
        }
    }
}

} // verus!
