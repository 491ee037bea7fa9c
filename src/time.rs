//! UTC timestamps and their fixed RFC 3339 text form
//! `YYYY-MM-DDTHH:MM:SS.ffffffZ` (always six fraction digits, always `Z`).
use vstd::prelude::*;

verus! {

/// Byte values of the separators in the text form.
pub const DASH: u8 = 45;
pub const COLON: u8 = 58;
pub const DOT: u8 = 46;
pub const LETTER_T: u8 = 84;
pub const LETTER_Z: u8 = 90;
pub const DIGIT_ZERO: u8 = 48;

/// Length of the text form.
pub const TEXT_LEN: usize = 27;

/// A UTC instant with microsecond precision, held as calendar fields.
#[derive(Debug, Clone, Copy, PartialEq, Eq, Structural)]
pub struct Timestamp {
    pub year: u16,
    pub month: u8,
    pub day: u8,
    pub hour: u8,
    pub minute: u8,
    pub second: u8,
    pub micro: u32,
}

pub open spec fn is_leap_year(y: int) -> bool {
    (y % 4 == 0 && y % 100 != 0) || y % 400 == 0
}

pub open spec fn days_in_month(y: int, m: int) -> int {
    if m == 2 {
        if is_leap_year(y) { 29 } else { 28 }
    } else if m == 4 || m == 6 || m == 9 || m == 11 {
        30
    } else {
        31
    }
}

pub open spec fn pow10(w: nat) -> nat
    decreases w,
{
    if w == 0 { 1 } else { 10 * pow10((w - 1) as nat) }
}

/// `n` written with exactly `w` decimal digits (the low `w` digits of `n`).
pub open spec fn digits(n: nat, w: nat) -> Seq<u8>
    decreases w,
{
    if w == 0 {
        seq![]
    } else {
        digits(n / 10, (w - 1) as nat).push((DIGIT_ZERO + n % 10) as u8)
    }
}

pub open spec fn is_digit(b: u8) -> bool {
    DIGIT_ZERO <= b && b <= DIGIT_ZERO + 9
}

pub open spec fn all_digits(s: Seq<u8>) -> bool {
    forall|i: int| 0 <= i < s.len() ==> is_digit(#[trigger] s[i])
}

/// The number that a string of decimal digits denotes.
pub open spec fn value_of(s: Seq<u8>) -> nat
    decreases s.len(),
{
    if s.len() == 0 {
        0
    } else {
        value_of(s.drop_last()) * 10 + (s.last() - DIGIT_ZERO) as nat
    }
}

impl Timestamp {
    pub open spec fn valid(self) -> bool {
        self.year <= 9999
            && 1 <= self.month <= 12
            && 1 <= self.day <= days_in_month(self.year as int, self.month as int)
            && self.hour < 24
            && self.minute < 60
            && self.second < 60
            && self.micro < 1_000_000
    }

    /// Strict chronological order: lexicographic on the calendar fields.
    pub open spec fn before(self, other: Timestamp) -> bool {
        if self.year != other.year {
            self.year < other.year
        } else if self.month != other.month {
            self.month < other.month
        } else if self.day != other.day {
            self.day < other.day
        } else if self.hour != other.hour {
            self.hour < other.hour
        } else if self.minute != other.minute {
            self.minute < other.minute
        } else if self.second != other.second {
            self.second < other.second
        } else {
            self.micro < other.micro
        }
    }

    /// The text form of a timestamp.
    pub open spec fn text(self) -> Seq<u8> {
        digits(self.year as nat, 4) + seq![DASH] + digits(self.month as nat, 2) + seq![DASH]
            + digits(self.day as nat, 2) + seq![LETTER_T] + digits(self.hour as nat, 2)
            + seq![COLON] + digits(self.minute as nat, 2) + seq![COLON]
            + digits(self.second as nat, 2) + seq![DOT] + digits(self.micro as nat, 6)
            + seq![LETTER_Z]
    }

    /// `s` has the layout of the text form: the length, the separators and
    /// digits everywhere else.
    pub open spec fn has_text_layout(s: Seq<u8>) -> bool {
        s.len() == TEXT_LEN && s[4] == DASH && s[7] == DASH && s[10] == LETTER_T
            && s[13] == COLON && s[16] == COLON && s[19] == DOT && s[26] == LETTER_Z
            && all_digits(s.subrange(0, 4)) && all_digits(s.subrange(5, 7))
            && all_digits(s.subrange(8, 10)) && all_digits(s.subrange(11, 13))
            && all_digits(s.subrange(14, 16)) && all_digits(s.subrange(17, 19))
            && all_digits(s.subrange(20, 26))
    }

    /// The fields read off a text of the right layout.
    pub open spec fn fields_of(s: Seq<u8>) -> Timestamp {
        Timestamp {
            year: value_of(s.subrange(0, 4)) as u16,
            month: value_of(s.subrange(5, 7)) as u8,
            day: value_of(s.subrange(8, 10)) as u8,
            hour: value_of(s.subrange(11, 13)) as u8,
            minute: value_of(s.subrange(14, 16)) as u8,
            second: value_of(s.subrange(17, 19)) as u8,
            micro: value_of(s.subrange(20, 26)) as u32,
        }
    }

    /// What parsing `s` gives: the timestamp it writes, if it is the text form
    /// of a valid timestamp.
    pub open spec fn parse_spec(s: Seq<u8>) -> Option<Timestamp> {
        if Self::has_text_layout(s) && Self::fields_of(s).valid() {
            Some(Self::fields_of(s))
        } else {
            None
        }
    }
}

/// The digits of `n` are `w` decimal digits that read back as `n` when `n`
/// fits in them.
pub proof fn lemma_digits(n: nat, w: nat)
    ensures
        digits(n, w).len() == w,
        all_digits(digits(n, w)),
        n < pow10(w) ==> value_of(digits(n, w)) == n,
    decreases w,
{
    if w > 0 {
        let w1 = (w - 1) as nat;
        lemma_digits(n / 10, w1);
        let d = digits(n, w);
        assert(d.drop_last() =~= digits(n / 10, w1));
        if n < pow10(w) {
            assert(n / 10 < pow10(w1)) by (nonlinear_arith)
                requires n < pow10(w), pow10(w) == 10 * pow10(w1);
        }
    }
}

/// A string of digits is the `w`-digit form of the number it reads as.
pub proof fn lemma_value_digits(s: Seq<u8>)
    requires
        all_digits(s),
    ensures
        value_of(s) < pow10(s.len()),
        digits(value_of(s), s.len()) == s,
    decreases s.len(),
{
    if s.len() > 0 {
        let p = s.drop_last();
        assert(all_digits(p)) by {
            assert forall|i: int| 0 <= i < p.len() implies is_digit(#[trigger] p[i]) by {
                assert(p[i] == s[i]);
            }
        }
        lemma_value_digits(p);
        let a = value_of(p);
        let d = (s.last() - DIGIT_ZERO) as nat;
        assert(is_digit(s[s.len() - 1]));
        assert(d < 10);
        let v = value_of(s);
        assert(v == a * 10 + d);
        assert(v / 10 == a && v % 10 == d) by (nonlinear_arith)
            requires v == a * 10 + d, d < 10;
        assert(v < pow10(s.len())) by (nonlinear_arith)
            requires v == a * 10 + d, d < 10, a < pow10(p.len()),
                pow10(s.len()) == 10 * pow10(p.len());
        assert(digits(v, s.len()) =~= s);
    }
}

/// The digits of `n` appended to `out`.
fn push_digits(out: &mut Vec<u8>, n: u32, w: usize)
    ensures
        final(out)@ == old(out)@ + digits(n as nat, w as nat),
    decreases w,
{
    if w > 0 {
        push_digits(out, n / 10, w - 1);
        out.push(DIGIT_ZERO + (n % 10) as u8);
        assert(final(out)@ =~= old(out)@ + digits(n as nat, w as nat));
    }
}

/// Whether every byte of `s[lo..hi]` is a decimal digit.
fn digits_between(s: &[u8], lo: usize, hi: usize) -> (r: bool)
    requires
        lo <= hi <= s@.len(),
    ensures
        r == all_digits(s@.subrange(lo as int, hi as int)),
{
    let mut i: usize = lo;
    while i < hi
        invariant
            lo <= i <= hi <= s@.len(),
            all_digits(s@.subrange(lo as int, i as int)),
        decreases hi - i,
    {
        if s[i] < DIGIT_ZERO || s[i] > DIGIT_ZERO + 9 {
            assert(!is_digit(s@.subrange(lo as int, hi as int)[i - lo]));
            return false;
        }
        assert forall|k: int| 0 <= k < i + 1 - lo implies is_digit(
            #[trigger] s@.subrange(lo as int, i + 1)[k],
        ) by {
            if k < i - lo {
                assert(s@.subrange(lo as int, i + 1)[k] == s@.subrange(lo as int, i as int)[k]);
            }
        }
        i = i + 1;
    }
    true
}

/// The number written by the digits `s[lo..hi]`.
fn number_between(s: &[u8], lo: usize, hi: usize) -> (r: u32)
    requires
        lo <= hi <= s@.len(),
        hi - lo <= 6,
        all_digits(s@.subrange(lo as int, hi as int)),
    ensures
        r as nat == value_of(s@.subrange(lo as int, hi as int)),
{
    let mut acc: u32 = 0;
    let mut i: usize = lo;
    proof {
        assert(s@.subrange(lo as int, lo as int).len() == 0);
    }
    while i < hi
        invariant
            lo <= i <= hi <= s@.len(),
            hi - lo <= 6,
            all_digits(s@.subrange(lo as int, hi as int)),
            acc as nat == value_of(s@.subrange(lo as int, i as int)),
            acc < pow10((i - lo) as nat),
        decreases hi - i,
    {
        let ghost sub = s@.subrange(lo as int, (i + 1) as int);
        assert(sub.drop_last() =~= s@.subrange(lo as int, i as int));
        assert(is_digit(s@.subrange(lo as int, hi as int)[i - lo]));
        let d = s[i] - DIGIT_ZERO;
        proof {
            let k = (i - lo) as nat;
            assert(pow10(k) <= 100000) by {
                reveal_with_fuel(pow10, 7);
            }
            assert(acc * 10 + d < pow10(k + 1)) by (nonlinear_arith)
                requires acc < pow10(k), d < 10, pow10(k + 1) == 10 * pow10(k);
        }
        acc = acc * 10 + d as u32;
        i = i + 1;
    }
    acc
}

impl Timestamp {
    fn month_days(y: u16, m: u8) -> (r: u8)
        ensures
            r as int == days_in_month(y as int, m as int),
    {
        if m == 2 {
            if (y % 4 == 0 && y % 100 != 0) || y % 400 == 0 {
                29
            } else {
                28
            }
        } else if m == 4 || m == 6 || m == 9 || m == 11 {
            30
        } else {
            31
        }
    }

    /// Whether the fields name a real instant.
    pub fn is_valid(&self) -> (r: bool)
        ensures
            r == self.valid(),
    {
        self.year <= 9999 && 1 <= self.month && self.month <= 12 && 1 <= self.day
            && self.day <= Self::month_days(self.year, self.month) && self.hour < 24
            && self.minute < 60 && self.second < 60 && self.micro < 1_000_000
    }

    /// Whether `self` lies strictly before `other`.
    pub fn is_before(&self, other: &Timestamp) -> (r: bool)
        ensures
            r == self.before(*other),
    {
        if self.year != other.year {
            self.year < other.year
        } else if self.month != other.month {
            self.month < other.month
        } else if self.day != other.day {
            self.day < other.day
        } else if self.hour != other.hour {
            self.hour < other.hour
        } else if self.minute != other.minute {
            self.minute < other.minute
        } else if self.second != other.second {
            self.second < other.second
        } else {
            self.micro < other.micro
        }
    }

    /// The RFC 3339 text of the timestamp.
    pub fn format(&self) -> (r: Vec<u8>)
        ensures
            r@ == self.text(),
    {
        let mut out: Vec<u8> = Vec::new();
        push_digits(&mut out, self.year as u32, 4);
        out.push(DASH);
        push_digits(&mut out, self.month as u32, 2);
        out.push(DASH);
        push_digits(&mut out, self.day as u32, 2);
        out.push(LETTER_T);
        push_digits(&mut out, self.hour as u32, 2);
        out.push(COLON);
        push_digits(&mut out, self.minute as u32, 2);
        out.push(COLON);
        push_digits(&mut out, self.second as u32, 2);
        out.push(DOT);
        push_digits(&mut out, self.micro, 6);
        out.push(LETTER_Z);
        assert(out@ =~= self.text());
        out
    }

    /// Reads a timestamp from its RFC 3339 text; `None` unless `s` is exactly
    /// the text form of a valid timestamp.
    pub fn parse(s: &[u8]) -> (r: Option<Timestamp>)
        ensures
            r == Self::parse_spec(s@),
    {
        if s.len() != TEXT_LEN || s[4] != DASH || s[7] != DASH || s[10] != LETTER_T
            || s[13] != COLON || s[16] != COLON || s[19] != DOT || s[26] != LETTER_Z
            || !digits_between(s, 0, 4) || !digits_between(s, 5, 7)
            || !digits_between(s, 8, 10) || !digits_between(s, 11, 13)
            || !digits_between(s, 14, 16) || !digits_between(s, 17, 19)
            || !digits_between(s, 20, 26) {
            return None;
        }
        proof {
            lemma_value_digits(s@.subrange(0, 4));
            lemma_value_digits(s@.subrange(5, 7));
            lemma_value_digits(s@.subrange(8, 10));
            lemma_value_digits(s@.subrange(11, 13));
            lemma_value_digits(s@.subrange(14, 16));
            lemma_value_digits(s@.subrange(17, 19));
            lemma_value_digits(s@.subrange(20, 26));
            reveal_with_fuel(pow10, 7);
        }
        let t = Timestamp {
            year: number_between(s, 0, 4) as u16,
            month: number_between(s, 5, 7) as u8,
            day: number_between(s, 8, 10) as u8,
            hour: number_between(s, 11, 13) as u8,
            minute: number_between(s, 14, 16) as u8,
            second: number_between(s, 17, 19) as u8,
            micro: number_between(s, 20, 26),
        };
        if t.is_valid() {
            Some(t)
        } else {
            None
        }
    }
}

proof fn lemma_text_pieces(t: Timestamp)
    ensures
        t.text().len() == TEXT_LEN,
        t.text().subrange(0, 4) == digits(t.year as nat, 4),
        t.text().subrange(5, 7) == digits(t.month as nat, 2),
        t.text().subrange(8, 10) == digits(t.day as nat, 2),
        t.text().subrange(11, 13) == digits(t.hour as nat, 2),
        t.text().subrange(14, 16) == digits(t.minute as nat, 2),
        t.text().subrange(17, 19) == digits(t.second as nat, 2),
        t.text().subrange(20, 26) == digits(t.micro as nat, 6),
        t.text()[4] == DASH && t.text()[7] == DASH && t.text()[10] == LETTER_T,
        t.text()[13] == COLON && t.text()[16] == COLON && t.text()[19] == DOT,
        t.text()[26] == LETTER_Z,
{
    lemma_digits(t.year as nat, 4);
    lemma_digits(t.month as nat, 2);
    lemma_digits(t.day as nat, 2);
    lemma_digits(t.hour as nat, 2);
    lemma_digits(t.minute as nat, 2);
    lemma_digits(t.second as nat, 2);
    lemma_digits(t.micro as nat, 6);
    let x = t.text();
    assert(x.subrange(0, 4) =~= digits(t.year as nat, 4));
    assert(x.subrange(5, 7) =~= digits(t.month as nat, 2));
    assert(x.subrange(8, 10) =~= digits(t.day as nat, 2));
    assert(x.subrange(11, 13) =~= digits(t.hour as nat, 2));
    assert(x.subrange(14, 16) =~= digits(t.minute as nat, 2));
    assert(x.subrange(17, 19) =~= digits(t.second as nat, 2));
    assert(x.subrange(20, 26) =~= digits(t.micro as nat, 6));
}

/// Parsing the text of a valid timestamp gives that timestamp back.
pub proof fn lemma_parse_text(t: Timestamp)
    requires
        t.valid(),
    ensures
        Timestamp::parse_spec(t.text()) == Some(t),
{
    lemma_text_pieces(t);
    reveal_with_fuel(pow10, 7);
    lemma_digits(t.year as nat, 4);
    lemma_digits(t.month as nat, 2);
    lemma_digits(t.day as nat, 2);
    lemma_digits(t.hour as nat, 2);
    lemma_digits(t.minute as nat, 2);
    lemma_digits(t.second as nat, 2);
    lemma_digits(t.micro as nat, 6);
    assert(Timestamp::fields_of(t.text()) == t);
}

/// Every text that parses is the text of what it parses to: writing a parsed
/// timestamp out again gives the same bytes.
pub proof fn lemma_text_of_parsed(s: Seq<u8>)
    requires
        Timestamp::parse_spec(s) is Some,
    ensures
        Timestamp::parse_spec(s).unwrap().text() == s,
{
    let t = Timestamp::parse_spec(s).unwrap();
    reveal_with_fuel(pow10, 7);
    lemma_value_digits(s.subrange(0, 4));
    lemma_value_digits(s.subrange(5, 7));
    lemma_value_digits(s.subrange(8, 10));
    lemma_value_digits(s.subrange(11, 13));
    lemma_value_digits(s.subrange(14, 16));
    lemma_value_digits(s.subrange(17, 19));
    lemma_value_digits(s.subrange(20, 26));
    lemma_text_pieces(t);
    let x = t.text();
    assert forall|i: int| 0 <= i < TEXT_LEN implies x[i] == s[i] by {
        if i < 4 {
            assert(x.subrange(0, 4)[i] == s.subrange(0, 4)[i]);
        } else if 5 <= i < 7 {
            assert(x.subrange(5, 7)[i - 5] == s.subrange(5, 7)[i - 5]);
        } else if 8 <= i < 10 {
            assert(x.subrange(8, 10)[i - 8] == s.subrange(8, 10)[i - 8]);
        } else if 11 <= i < 13 {
            assert(x.subrange(11, 13)[i - 11] == s.subrange(11, 13)[i - 11]);
        } else if 14 <= i < 16 {
            assert(x.subrange(14, 16)[i - 14] == s.subrange(14, 16)[i - 14]);
        } else if 17 <= i < 19 {
            assert(x.subrange(17, 19)[i - 17] == s.subrange(17, 19)[i - 17]);
        } else if 20 <= i < 26 {
            assert(x.subrange(20, 26)[i - 20] == s.subrange(20, 26)[i - 20]);
        }
    }
    assert(x =~= s);
}

/// Round trip of the text form: for a valid timestamp, writing, reading and
/// writing again yields the same bytes and the same timestamp.
pub proof fn lemma_text_round_trip(t: Timestamp)
    requires
        t.valid(),
    ensures
        Timestamp::parse_spec(t.text()) == Some(t),
        Timestamp::parse_spec(t.text()).unwrap().text() == t.text(),
{
    lemma_parse_text(t);
}

/// `before` is a strict order.
pub proof fn lemma_before_order(a: Timestamp, b: Timestamp, c: Timestamp)
    ensures
        !a.before(a),
        a.before(b) ==> !b.before(a),
        a.before(b) && b.before(c) ==> a.before(c),
        a.before(b) || b.before(a) || a == b,
{
}

} // verus!
