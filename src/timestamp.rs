use vstd::prelude::*;

verus! {

/// The ASCII byte of the decimal digit `d` (`d < 10`).
pub open spec fn digit_byte(d: nat) -> u8 {
    (48 + d) as u8
}

/// The decimal digits of `n`, most significant first, padded on the left
/// with zeros to at least `width` digits.
pub open spec fn decimal(n: nat, width: nat) -> Seq<u8>
    decreases n + width,
{
    if n < 10 && width <= 1 {
        seq![digit_byte(n)]
    } else {
        decimal(n / 10, if width > 0 { (width - 1) as nat } else { 0 }) + seq![digit_byte(n % 10)]
    }
}

/// Appends the decimal digits of `n`, padded with zeros to at least `width` digits.
pub fn push_decimal(out: &mut Vec<u8>, n: u64, width: u64)
    ensures
        final(out)@ == old(out)@ + decimal(n as nat, width as nat),
    decreases n + width,
{
    if n >= 10 || width > 1 {
        let rest_width: u64 = if width > 0 { width - 1 } else { 0 };
        push_decimal(out, n / 10, rest_width);
    }
    out.push((48 + n % 10) as u8);
}


pub const NANOS_PER_SECOND: u32 = 1_000_000_000;

pub const MINUS: u8 = 45;
pub const PLUS: u8 = 43;
pub const SPACE: u8 = 32;
pub const COLON: u8 = 58;
pub const DOT: u8 = 46;
pub const NEWLINE: u8 = 10;

/// A local wall-clock reading: calendar date, time of day, and the offset of
/// the local zone from UTC. A `nanosecond` of a billion or more marks a leap
/// second, as the clock reports it.
#[derive(Clone, Copy, Debug, PartialEq, Eq)]
pub struct Timestamp {
    pub year: i32,
    pub month: u32,
    pub day: u32,
    pub hour: u32,
    pub minute: u32,
    pub second: u32,
    pub nanosecond: u32,
    /// Local time minus UTC, in seconds.
    pub offset_seconds: i32,
}

impl Timestamp {
    /// The ranges within which each field of a clock reading lies.
    pub open spec fn wf(&self) -> bool {
        &&& 1 <= self.month <= 12
        &&& 1 <= self.day <= 31
        &&& self.hour < 24
        &&& self.minute < 60
        &&& self.second < 60
        &&& self.nanosecond < 2 * NANOS_PER_SECOND
        &&& -86_400 < self.offset_seconds < 86_400
    }

    /// Builds a reading from its fields, or `None` where one is out of range.
    pub fn new(
        year: i32,
        month: u32,
        day: u32,
        hour: u32,
        minute: u32,
        second: u32,
        nanosecond: u32,
        offset_seconds: i32,
    ) -> (r: Option<Timestamp>)
        ensures
            r is Some <==> (Timestamp {
                year, month, day, hour, minute, second, nanosecond, offset_seconds,
            }).wf(),
            r is Some ==> r->0 == (Timestamp {
                year, month, day, hour, minute, second, nanosecond, offset_seconds,
            }),
    {
        let t = Timestamp { year, month, day, hour, minute, second, nanosecond, offset_seconds };
        if 1 <= month && month <= 12 && 1 <= day && day <= 31 && hour < 24 && minute < 60
            && second < 60 && nanosecond < 2 * NANOS_PER_SECOND && -86_400 < offset_seconds
            && offset_seconds < 86_400 {
            Some(t)
        } else {
            None
        }
    }

    /// The second shown: 60 during a leap second.
    pub open spec fn shown_second(&self) -> nat {
        (self.second + self.nanosecond / NANOS_PER_SECOND) as nat
    }

    /// The microseconds within the shown second.
    pub open spec fn micros(&self) -> nat {
        ((self.nanosecond % NANOS_PER_SECOND) / 1000) as nat
    }
}

/// A year as four digits, or with a sign and at least four digits outside 0..=9999.
pub open spec fn year_text(y: int) -> Seq<u8> {
    if 0 <= y <= 9999 {
        decimal(y as nat, 4)
    } else if y < 0 {
        seq![MINUS] + decimal((-y) as nat, 4)
    } else {
        seq![PLUS] + decimal(y as nat, 4)
    }
}

/// A zone offset as a sign, two digits of hours and two of minutes.
pub open spec fn offset_text(off: int) -> Seq<u8> {
    let a: int = if off < 0 { -off } else { off };
    seq![if off < 0 { MINUS } else { PLUS }] + decimal((a / 3600) as nat, 2) + decimal(
        ((a % 3600) / 60) as nat,
        2,
    )
}

/// A reading as text: `YYYY-MM-DD HH:MM:SS.ffffff +HHMM`.
pub open spec fn render(t: Timestamp) -> Seq<u8> {
    year_text(t.year as int) + seq![MINUS] + decimal(t.month as nat, 2) + seq![MINUS] + decimal(
        t.day as nat,
        2,
    ) + seq![SPACE] + decimal(t.hour as nat, 2) + seq![COLON] + decimal(t.minute as nat, 2)
        + seq![COLON] + decimal(t.shown_second(), 2) + seq![DOT] + decimal(t.micros(), 6)
        + seq![SPACE] + offset_text(t.offset_seconds as int)
}

/// What the server sends for a reading: its text and one newline.
pub open spec fn payload(t: Timestamp) -> Seq<u8> {
    render(t) + seq![NEWLINE]
}

fn push_year(out: &mut Vec<u8>, y: i32)
    ensures
        final(out)@ == old(out)@ + year_text(y as int),
{
    if 0 <= y && y <= 9999 {
        push_decimal(out, y as u64, 4);
    } else if y < 0 {
        out.push(MINUS);
        push_decimal(out, (-(y as i64)) as u64, 4);
    } else {
        out.push(PLUS);
        push_decimal(out, y as u64, 4);
    }
    assert(final(out)@ =~= old(out)@ + year_text(y as int));
}

fn push_offset(out: &mut Vec<u8>, off: i32)
    ensures
        final(out)@ == old(out)@ + offset_text(off as int),
{
    let a: u64 = if off < 0 { (-(off as i64)) as u64 } else { off as u64 };
    out.push(if off < 0 { MINUS } else { PLUS });
    push_decimal(out, a / 3600, 2);
    push_decimal(out, (a % 3600) / 60, 2);
    assert(final(out)@ =~= old(out)@ + offset_text(off as int));
}

/// The bytes sent for the reading `t`.
pub fn format_payload(t: &Timestamp) -> (r: Vec<u8>)
    ensures
        r@ == payload(*t),
{
    let mut out: Vec<u8> = Vec::new();
    push_year(&mut out, t.year);
    out.push(MINUS);
    push_decimal(&mut out, t.month as u64, 2);
    out.push(MINUS);
    push_decimal(&mut out, t.day as u64, 2);
    out.push(SPACE);
    push_decimal(&mut out, t.hour as u64, 2);
    out.push(COLON);
    push_decimal(&mut out, t.minute as u64, 2);
    out.push(COLON);
    push_decimal(&mut out, t.second as u64 + (t.nanosecond / NANOS_PER_SECOND) as u64, 2);
    out.push(DOT);
    push_decimal(&mut out, ((t.nanosecond % NANOS_PER_SECOND) / 1000) as u64, 6);
    out.push(SPACE);
    push_offset(&mut out, t.offset_seconds);
    out.push(NEWLINE);
    assert(out@ =~= payload(*t));
    out
}


/// No byte of `s` is a newline.
pub open spec fn newline_free(s: Seq<u8>) -> bool {
    forall|i: int| 0 <= i < s.len() ==> s[i] != NEWLINE
}

proof fn lemma_decimal_newline_free(n: nat, width: nat)
    ensures
        newline_free(decimal(n, width)),
        decimal(n, width).len() >= 1,
    decreases n + width,
{
    if !(n < 10 && width <= 1) {
        let w = if width > 0 { (width - 1) as nat } else { 0 };
        lemma_decimal_newline_free(n / 10, w);
        let a = decimal(n / 10, w);
        let b = seq![digit_byte(n % 10)];
        assert forall|i: int| 0 <= i < (a + b).len() implies (a + b)[i] != NEWLINE by {
            if i >= a.len() {
                assert((a + b)[i] == b[i - a.len()]);
            }
        }
    }
}

proof fn lemma_concat_newline_free(a: Seq<u8>, b: Seq<u8>)
    requires
        newline_free(a),
        newline_free(b),
    ensures
        newline_free(a + b),
{
    assert forall|i: int| 0 <= i < (a + b).len() implies (a + b)[i] != NEWLINE by {
        if i >= a.len() {
            assert((a + b)[i] == b[i - a.len()]);
        }
    }
}

proof fn lemma_render_newline_free(t: Timestamp)
    ensures
        newline_free(render(t)),
{
    let y = t.year as int;
    lemma_decimal_newline_free(if y < 0 { (-y) as nat } else { y as nat }, 4);
    assert(newline_free(seq![MINUS]));
    assert(newline_free(seq![PLUS]));
    assert(newline_free(seq![SPACE]));
    assert(newline_free(seq![COLON]));
    assert(newline_free(seq![DOT]));
    if 0 <= y <= 9999 {
    } else if y < 0 {
        lemma_concat_newline_free(seq![MINUS], decimal((-y) as nat, 4));
    } else {
        lemma_concat_newline_free(seq![PLUS], decimal(y as nat, 4));
    }
    let off = t.offset_seconds as int;
    let a: int = if off < 0 { -off } else { off };
    lemma_decimal_newline_free((a / 3600) as nat, 2);
    lemma_decimal_newline_free(((a % 3600) / 60) as nat, 2);
    let sign = seq![if off < 0 { MINUS } else { PLUS }];
    assert(newline_free(sign));
    lemma_concat_newline_free(sign, decimal((a / 3600) as nat, 2));
    lemma_concat_newline_free(sign + decimal((a / 3600) as nat, 2), decimal(((a % 3600) / 60) as nat, 2));
    lemma_decimal_newline_free(t.month as nat, 2);
    lemma_decimal_newline_free(t.day as nat, 2);
    lemma_decimal_newline_free(t.hour as nat, 2);
    lemma_decimal_newline_free(t.minute as nat, 2);
    lemma_decimal_newline_free(t.shown_second(), 2);
    lemma_decimal_newline_free(t.micros(), 6);
    let s0 = year_text(y);
    lemma_concat_newline_free(s0, seq![MINUS]);
    let s1 = s0 + seq![MINUS];
    lemma_concat_newline_free(s1, decimal(t.month as nat, 2));
    let s2 = s1 + decimal(t.month as nat, 2);
    lemma_concat_newline_free(s2, seq![MINUS]);
    let s3 = s2 + seq![MINUS];
    lemma_concat_newline_free(s3, decimal(t.day as nat, 2));
    let s4 = s3 + decimal(t.day as nat, 2);
    lemma_concat_newline_free(s4, seq![SPACE]);
    let s5 = s4 + seq![SPACE];
    lemma_concat_newline_free(s5, decimal(t.hour as nat, 2));
    let s6 = s5 + decimal(t.hour as nat, 2);
    lemma_concat_newline_free(s6, seq![COLON]);
    let s7 = s6 + seq![COLON];
    lemma_concat_newline_free(s7, decimal(t.minute as nat, 2));
    let s8 = s7 + decimal(t.minute as nat, 2);
    lemma_concat_newline_free(s8, seq![COLON]);
    let s9 = s8 + seq![COLON];
    lemma_concat_newline_free(s9, decimal(t.shown_second(), 2));
    let s10 = s9 + decimal(t.shown_second(), 2);
    lemma_concat_newline_free(s10, seq![DOT]);
    let s11 = s10 + seq![DOT];
    lemma_concat_newline_free(s11, decimal(t.micros(), 6));
    let s12 = s11 + decimal(t.micros(), 6);
    lemma_concat_newline_free(s12, seq![SPACE]);
    let s13 = s12 + seq![SPACE];
    lemma_concat_newline_free(s13, offset_text(off));
}

/// Every payload is non-empty, ends with a newline, and holds no other newline.
pub proof fn lemma_payload_single_newline(t: Timestamp)
    ensures
        payload(t).len() > 0,
        payload(t).last() == NEWLINE,
        forall|i: int| 0 <= i < payload(t).len() - 1 ==> payload(t)[i] != NEWLINE,
{
    lemma_render_newline_free(t);
    assert forall|i: int| 0 <= i < payload(t).len() - 1 implies payload(t)[i] != NEWLINE by {
        assert(payload(t)[i] == render(t)[i]);
    }
}

} // verus!
