//! Cadence expressions: a cron-like textual schedule grammar.
//!
//! An expression has five fields (`minute hour day-of-month month
//! day-of-week`) or six (the same with `second` prepended), separated by
//! single spaces. Each field is `*` (any value), `*/k` (every `k` units,
//! counted from the low end of the field's range) or a one- or two-digit
//! value inside the field's range. A five-field expression fires at
//! second zero of a matching minute.

use crate::errors::RegistrationError;
use vstd::prelude::*;

verus! {

/// One instant of wall-clock time, reduced to the parts a cadence
/// expression can test.
#[derive(Clone, Copy, Debug, PartialEq, Eq, Structural)]
pub struct WallTime {
    pub second: u8,
    pub minute: u8,
    pub hour: u8,
    /// 1-based day of the month.
    pub day_of_month: u8,
    /// 1-based month.
    pub month: u8,
    /// 0 = Sunday through 6 = Saturday.
    pub day_of_week: u8,
}

impl WallTime {
    /// Every part is inside its calendar range.
    pub open spec fn wf(self) -> bool {
        &&& self.second <= 59
        &&& self.minute <= 59
        &&& self.hour <= 23
        &&& 1 <= self.day_of_month <= 31
        &&& 1 <= self.month <= 12
        &&& self.day_of_week <= 6
    }

    /// Decides [`WallTime::wf`], for callers that build an instant from
    /// an outside clock.
    pub fn check(&self) -> (r: bool)
        ensures
            r == self.wf(),
    {
        self.second <= 59 && self.minute <= 59 && self.hour <= 23 && 1 <= self.day_of_month
            && self.day_of_month <= 31 && 1 <= self.month && self.month <= 12 && self.day_of_week
            <= 6
    }
}

/// One field of a parsed cadence expression.
#[derive(Clone, Copy, Debug, PartialEq, Eq, Structural)]
pub enum CadenceField {
    /// `*`: any value.
    Any,
    /// `*/k`: every `k` units, counted from the low end of the range.
    Step(u8),
    /// A single fixed value.
    Exact(u8),
}

/// A parsed field is confined to the `lo..=hi` range of its position.
pub open spec fn field_wf(f: CadenceField, lo: u8, hi: u8) -> bool {
    match f {
        CadenceField::Any => true,
        CadenceField::Step(k) => 1 <= k <= hi,
        CadenceField::Exact(n) => lo <= n <= hi,
    }
}

/// Whether a field accepts the value `v`, for a field whose range starts
/// at `lo`.
pub open spec fn field_fires(f: CadenceField, v: u8, lo: u8) -> bool {
    match f {
        CadenceField::Any => true,
        CadenceField::Step(k) => k > 0 && v >= lo && (v as int - lo as int) % (k as int) == 0,
        CadenceField::Exact(n) => v == n,
    }
}

/// ASCII decimal digit.
pub open spec fn is_digit(c: char) -> bool {
    48 <= c as u32 <= 57
}

/// Value of an ASCII decimal digit.
pub open spec fn digit_val(c: char) -> int {
    c as u32 - 48
}

/// A one- or two-digit decimal number (cron values never need more).
pub open spec fn num_ok(s: Seq<char>) -> bool {
    ||| (s.len() == 1 && is_digit(s[0]))
    ||| (s.len() == 2 && is_digit(s[0]) && is_digit(s[1]))
}

/// Value of a one- or two-digit decimal number.
pub open spec fn num_val(s: Seq<char>) -> int {
    if s.len() == 1 {
        digit_val(s[0])
    } else {
        10 * digit_val(s[0]) + digit_val(s[1])
    }
}

/// The textual grammar of one field, for a position with range `lo..=hi`.
pub open spec fn field_grammar_ok(s: Seq<char>, lo: u8, hi: u8) -> bool {
    ||| (s.len() == 1 && s[0] == '*')
    ||| (s.len() >= 3 && s[0] == '*' && s[1] == '/' && num_ok(s.skip(2)) && 1 <= num_val(
        s.skip(2),
    ) <= hi)
    ||| (num_ok(s) && lo <= num_val(s) <= hi)
}

/// The field a well-formed token denotes. Meaningful only when
/// [`field_grammar_ok`] holds of `s`.
pub open spec fn field_of(s: Seq<char>, lo: u8, hi: u8) -> CadenceField {
    if s.len() == 1 && s[0] == '*' {
        CadenceField::Any
    } else if s.len() >= 2 && s[0] == '*' && s[1] == '/' {
        CadenceField::Step(num_val(s.skip(2)) as u8)
    } else {
        CadenceField::Exact(num_val(s) as u8)
    }
}

/// Splits a character sequence at every space, keeping empty tokens, so
/// that a run of spaces or a leading/trailing space yields an empty
/// token and is rejected by the field grammar.
pub open spec fn split_fields(s: Seq<char>) -> Seq<Seq<char>>
    decreases s.len(),
{
    if s.len() == 0 {
        seq![Seq::<char>::empty()]
    } else if s[0] == ' ' {
        seq![Seq::<char>::empty()].add(split_fields(s.skip(1)))
    } else {
        let rest = split_fields(s.skip(1));
        seq![seq![s[0]].add(rest[0])].add(rest.skip(1))
    }
}

proof fn lemma_split_fields_len(s: Seq<char>)
    ensures
        split_fields(s).len() >= 1,
    decreases s.len(),
{
    if s.len() == 0 {
    } else {
        lemma_split_fields_len(s.skip(1));
    }
}

/// How the split of `s.push(c)` relates to the split of `s`: a space
/// opens a fresh empty token, any other character extends the last one.
proof fn lemma_split_fields_push(s: Seq<char>, c: char)
    ensures
        c == ' ' ==> split_fields(s.push(c)) == split_fields(s).push(Seq::<char>::empty()),
        c != ' ' ==> split_fields(s.push(c)) == split_fields(s).update(
            split_fields(s).len() - 1,
            split_fields(s).last().push(c),
        ),
    decreases s.len(),
{
    lemma_split_fields_len(s);
    if s.len() == 0 {
        assert(s =~= Seq::<char>::empty());
        assert(s.push(c) =~= seq![c]);
        assert(s.push(c).skip(1) =~= Seq::<char>::empty());
        assert(split_fields(Seq::<char>::empty()) == seq![Seq::<char>::empty()]);
        assert(s.push(c)[0] == c);
        if c == ' ' {
            assert(split_fields(s.push(c)) =~~= split_fields(s).push(Seq::<char>::empty()));
        } else {
            assert(split_fields(s.push(c)) =~~= split_fields(s).update(
                0,
                split_fields(s).last().push(c),
            ));
        }
    } else {
        lemma_split_fields_len(s.skip(1));
        lemma_split_fields_push(s.skip(1), c);
        assert(s.push(c).skip(1) =~= s.skip(1).push(c));
        assert(s.push(c)[0] == s[0]);
        if s[0] == ' ' {
            if c == ' ' {
                assert(split_fields(s.push(c)) =~~= split_fields(s).push(Seq::<char>::empty()));
            } else {
                assert(split_fields(s.push(c)) =~~= split_fields(s).update(
                    split_fields(s).len() - 1,
                    split_fields(s).last().push(c),
                ));
            }
        } else {
            let rest = split_fields(s.skip(1));
            if c == ' ' {
                assert(split_fields(s.skip(1).push(c)) == rest.push(Seq::<char>::empty()));
                assert(split_fields(s.push(c)) =~~= split_fields(s).push(Seq::<char>::empty()));
            } else {
                assert(split_fields(s.skip(1).push(c)) == rest.update(
                    rest.len() - 1,
                    rest.last().push(c),
                ));
                assert(split_fields(s.push(c)) =~~= split_fields(s).update(
                    split_fields(s).len() - 1,
                    split_fields(s).last().push(c),
                ));
            }
        }
    }
}

/// A parsed cadence expression. A five-field expression carries
/// `Exact(0)` as its second field, so it fires once per matching minute.
#[derive(Clone, Copy, Debug, PartialEq, Eq, Structural)]
pub struct Cadence {
    pub second: CadenceField,
    pub minute: CadenceField,
    pub hour: CadenceField,
    pub day_of_month: CadenceField,
    pub month: CadenceField,
    pub day_of_week: CadenceField,
}

/// The whole grammar: five or six single-space-separated fields, each
/// well-formed for its position's range.
pub open spec fn cadence_ok(s: Seq<char>) -> bool {
    let fs = split_fields(s);
    if fs.len() == 5 {
        &&& field_grammar_ok(fs[0], 0, 59)
        &&& field_grammar_ok(fs[1], 0, 23)
        &&& field_grammar_ok(fs[2], 1, 31)
        &&& field_grammar_ok(fs[3], 1, 12)
        &&& field_grammar_ok(fs[4], 0, 6)
    } else if fs.len() == 6 {
        &&& field_grammar_ok(fs[0], 0, 59)
        &&& field_grammar_ok(fs[1], 0, 59)
        &&& field_grammar_ok(fs[2], 0, 23)
        &&& field_grammar_ok(fs[3], 1, 31)
        &&& field_grammar_ok(fs[4], 1, 12)
        &&& field_grammar_ok(fs[5], 0, 6)
    } else {
        false
    }
}

/// The cadence a well-formed expression denotes. Meaningful only when
/// [`cadence_ok`] holds of `s`.
pub open spec fn cadence_of(s: Seq<char>) -> Cadence {
    let fs = split_fields(s);
    if fs.len() == 6 {
        Cadence {
            second: field_of(fs[0], 0, 59),
            minute: field_of(fs[1], 0, 59),
            hour: field_of(fs[2], 0, 23),
            day_of_month: field_of(fs[3], 1, 31),
            month: field_of(fs[4], 1, 12),
            day_of_week: field_of(fs[5], 0, 6),
        }
    } else {
        Cadence {
            second: CadenceField::Exact(0),
            minute: field_of(fs[0], 0, 59),
            hour: field_of(fs[1], 0, 23),
            day_of_month: field_of(fs[2], 1, 31),
            month: field_of(fs[3], 1, 12),
            day_of_week: field_of(fs[4], 0, 6),
        }
    }
}

/// Cuts the expression into its space-separated tokens, exactly as
/// [`split_fields`] describes.
fn tokenize(s: &str) -> (toks: Vec<Vec<char>>)
    ensures
        toks@.map_values(|t: Vec<char>| t@) == split_fields(s@),
{
    let n = s.unicode_len();
    let mut toks: Vec<Vec<char>> = Vec::new();
    let mut cur: Vec<char> = Vec::new();
    let mut i: usize = 0;
    while i < n
        invariant
            i <= n,
            n == s@.len(),
            toks@.map_values(|t: Vec<char>| t@).push(cur@) == split_fields(s@.take(i as int)),
        decreases n - i,
    {
        let ghost prefix = s@.take(i as int);
        let ghost toks0 = toks@;
        let ghost cur0 = cur@;
        let c = s.get_char(i);
        proof {
            assert(s@.take(i + 1) =~= prefix.push(s@[i as int]));
            lemma_split_fields_push(prefix, s@[i as int]);
            lemma_split_fields_len(prefix);
        }
        if c == ' ' {
            toks.push(cur);
            cur = Vec::new();
            proof {
                assert(toks@.map_values(|t: Vec<char>| t@) =~= toks0.map_values(
                    |t: Vec<char>| t@,
                ).push(cur0));
                assert(toks@.map_values(|t: Vec<char>| t@).push(cur@) =~~= split_fields(
                    s@.take(i + 1),
                ));
            }
        } else {
            cur.push(c);
            proof {
                let m = toks0.map_values(|t: Vec<char>| t@).push(cur0);
                assert(m.last() == cur0);
                assert(m.update(m.len() - 1, cur0.push(c)) =~~= toks0.map_values(
                    |t: Vec<char>| t@,
                ).push(cur@));
            }
        }
        i += 1;
    }
    proof {
        assert(s@.take(n as int) =~= s@);
    }
    toks.push(cur);
    proof {
        assert(toks@.map_values(|t: Vec<char>| t@) =~~= split_fields(s@));
    }
    toks
}

/// Reads the token's tail starting at `from` as a one- or two-digit
/// decimal number.
fn parse_num(t: &Vec<char>, from: usize) -> (r: Option<u8>)
    requires
        from <= t@.len(),
    ensures
        r is Some <==> num_ok(t@.skip(from as int)),
        r matches Some(v) ==> v as int == num_val(t@.skip(from as int)),
{
    let len = t.len() - from;
    if len == 1 {
        let d = t[from] as u32;
        if 48 <= d && d <= 57 {
            Some((d - 48) as u8)
        } else {
            None
        }
    } else if len == 2 {
        let d0 = t[from] as u32;
        let d1 = t[from + 1] as u32;
        if 48 <= d0 && d0 <= 57 && 48 <= d1 && d1 <= 57 {
            Some((10 * (d0 - 48) + (d1 - 48)) as u8)
        } else {
            None
        }
    } else {
        None
    }
}

/// Parses one token against the range of its position.
fn parse_field(t: &Vec<char>, lo: u8, hi: u8) -> (r: Option<CadenceField>)
    ensures
        r is Some <==> field_grammar_ok(t@, lo, hi),
        r matches Some(f) ==> f == field_of(t@, lo, hi) && field_wf(f, lo, hi),
{
    if t.len() == 1 && t[0] == '*' {
        Some(CadenceField::Any)
    } else if t.len() >= 3 && t[0] == '*' && t[1] == '/' {
        match parse_num(t, 2) {
            Some(v) => {
                if 1 <= v && v <= hi {
                    Some(CadenceField::Step(v))
                } else {
                    None
                }
            },
            None => None,
        }
    } else {
        match parse_num(t, 0) {
            Some(v) => {
                proof {
                    assert(t@.skip(0) =~= t@);
                }
                if lo <= v && v <= hi {
                    Some(CadenceField::Exact(v))
                } else {
                    None
                }
            },
            None => {
                proof {
                    assert(t@.skip(0) =~= t@);
                }
                None
            },
        }
    }
}

impl Cadence {
    /// Every field is confined to its position's range.
    pub open spec fn wf(self) -> bool {
        &&& field_wf(self.second, 0, 59)
        &&& field_wf(self.minute, 0, 59)
        &&& field_wf(self.hour, 0, 23)
        &&& field_wf(self.day_of_month, 1, 31)
        &&& field_wf(self.month, 1, 12)
        &&& field_wf(self.day_of_week, 0, 6)
    }

    /// Whether the cadence fires at the instant `t`.
    pub open spec fn fires_at(self, t: WallTime) -> bool {
        &&& field_fires(self.second, t.second, 0)
        &&& field_fires(self.minute, t.minute, 0)
        &&& field_fires(self.hour, t.hour, 0)
        &&& field_fires(self.day_of_month, t.day_of_month, 1)
        &&& field_fires(self.month, t.month, 1)
        &&& field_fires(self.day_of_week, t.day_of_week, 0)
    }

    /// Parses a cadence expression, accepting exactly the strings that
    /// [`cadence_ok`] describes and failing fast on anything else.
    pub fn parse(s: &str) -> (r: Result<Cadence, RegistrationError>)
        ensures
            r is Ok <==> cadence_ok(s@),
            r matches Ok(c) ==> c == cadence_of(s@) && c.wf(),
            r matches Err(e) ==> e == RegistrationError::InvalidScheduleExpression,
    {
        let toks = tokenize(s);
        let ghost fs = split_fields(s@);
        proof {
            assert(toks@.map_values(|t: Vec<char>| t@).len() == fs.len());
            assert forall|i: int| 0 <= i < toks@.len() implies #[trigger] fs[i] == toks@[i]@ by {
                assert(fs[i] == toks@.map_values(|t: Vec<char>| t@)[i]);
            }
        }
        if toks.len() == 5 {
            let f0 = parse_field(&toks[0], 0, 59);
            let f1 = parse_field(&toks[1], 0, 23);
            let f2 = parse_field(&toks[2], 1, 31);
            let f3 = parse_field(&toks[3], 1, 12);
            let f4 = parse_field(&toks[4], 0, 6);
            match (f0, f1, f2, f3, f4) {
                (Some(minute), Some(hour), Some(day_of_month), Some(month), Some(day_of_week)) => {
                    Ok(
                        Cadence {
                            second: CadenceField::Exact(0),
                            minute,
                            hour,
                            day_of_month,
                            month,
                            day_of_week,
                        },
                    )
                },
                _ => Err(RegistrationError::InvalidScheduleExpression),
            }
        } else if toks.len() == 6 {
            let f0 = parse_field(&toks[0], 0, 59);
            let f1 = parse_field(&toks[1], 0, 59);
            let f2 = parse_field(&toks[2], 0, 23);
            let f3 = parse_field(&toks[3], 1, 31);
            let f4 = parse_field(&toks[4], 1, 12);
            let f5 = parse_field(&toks[5], 0, 6);
            match (f0, f1, f2, f3, f4, f5) {
                (
                    Some(second),
                    Some(minute),
                    Some(hour),
                    Some(day_of_month),
                    Some(month),
                    Some(day_of_week),
                ) => Ok(Cadence { second, minute, hour, day_of_month, month, day_of_week }),
                _ => Err(RegistrationError::InvalidScheduleExpression),
            }
        } else {
            Err(RegistrationError::InvalidScheduleExpression)
        }
    }

    /// Whether the cadence is due at the instant `t`, deciding
    /// [`Cadence::fires_at`].
    pub fn is_due(&self, t: &WallTime) -> (r: bool)
        requires
            self.wf(),
            t.wf(),
        ensures
            r == self.fires_at(*t),
    {
        field_due(self.second, t.second, 0) && field_due(self.minute, t.minute, 0) && field_due(
            self.hour,
            t.hour,
            0,
        ) && field_due(self.day_of_month, t.day_of_month, 1) && field_due(self.month, t.month, 1)
            && field_due(self.day_of_week, t.day_of_week, 0)
    }
}

/// Decides [`field_fires`] for one field.
fn field_due(f: CadenceField, v: u8, lo: u8) -> (r: bool)
    ensures
        r == field_fires(f, v, lo),
{
    match f {
        CadenceField::Any => true,
        CadenceField::Step(k) => k > 0 && v >= lo && (v - lo) % k == 0,
        CadenceField::Exact(n) => v == n,
    }
}

} // verus!

