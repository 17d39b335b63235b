//! The parts of `report.json` the rules read.
//!
//! A narrow view of a wide file. The tempo, its salience, the key's margin and
//! the source's duration are fractional and are drawn by the page; what is held
//! here is what decides anything: the findings, the key's Camelot code, and the
//! figures of the source that are whole numbers.

use crate::text::{chars_of, is_ascii_char};
use vstd::prelude::*;

verus! {

/// How loudly a finding is raised.
#[derive(Clone, Copy, Debug, PartialEq, Eq, Structural)]
pub enum Severity {
    Warning,
    Info,
}

/// Something the analyser wanted to say about its answer.
#[derive(Clone, Debug)]
pub struct Finding {
    pub code: String,
    pub severity: Severity,
    pub message: String,
}

/// The file the report is about.
#[derive(Clone, Debug)]
pub struct Source {
    pub path: String,
    pub sample_rate: u32,
    pub channels: u16,
}

/// The tempo half of the report, as far as its findings.
#[derive(Clone, Debug)]
pub struct Tempo {
    pub diagnostics: Vec<Finding>,
}

/// The key half of the report.
#[derive(Clone, Debug)]
pub struct Key {
    /// Camelot, e.g. `5A`. What the file name, both databases and this page use.
    pub camelot: String,
    /// The same key as notes.
    pub name: String,
    pub diagnostics: Vec<Finding>,
}

#[derive(Clone, Debug)]
pub struct Report {
    pub source: Source,
    pub tempo: Tempo,
    pub key: Key,
}

/// The findings of one severity, in the order they were raised.
pub open spec fn of_severity(s: Seq<Finding>, severity: Severity) -> Seq<Finding>
    decreases s.len(),
{
    if s.len() == 0 {
        Seq::empty()
    } else if s.last().severity == severity {
        of_severity(s.drop_last(), severity).push(s.last())
    } else {
        of_severity(s.drop_last(), severity)
    }
}

/// Every finding from every stage, tempo before key.
pub open spec fn raised(report: Report) -> Seq<Finding> {
    report.tempo.diagnostics@ + report.key.diagnostics@
}

/// Every finding, warnings first, each group in the order it was raised.
pub open spec fn ordered_findings(report: Report) -> Seq<Finding> {
    of_severity(raised(report), Severity::Warning) + of_severity(raised(report), Severity::Info)
}

/// The value of a run of decimal digits.
pub open spec fn decimal(digits: Seq<char>) -> nat
    decreases digits.len(),
{
    if digits.len() == 0 {
        0
    } else {
        10 * decimal(digits.drop_last()) + ((digits.last() as u32) - ('0' as u32)) as nat
    }
}

pub open spec fn is_digit(c: char) -> bool {
    '0' <= c && c <= '9'
}

/// The characters after an optional leading `+`.
pub open spec fn unsigned_digits(s: Seq<char>) -> Seq<char> {
    if s.len() > 0 && s[0] == '+' {
        s.drop_first()
    } else {
        s
    }
}

/// Whether every character is a decimal digit.
pub open spec fn all_digits(s: Seq<char>) -> bool {
    forall|i: int| 0 <= i < s.len() ==> is_digit(#[trigger] s[i])
}

/// What `str::parse::<u32>` makes of these characters: an optional `+`, then
/// at least one decimal digit, and nothing past `u32::MAX`.
pub open spec fn parsed_u32(s: Seq<char>) -> Option<u32> {
    let digits = unsigned_digits(s);
    if digits.len() == 0 || !all_digits(digits) || decimal(digits) > u32::MAX {
        None
    } else {
        Some(decimal(digits) as u32)
    }
}

/// The Camelot number of a code such as `5A`: everything but the final letter,
/// read as a number, and a place on the wheel only when it is one of `1..=12`.
///
/// The final letter is cut off by bytes, so a code ending in a character that
/// takes more than one byte has no number at all.
pub open spec fn camelot_number_of(camelot: Seq<char>) -> Option<u32> {
    if camelot.len() == 0 {
        None
    } else if !is_ascii_char(camelot.last()) {
        None
    } else {
        match parsed_u32(camelot.drop_last()) {
            Some(n) => if 1 <= n <= 12 {
                Some(n)
            } else {
                None
            },
            None => None,
        }
    }
}

proof fn lemma_decimal_grows(digits: Seq<char>, d: char)
    requires
        is_digit(d),
    ensures
        decimal(digits.push(d)) == 10 * decimal(digits) + ((d as u32) - ('0' as u32)),
        decimal(digits.push(d)) >= decimal(digits),
{
    assert(digits.push(d).drop_last() =~= digits);
}

/// Read a run of characters as `str::parse::<u32>` does.
pub fn parse_u32(s: &Vec<char>) -> (r: Option<u32>)
    ensures
        r == parsed_u32(s@),
{
    let start: usize = if s.len() > 0 && s[0] == '+' { 1 } else { 0 };
    let ghost digits = unsigned_digits(s@);
    assert(digits =~= s@.subrange(start as int, s@.len() as int));
    if start == s.len() {
        return None;
    }
    let mut value: u64 = 0;
    let mut over = false;
    let mut i: usize = start;
    while i < s.len()
        invariant
            start <= i <= s@.len(),
            digits == s@.subrange(start as int, s@.len() as int),
            digits == unsigned_digits(s@),
            digits.len() > 0,
            forall|j: int| start <= j < i ==> is_digit(#[trigger] s@[j]),
            !over ==> value == decimal(s@.subrange(start as int, i as int)),
            !over ==> value <= u32::MAX,
            over ==> decimal(s@.subrange(start as int, i as int)) > u32::MAX,
        decreases s@.len() - i,
    {
        let c = s[i];
        if !('0' <= c && c <= '9') {
            proof {
                assert(digits[i - start] == c);
                assert(!is_digit(digits[i - start]));
            }
            return None;
        }
        let d: u64 = (c as u32 - '0' as u32) as u64;
        proof {
            lemma_decimal_grows(s@.subrange(start as int, i as int), c);
            assert(s@.subrange(start as int, i as int).push(c) =~= s@.subrange(
                start as int,
                i + 1,
            ));
        }
        if !over {
            let next = value * 10 + d;
            if next > 0xffff_ffff {
                over = true;
            } else {
                value = next;
            }
        }
        i = i + 1;
    }
    proof {
        assert(s@.subrange(start as int, s@.len() as int) =~= digits);
        assert forall|k: int| 0 <= k < digits.len() implies is_digit(#[trigger] digits[k]) by {
            assert(digits[k] == s@[k + start]);
        }
    }
    if over {
        None
    } else {
        Some(value as u32)
    }
}

/// Picking one severity out of two runs of findings picks it out of each.
pub proof fn lemma_of_severity_concat(a: Seq<Finding>, b: Seq<Finding>, severity: Severity)
    ensures
        of_severity(a + b, severity) == of_severity(a, severity) + of_severity(b, severity),
    decreases b.len(),
{
    if b.len() == 0 {
        assert(a + b =~= a);
        assert(of_severity(a, severity) + of_severity(b, severity) =~= of_severity(a, severity));
    } else {
        assert((a + b).drop_last() =~= a + b.drop_last());
        lemma_of_severity_concat(a, b.drop_last(), severity);
        assert(of_severity(a, severity) + of_severity(b.drop_last(), severity).push(b.last())
            =~= (of_severity(a, severity) + of_severity(b.drop_last(), severity)).push(b.last()));
    }
}

/// Append to `out` every finding of `from` that has the wanted severity.
fn gather<'a>(out: &mut Vec<&'a Finding>, from: &'a Vec<Finding>, wanted: Severity)
    ensures
        final(out)@.map_values(|f: &Finding| *f) == old(out)@.map_values(|f: &Finding| *f)
            + of_severity(from@, wanted),
{
    let ghost before = out@.map_values(|f: &Finding| *f);
    let mut i: usize = 0;
    while i < from.len()
        invariant
            i <= from@.len(),
            out@.map_values(|f: &Finding| *f) == before + of_severity(from@.take(i as int), wanted),
        decreases from@.len() - i,
    {
        let f: &Finding = &from[i];
        assert(from@.take(i + 1).drop_last() =~= from@.take(i as int));
        assert(from@.take(i + 1).last() == *f);
        let ghost prev = out@;
        if f.severity == wanted {
            out.push(f);
            assert(out@ =~= prev.push(f));
            assert(out@.map_values(|f: &Finding| *f) =~= prev.map_values(|f: &Finding| *f).push(
                *f,
            ));
        }
        assert(out@.map_values(|f: &Finding| *f) =~= before + of_severity(
            from@.take(i + 1),
            wanted,
        ));
        i = i + 1;
    }
    assert(from@.take(from@.len() as int) =~= from@);
}

/// How many findings of `from` have the wanted severity.
fn tally(from: &Vec<Finding>, wanted: Severity) -> (r: usize)
    ensures
        r == of_severity(from@, wanted).len(),
{
    let mut count: usize = 0;
    let mut i: usize = 0;
    while i < from.len()
        invariant
            i <= from@.len(),
            count == of_severity(from@.take(i as int), wanted).len(),
            count <= i,
        decreases from@.len() - i,
    {
        assert(from@.take(i + 1).drop_last() =~= from@.take(i as int));
        if from[i].severity == wanted {
            count = count + 1;
        }
        i = i + 1;
    }
    assert(from@.take(from@.len() as int) =~= from@);
    count
}

impl Report {
    /// Every finding from every stage, warnings first, the way the terminal
    /// summary orders them.
    pub fn findings(&self) -> (r: Vec<&Finding>)
        ensures
            r@.map_values(|f: &Finding| *f) == ordered_findings(*self),
    {
        let mut r: Vec<&Finding> = Vec::new();
        assert(r@.map_values(|f: &Finding| *f) =~= Seq::<Finding>::empty());
        gather(&mut r, &self.tempo.diagnostics, Severity::Warning);
        gather(&mut r, &self.key.diagnostics, Severity::Warning);
        gather(&mut r, &self.tempo.diagnostics, Severity::Info);
        gather(&mut r, &self.key.diagnostics, Severity::Info);
        proof {
            let t = self.tempo.diagnostics@;
            let k = self.key.diagnostics@;
            lemma_of_severity_concat(t, k, Severity::Warning);
            lemma_of_severity_concat(t, k, Severity::Info);
            assert(r@.map_values(|f: &Finding| *f) =~= ordered_findings(*self));
        }
        r
    }

    /// How many of the findings are warnings.
    pub fn warnings(&self) -> (r: usize)
        ensures
            r == of_severity(raised(*self), Severity::Warning).len(),
    {
        let all = self.findings();
        let total = all.len();
        let a = tally(&self.tempo.diagnostics, Severity::Warning);
        let b = tally(&self.key.diagnostics, Severity::Warning);
        proof {
            lemma_of_severity_concat(
                self.tempo.diagnostics@,
                self.key.diagnostics@,
                Severity::Warning,
            );
            lemma_of_severity_len(self.tempo.diagnostics@, Severity::Warning);
            lemma_of_severity_len(self.key.diagnostics@, Severity::Warning);
            let ordered = all@.map_values(|f: &Finding| *f);
            assert(all@.len() == ordered.len());
            assert(ordered == ordered_findings(*self));
            assert(ordered.len() >= of_severity(raised(*self), Severity::Warning).len());
            assert(a + b == of_severity(raised(*self), Severity::Warning).len());
        }
        a + b
    }

    /// The Camelot number, `1..=12`, for placing a track on the wheel. A code
    /// whose number falls outside the wheel has none.
    pub fn camelot_number(&self) -> (r: Option<u32>)
        ensures
            r == camelot_number_of(self.key.camelot@),
    {
        let camelot = chars_of(self.key.camelot.as_str());
        if camelot.len() == 0 {
            return None;
        }
        let last = camelot[camelot.len() - 1];
        if (last as u32) >= 0x80 {
            return None;
        }
        let mut body = camelot;
        body.pop();
        match parse_u32(&body) {
            Some(n) => if 1 <= n && n <= 12 {
                Some(n)
            } else {
                None
            },
            None => None,
        }
    }

    /// `true` for a minor key, which is the inner ring of the wheel.
    pub fn camelot_is_minor(&self) -> (r: bool)
        ensures
            r == (self.key.camelot@.len() > 0 && self.key.camelot@.last() == 'A'),
    {
        let camelot = chars_of(self.key.camelot.as_str());
        camelot.len() > 0 && camelot[camelot.len() - 1] == 'A'
    }
}

/// A severity's findings are no more than all of them.
pub proof fn lemma_of_severity_len(s: Seq<Finding>, severity: Severity)
    ensures
        of_severity(s, severity).len() <= s.len(),
    decreases s.len(),
{
    if s.len() > 0 {
        lemma_of_severity_len(s.drop_last(), severity);
    }
}

/// A severity's findings are all of that severity.
pub proof fn lemma_of_severity_only(s: Seq<Finding>, severity: Severity)
    ensures
        forall|j: int|
            0 <= j < of_severity(s, severity).len() ==> (#[trigger] of_severity(
                s,
                severity,
            )[j]).severity == severity,
    decreases s.len(),
{
    if s.len() > 0 {
        lemma_of_severity_only(s.drop_last(), severity);
    }
}

/// The two groups hold every finding: ordering them loses none and invents none.
pub proof fn findings_split_by_severity(s: Seq<Finding>)
    ensures
        of_severity(s, Severity::Warning).len() + of_severity(s, Severity::Info).len() == s.len(),
    decreases s.len(),
{
    if s.len() > 0 {
        findings_split_by_severity(s.drop_last());
    }
}

} // verus!
