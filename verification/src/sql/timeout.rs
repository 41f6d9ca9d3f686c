//! The `TIMEOUT` clause and the durations it is written in.

use super::common::{
    digits, has_keyword, has_prefix, keyword, lemma_digits, lemma_keyword_reads,
    lemma_number_reads, lemma_one_space, lemma_prefix_fails, lemma_skip, literal, number, scan,
    span, spec_number, stops, write_number, Class,
};
use vstd::prelude::*;
use vstd::string::*;

verus! {

#[derive(Clone, Copy, Debug, PartialEq, Eq)]
pub enum Unit {
    Nanos,
    Micros,
    Millis,
    Secs,
    Mins,
    Hours,
    Days,
    Weeks,
}

/// A length of time, as it was written: a count and its unit.
#[derive(Clone, Copy, Debug, PartialEq, Eq)]
pub struct Duration {
    pub value: u64,
    pub unit: Unit,
}

/// How long a statement may run.
#[derive(Clone, Copy, Debug, PartialEq, Eq)]
pub struct Timeout(pub Duration);

pub open spec fn unit_text(u: Unit) -> Seq<char> {
    match u {
        Unit::Nanos => "ns"@,
        Unit::Micros => "us"@,
        Unit::Millis => "ms"@,
        Unit::Secs => "s"@,
        Unit::Mins => "m"@,
        Unit::Hours => "h"@,
        Unit::Days => "d"@,
        Unit::Weeks => "w"@,
    }
}

/// The nanoseconds in one unit.
pub open spec fn unit_nanos(u: Unit) -> int {
    match u {
        Unit::Nanos => 1,
        Unit::Micros => 1_000,
        Unit::Millis => 1_000_000,
        Unit::Secs => 1_000_000_000,
        Unit::Mins => 60_000_000_000,
        Unit::Hours => 3_600_000_000_000,
        Unit::Days => 86_400_000_000_000,
        Unit::Weeks => 604_800_000_000_000,
    }
}

/// The nanoseconds in a duration.
pub open spec fn nanos(d: Duration) -> int {
    d.value * unit_nanos(d.unit)
}

/// The whole seconds in a duration.
pub open spec fn seconds(d: Duration) -> int {
    nanos(d) / 1_000_000_000
}

pub open spec fn render_duration(d: Duration) -> Seq<char> {
    digits(d.value as int) + unit_text(d.unit)
}

/// The text of the clause: `TIMEOUT` and the duration.
pub open spec fn render_timeout(t: Timeout) -> Seq<char> {
    "TIMEOUT "@ + render_duration(t.0)
}

/// A unit at the head of `s`; of two that fit, the longer.
#[verifier::opaque]
pub open spec fn spec_unit(s: Seq<char>) -> Option<(Unit, nat)> {
    if has_prefix(s, "ns"@) {
        Some((Unit::Nanos, "ns"@.len()))
    } else if has_prefix(s, "us"@) {
        Some((Unit::Micros, "us"@.len()))
    } else if has_prefix(s, "ms"@) {
        Some((Unit::Millis, "ms"@.len()))
    } else if has_prefix(s, "s"@) {
        Some((Unit::Secs, "s"@.len()))
    } else if has_prefix(s, "m"@) {
        Some((Unit::Mins, "m"@.len()))
    } else if has_prefix(s, "h"@) {
        Some((Unit::Hours, "h"@.len()))
    } else if has_prefix(s, "d"@) {
        Some((Unit::Days, "d"@.len()))
    } else if has_prefix(s, "w"@) {
        Some((Unit::Weeks, "w"@.len()))
    } else {
        None
    }
}

/// A duration at the head of `s`: a number and a unit.
#[verifier::opaque]
pub open spec fn spec_duration(s: Seq<char>) -> Option<(Duration, nat)> {
    match spec_number(s) {
        Some((v, n)) => match spec_unit(s.skip(n as int)) {
            Some((unit, m)) => Some((Duration { value: v as u64, unit }, n + m)),
            None => None,
        },
        None => None,
    }
}

/// A `TIMEOUT` clause at the head of `s`: the keyword, blanks, a duration.
#[verifier::opaque]
pub open spec fn spec_timeout(s: Seq<char>) -> Option<(Timeout, nat)> {
    if has_keyword(s, "TIMEOUT"@) {
        let k0 = "TIMEOUT"@.len();
        let k1 = k0 + span(s.skip(k0 as int), Class::Space);
        if k1 > k0 {
            match spec_duration(s.skip(k1 as int)) {
                Some((d, n)) => Some((Timeout(d), k1 + n)),
                None => None,
            }
        } else {
            None
        }
    } else {
        None
    }
}

impl Unit {
    /// The nanoseconds in one unit.
    pub fn nanos(&self) -> (r: u128)
        ensures
            r == unit_nanos(*self),
    {
        match self {
            Unit::Nanos => 1,
            Unit::Micros => 1_000,
            Unit::Millis => 1_000_000,
            Unit::Secs => 1_000_000_000,
            Unit::Mins => 60_000_000_000,
            Unit::Hours => 3_600_000_000_000,
            Unit::Days => 86_400_000_000_000,
            Unit::Weeks => 604_800_000_000_000,
        }
    }

    /// Writes the unit's abbreviation behind what `out` holds.
    pub fn write(&self, out: &mut String)
        ensures
            final(out)@ == old(out)@ + unit_text(*self),
    {
        match self {
            Unit::Nanos => out.append("ns"),
            Unit::Micros => out.append("us"),
            Unit::Millis => out.append("ms"),
            Unit::Secs => out.append("s"),
            Unit::Mins => out.append("m"),
            Unit::Hours => out.append("h"),
            Unit::Days => out.append("d"),
            Unit::Weeks => out.append("w"),
        }
    }
}

impl Duration {
    /// The nanoseconds in the duration.
    pub fn as_nanos(&self) -> (r: u128)
        ensures
            r == nanos(*self),
    {
        let f = self.unit.nanos();
        let v: u128 = self.value as u128;
        assert(v * f <= 0xffff_ffff_ffff_ffff * 604_800_000_000_000) by (nonlinear_arith)
            requires
                0 <= v <= 0xffff_ffff_ffff_ffff,
                0 <= f <= 604_800_000_000_000,
        ;
        v * f
    }

    /// The whole seconds in the duration.
    pub fn as_secs(&self) -> (r: u128)
        ensures
            r == seconds(*self),
    {
        self.as_nanos() / 1_000_000_000
    }

    /// Writes the duration behind what `out` holds.
    pub fn write(&self, out: &mut String)
        ensures
            final(out)@ == old(out)@ + render_duration(*self),
    {
        write_number(out, self.value);
        self.unit.write(out);
        assert(final(out)@ =~= old(out)@ + render_duration(*self));
    }
}

impl Timeout {
    /// Whether a statement that has run for `elapsed` nanoseconds has used
    /// up its time.
    pub fn expired(&self, elapsed: u128) -> (r: bool)
        ensures
            r == (elapsed >= nanos(self.0)),
    {
        elapsed >= self.0.as_nanos()
    }

    /// Writes the clause behind what `out` holds.
    pub fn write(&self, out: &mut String)
        ensures
            final(out)@ == old(out)@ + render_timeout(*self),
    {
        out.append("TIMEOUT ");
        self.0.write(out);
        assert(final(out)@ =~= old(out)@ + render_timeout(*self));
    }
}

pub fn unit(cs: &Vec<char>, i: usize) -> (r: Option<(Unit, usize)>)
    requires
        i <= cs.len(),
    ensures
        match r {
            Some((u, j)) => i <= j <= cs.len() && spec_unit(cs@.skip(i as int)) == Some(
                (u, (j - i) as nat),
            ),
            None => spec_unit(cs@.skip(i as int)) is None,
        },
{
    proof {
        reveal(spec_unit);
    }
    proof {
        lemma_skip(cs@, i as int, i as int);
    }
    if let Some(j) = literal(cs, i, "ns") {
        return Some((Unit::Nanos, j));
    }
    if let Some(j) = literal(cs, i, "us") {
        return Some((Unit::Micros, j));
    }
    if let Some(j) = literal(cs, i, "ms") {
        return Some((Unit::Millis, j));
    }
    if let Some(j) = literal(cs, i, "s") {
        return Some((Unit::Secs, j));
    }
    if let Some(j) = literal(cs, i, "m") {
        return Some((Unit::Mins, j));
    }
    if let Some(j) = literal(cs, i, "h") {
        return Some((Unit::Hours, j));
    }
    if let Some(j) = literal(cs, i, "d") {
        return Some((Unit::Days, j));
    }
    if let Some(j) = literal(cs, i, "w") {
        return Some((Unit::Weeks, j));
    }
    None
}

pub fn duration(cs: &Vec<char>, i: usize) -> (r: Option<(Duration, usize)>)
    requires
        i <= cs.len(),
    ensures
        match r {
            Some((d, j)) => i < j <= cs.len() && spec_duration(cs@.skip(i as int)) == Some(
                (d, (j - i) as nat),
            ),
            None => spec_duration(cs@.skip(i as int)) is None,
        },
{
    proof {
        reveal(spec_duration);
    }
    let (value, p) = match number(cs, i) {
        Some(r) => r,
        None => {
            return None;
        },
    };
    proof {
        lemma_skip(cs@, i as int, p as int);
    }
    match unit(cs, p) {
        Some((unit, j)) => Some((Duration { value, unit }, j)),
        None => None,
    }
}

/// The `TIMEOUT` clause at `i`, if there is one, and the position behind it.
pub fn timeout(cs: &Vec<char>, i: usize) -> (r: Option<(Timeout, usize)>)
    requires
        i <= cs.len(),
    ensures
        match r {
            Some((t, j)) => i < j <= cs.len() && spec_timeout(cs@.skip(i as int)) == Some(
                (t, (j - i) as nat),
            ),
            None => spec_timeout(cs@.skip(i as int)) is None,
        },
{
    proof {
        reveal(spec_timeout);
    }
    let k0 = match keyword(cs, i, "TIMEOUT") {
        Some(p) => p,
        None => {
            return None;
        },
    };
    proof {
        lemma_skip(cs@, i as int, k0 as int);
    }
    let k1 = scan(cs, k0, Class::Space);
    if k1 == k0 {
        return None;
    }
    proof {
        lemma_skip(cs@, i as int, k1 as int);
    }
    match duration(cs, k1) {
        Some((d, j)) => Some((Timeout(d), j)),
        None => None,
    }
}

/// The text of a unit is read back before a text that does not begin with `s`.
pub proof fn lemma_unit_reads(u: Unit, t: Seq<char>)
    requires
        t.len() == 0 || t[0] != 's',
    ensures
        spec_unit(unit_text(u) + t) == Some((u, unit_text(u).len())),
        unit_text(u).len() > 0,
        stops(unit_text(u), Class::Digit),
{
    reveal(spec_unit);
    reveal_strlit("ns");
    reveal_strlit("us");
    reveal_strlit("ms");
    reveal_strlit("s");
    reveal_strlit("m");
    reveal_strlit("h");
    reveal_strlit("d");
    reveal_strlit("w");
    let r = unit_text(u);
    let s = r + t;
    assert(s[0] == r[0]);
    if r.len() > 1 {
        assert(s[1] == r[1]);
    } else if t.len() > 0 {
        assert(s[1] == t[0]);
    }
    lemma_keyword_reads(r, t);
    match u {
        Unit::Nanos => {},
        Unit::Micros => {
            lemma_prefix_fails(s, "ns"@, 0);
        },
        Unit::Millis => {
            lemma_prefix_fails(s, "ns"@, 0);
            lemma_prefix_fails(s, "us"@, 0);
        },
        Unit::Secs => {
            lemma_prefix_fails(s, "ns"@, 0);
            lemma_prefix_fails(s, "us"@, 0);
            lemma_prefix_fails(s, "ms"@, 0);
        },
        Unit::Mins => {
            lemma_prefix_fails(s, "ns"@, 0);
            lemma_prefix_fails(s, "us"@, 0);
            lemma_prefix_fails(s, "ms"@, 1);
            lemma_prefix_fails(s, "s"@, 0);
        },
        Unit::Hours => {
            lemma_prefix_fails(s, "ns"@, 0);
            lemma_prefix_fails(s, "us"@, 0);
            lemma_prefix_fails(s, "ms"@, 0);
            lemma_prefix_fails(s, "s"@, 0);
            lemma_prefix_fails(s, "m"@, 0);
        },
        Unit::Days => {
            lemma_prefix_fails(s, "ns"@, 0);
            lemma_prefix_fails(s, "us"@, 0);
            lemma_prefix_fails(s, "ms"@, 0);
            lemma_prefix_fails(s, "s"@, 0);
            lemma_prefix_fails(s, "m"@, 0);
            lemma_prefix_fails(s, "h"@, 0);
        },
        Unit::Weeks => {
            lemma_prefix_fails(s, "ns"@, 0);
            lemma_prefix_fails(s, "us"@, 0);
            lemma_prefix_fails(s, "ms"@, 0);
            lemma_prefix_fails(s, "s"@, 0);
            lemma_prefix_fails(s, "m"@, 0);
            lemma_prefix_fails(s, "h"@, 0);
            lemma_prefix_fails(s, "d"@, 0);
        },
    }
}

/// The text of a duration is read back before a text that does not begin with `s`.
pub proof fn lemma_duration_reads(d: Duration, t: Seq<char>)
    requires
        t.len() == 0 || t[0] != 's',
    ensures
        spec_duration(render_duration(d) + t) == Some((d, render_duration(d).len())),
        render_duration(d).len() > 0,
        stops(render_duration(d), Class::Space),
{
    reveal(spec_duration);
    let g = digits(d.value as int);
    let u = unit_text(d.unit);
    let s = render_duration(d) + t;
    lemma_digits(d.value as int);
    lemma_unit_reads(d.unit, t);
    assert((u + t)[0] == u[0]);
    assert(s =~= g + (u + t));
    lemma_number_reads(d.value as int, u + t);
    assert(s.skip(g.len() as int) =~= u + t);
    assert(render_duration(d)[0] == g[0]);
}

/// The text of a `TIMEOUT` clause is read back before a text that does not
/// begin with `s`.
pub proof fn lemma_timeout_reads(tm: Timeout, t: Seq<char>)
    requires
        t.len() == 0 || t[0] != 's',
    ensures
        spec_timeout(render_timeout(tm) + t) == Some((tm, render_timeout(tm).len())),
        render_timeout(tm).len() > 1,
        render_timeout(tm)[0] == 'T',
{
    reveal(spec_timeout);
    reveal_strlit("TIMEOUT");
    reveal_strlit("TIMEOUT ");
    reveal_strlit(" ");
    let r = render_duration(tm.0);
    let x1 = r + t;
    let x0 = " "@ + x1;
    let s = render_timeout(tm) + t;
    lemma_duration_reads(tm.0, t);
    assert(s =~= "TIMEOUT"@ + x0);
    assert(render_timeout(tm) =~= "TIMEOUT"@ + (" "@ + r));
    lemma_keyword_reads("TIMEOUT"@, x0);
    assert(s.skip(7) =~= x0);
    assert(x1[0] == r[0]);
    lemma_one_space(x1);
    assert(s.skip(8) =~= x1);
}

} // verus!
