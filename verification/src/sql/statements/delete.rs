//! The `DELETE` statement: its shape, its text, and how the text is read.
//!
//! ```text
//! DELETE [FROM] <targets> [WHERE <cond>] [RETURN <output>] [TIMEOUT <duration>]
//! ```

use crate::dbs::executor::Executor;
use crate::dbs::iterator::{
    lemma_targets_by_kind, queued_by_target, refusal, refused_in, run, Iterator, Setup,
};
use crate::dbs::options::Options;
use crate::dbs::runtime::Runtime;
use crate::err::{Error, ErrorView};
use crate::iam::auth::Level;
use crate::kvs::tx::RecordView;
use crate::sql::timeout::nanos;
use crate::sql::value::{evaluate, lemma_values_view, Value};
use crate::sql::common::{
    chars_of, has_keyword, is_ident, is_space, is_word, keyword, lemma_keyword_fails,
    lemma_keyword_reads, lemma_one_space, lemma_skip, lemma_span, same_letter, scan, span, stops,
    Class,
};
use crate::sql::cond::{
    cond, is_cond, lemma_cond_is_cond, lemma_cond_reads, render_cond, spec_cond, Cond, CondView,
};
use crate::sql::output::{lemma_output_reads, output, render_output, spec_output, Output};
use crate::sql::timeout::{lemma_timeout_reads, render_timeout, spec_timeout, timeout, Timeout};
use crate::sql::value::{render_id, render_value, render_values, ValueView};
use crate::sql::what::{
    ends_list, is_target, lemma_items_split, lemma_target_head, lemma_whats_reads,
    lemma_whats_targets, render_more, spec_whats, whats, Values,
};
use vstd::prelude::*;
use vstd::string::*;

verus! {

#[derive(Debug, PartialEq, Eq)]
pub struct DeleteStatement {
    pub what: Values,
    pub cond: Option<Cond>,
    pub output: Option<Output>,
    pub timeout: Option<Timeout>,
}

pub struct DeleteStatementView {
    pub what: Seq<ValueView>,
    pub cond: Option<CondView>,
    pub output: Option<Output>,
    pub timeout: Option<Timeout>,
}

impl View for DeleteStatement {
    type V = DeleteStatementView;

    open spec fn view(&self) -> DeleteStatementView {
        DeleteStatementView {
            what: self.what@,
            cond: match self.cond {
                Some(c) => Some(c@),
                None => None,
            },
            output: self.output,
            timeout: self.timeout,
        }
    }
}

impl Default for DeleteStatement {
    /// A statement with no target and no clause.
    fn default() -> (r: DeleteStatement)
        ensures
            r@ == (DeleteStatementView {
                what: Seq::empty(),
                cond: None,
                output: None,
                timeout: None,
            }),
    {
        let r = DeleteStatement { what: Values(Vec::new()), cond: None, output: None, timeout: None };
        proof {
            lemma_values_view(r.what.0@);
            assert(r@.what =~= Seq::empty());
        }
        r
    }
}

impl Clone for DeleteStatement {
    fn clone(&self) -> (r: DeleteStatement)
        ensures
            r@ == self@,
    {
        DeleteStatement {
            what: self.what.clone(),
            cond: match &self.cond {
                Some(c) => Some(c.clone()),
                None => None,
            },
            output: self.output,
            timeout: self.timeout,
        }
    }
}

/// The text of a `WHERE` clause where there is one: a blank and the clause.
pub open spec fn part_cond(c: Option<CondView>) -> Seq<char> {
    match c {
        Some(c) => " "@ + render_cond(c),
        None => Seq::empty(),
    }
}

/// The text of a `RETURN` clause where there is one: a blank and the clause.
pub open spec fn part_output(o: Option<Output>) -> Seq<char> {
    match o {
        Some(o) => " "@ + render_output(o),
        None => Seq::empty(),
    }
}

/// The text of a `TIMEOUT` clause where there is one: a blank and the clause.
pub open spec fn part_timeout(t: Option<Timeout>) -> Seq<char> {
    match t {
        Some(t) => " "@ + render_timeout(t),
        None => Seq::empty(),
    }
}

/// The text of the clauses behind the condition.
pub open spec fn render_tail(o: Option<Output>, t: Option<Timeout>) -> Seq<char> {
    part_output(o) + part_timeout(t)
}

/// The text of the clauses of a statement.
pub open spec fn render_clauses(d: DeleteStatementView) -> Seq<char> {
    part_cond(d.cond) + render_tail(d.output, d.timeout)
}

/// The text of a statement: `DELETE`, the targets, then each clause that is
/// there, behind one blank.
pub open spec fn render_delete(d: DeleteStatementView) -> Seq<char> {
    "DELETE "@ + (render_values(d.what) + render_clauses(d))
}

/// What an optional clause yields behind `w` blanks: the clause and all that
/// was read, or nothing, with nothing read, where no blank or no clause is
/// there.
pub open spec fn spaced<T>(w: nat, r: Option<(T, nat)>) -> (Option<T>, nat) {
    if w > 0 {
        match r {
            Some((v, n)) => (Some(v), w + n),
            None => (None, 0),
        }
    } else {
        (None, 0)
    }
}

/// The word `FROM`, in any case, written as the name of a table. The word
/// is kept for the keyword: it cannot be the first target of a statement.
pub open spec fn is_from(v: ValueView) -> bool {
    v matches ValueView::Table(t) && t.len() == "FROM"@.len() && has_keyword(t, "FROM"@)
}

/// What the optional `FROM` takes at the head of `s`: the word and the
/// blanks behind it, where there is a blank and a list of targets follows
/// the blanks; else nothing, and the text is the list of targets itself.
#[verifier::opaque]
pub open spec fn opt_from(s: Seq<char>) -> nat {
    let k = "FROM"@.len() + span(s.skip("FROM"@.len() as int), Class::Space);
    if has_keyword(s, "FROM"@) && k > "FROM"@.len() && spec_whats(s.skip(k as int)) is Some {
        k
    } else {
        0
    }
}

/// The targets of a statement at the head of `s`, behind the optional
/// `FROM`. There are none where the first of them is the bare word `FROM`.
#[verifier::opaque]
pub open spec fn spec_targets(s: Seq<char>) -> Option<(Seq<ValueView>, nat)> {
    let k = opt_from(s);
    match spec_whats(s.skip(k as int)) {
        Some((what, n)) => if is_from(what[0]) {
            None
        } else {
            Some((what, k + n))
        },
        None => None,
    }
}

#[verifier::opaque]
pub open spec fn opt_cond(s: Seq<char>) -> (Option<CondView>, nat) {
    let w = span(s, Class::Space);
    spaced(w, spec_cond(s.skip(w as int)))
}

#[verifier::opaque]
pub open spec fn opt_output(s: Seq<char>) -> (Option<Output>, nat) {
    let w = span(s, Class::Space);
    spaced(w, spec_output(s.skip(w as int)))
}

#[verifier::opaque]
pub open spec fn opt_timeout(s: Seq<char>) -> (Option<Timeout>, nat) {
    let w = span(s, Class::Space);
    spaced(w, spec_timeout(s.skip(w as int)))
}

/// The opening of a statement at the head of `s`: `DELETE` and the blanks
/// behind it. Gives the number of characters it takes.
#[verifier::opaque]
pub open spec fn spec_head(s: Seq<char>) -> Option<nat> {
    if has_keyword(s, "DELETE"@) {
        let k0 = "DELETE"@.len();
        let k1 = k0 + span(s.skip(k0 as int), Class::Space);
        if k1 > k0 {
            Some(k1)
        } else {
            None
        }
    } else {
        None
    }
}

/// The clauses behind the condition, at the head of `s`.
#[verifier::opaque]
pub open spec fn spec_tail(s: Seq<char>) -> (Option<Output>, Option<Timeout>, nat) {
    let (output, b) = opt_output(s);
    let (timeout, c) = opt_timeout(s.skip(b as int));
    (output, timeout, b + c)
}

/// The clauses of a statement, at the head of `s`. They come in this order;
/// one that does not read is left, with the blanks before it, to what follows.
#[verifier::opaque]
pub open spec fn spec_clauses(s: Seq<char>) -> (Option<CondView>, Option<Output>, Option<Timeout>, nat) {
    let (cond, a) = opt_cond(s);
    let (output, timeout, b) = spec_tail(s.skip(a as int));
    (cond, output, timeout, a + b)
}

/// The targets and clauses of a statement, at the head of `s`.
#[verifier::opaque]
pub open spec fn spec_body(s: Seq<char>) -> Option<(DeleteStatementView, nat)> {
    match spec_targets(s) {
        Some((what, n)) => {
            let (cond, output, timeout, m) = spec_clauses(s.skip(n as int));
            Some((DeleteStatementView { what, cond, output, timeout }, n + m))
        },
        None => None,
    }
}

/// A statement at the head of `s`, and the number of characters it takes.
/// The keywords may be in any case.
pub open spec fn spec_delete(s: Seq<char>) -> Option<(DeleteStatementView, nat)> {
    match spec_head(s) {
        Some(p) => match spec_body(s.skip(p as int)) {
            Some((d, n)) => Some((d, p + n)),
            None => None,
        },
        None => None,
    }
}

impl DeleteStatement {
    /// Writes the clauses behind what `out` holds, each behind a blank.
    fn write_clauses(&self, out: &mut String)
        ensures
            final(out)@ == old(out)@ + render_clauses(self@),
    {
        let ghost start = out@;
        if let Some(v) = &self.cond {
            out.append(" ");
            v.write(out);
        }
        assert(out@ =~= start + part_cond(self@.cond));
        let ghost mid = out@;
        if let Some(v) = &self.output {
            out.append(" ");
            v.write(out);
        }
        assert(out@ =~= mid + part_output(self@.output));
        let ghost late = out@;
        if let Some(v) = &self.timeout {
            out.append(" ");
            v.write(out);
        }
        assert(out@ =~= late + part_timeout(self@.timeout));
        assert(out@ =~= start + render_clauses(self@));
    }

    /// Writes the statement behind what `out` holds.
    pub fn write(&self, out: &mut String)
        ensures
            final(out)@ == old(out)@ + render_delete(self@),
    {
        out.append("DELETE ");
        self.what.write(out);
        self.write_clauses(out);
        assert(final(out)@ =~= old(out)@ + render_delete(self@));
    }

    /// The text of the statement.
    pub fn to_string(&self) -> (r: String)
        ensures
            r@ == render_delete(self@),
    {
        let mut out = String::new();
        self.write(&mut out);
        assert(out@ =~= render_delete(self@));
        out
    }
}

/// The opening of a statement, and the position behind it.
fn head(cs: &Vec<char>) -> (r: Option<usize>)
    ensures
        match r {
            Some(p) => p <= cs.len() && spec_head(cs@) == Some(p as nat),
            None => spec_head(cs@) is None,
        },
{
    proof {
        reveal(spec_head);
        assert(cs@.skip(0) =~= cs@);
    }
    let k0 = match keyword(cs, 0, "DELETE") {
        Some(p) => p,
        None => {
            return None;
        },
    };
    let k1 = scan(cs, k0, Class::Space);
    if k1 == k0 {
        return None;
    }
    Some(k1)
}

/// Whether a target is the bare word `FROM`.
fn reserved(v: &Value) -> (r: bool)
    ensures
        r == is_from(v@),
{
    match v {
        Value::Table(t) => {
            let cs = chars_of(t.as_str());
            proof {
                assert(cs@.skip(0) =~= cs@);
                reveal_strlit("FROM");
            }
            cs.len() == 4 && keyword(&cs, 0, "FROM").is_some()
        },
        _ => false,
    }
}

/// The targets at `i`, behind the optional `FROM`, and the position behind them.
fn targets(src: &str, cs: &Vec<char>, i: usize) -> (r: Option<(Values, usize)>)
    requires
        cs@ == src@,
        i <= cs.len(),
    ensures
        match r {
            Some((v, j)) => i < j <= cs.len() && spec_targets(cs@.skip(i as int)) == Some(
                (v@, (j - i) as nat),
            ),
            None => spec_targets(cs@.skip(i as int)) is None,
        },
{
    proof {
        reveal(spec_targets);
        reveal(opt_from);
        lemma_skip(cs@, i as int, i as int);
    }
    let behind = match keyword(cs, i, "FROM") {
        Some(k) => {
            let w = scan(cs, k, Class::Space);
            proof {
                lemma_skip(cs@, i as int, k as int);
                lemma_skip(cs@, i as int, w as int);
            }
            if w > k {
                whats(src, cs, w)
            } else {
                None
            }
        },
        None => None,
    };
    let (what, e) = match behind {
        Some(r) => r,
        None => match whats(src, cs, i) {
            Some(r) => r,
            None => {
                return None;
            },
        },
    };
    proof {
        lemma_whats_targets(cs@.skip(i as int));
        lemma_whats_targets(cs@.skip(i as int).skip(opt_from(cs@.skip(i as int)) as int));
        lemma_values_view(what.0@);
    }
    if reserved(&what.0[0]) {
        return None;
    }
    Some((what, e))
}

/// The `WHERE` clause behind blanks at `i`, if one is there, and the
/// position behind it; else `i`.
fn maybe_cond(src: &str, cs: &Vec<char>, i: usize) -> (r: (Option<Cond>, usize))
    requires
        cs@ == src@,
        i <= cs.len(),
    ensures
        i <= r.1 <= cs.len(),
        opt_cond(cs@.skip(i as int)).1 == r.1 - i,
        match r.0 {
            Some(c) => opt_cond(cs@.skip(i as int)).0 == Some(c@),
            None => opt_cond(cs@.skip(i as int)).0 is None,
        },
{
    proof {
        reveal(opt_cond);
    }
    let w = scan(cs, i, Class::Space);
    proof {
        lemma_skip(cs@, i as int, w as int);
    }
    if w > i {
        match cond(src, cs, w) {
            Some((c, e)) => (Some(c), e),
            None => (None, i),
        }
    } else {
        (None, i)
    }
}

/// The `RETURN` clause behind blanks at `i`, if one is there, and the
/// position behind it; else `i`.
fn maybe_output(cs: &Vec<char>, i: usize) -> (r: (Option<Output>, usize))
    requires
        i <= cs.len(),
    ensures
        i <= r.1 <= cs.len(),
        opt_output(cs@.skip(i as int)) == (r.0, (r.1 - i) as nat),
{
    proof {
        reveal(opt_output);
    }
    let w = scan(cs, i, Class::Space);
    proof {
        lemma_skip(cs@, i as int, w as int);
    }
    if w > i {
        match output(cs, w) {
            Some((o, e)) => (Some(o), e),
            None => (None, i),
        }
    } else {
        (None, i)
    }
}

/// The `TIMEOUT` clause behind blanks at `i`, if one is there, and the
/// position behind it; else `i`.
fn maybe_timeout(cs: &Vec<char>, i: usize) -> (r: (Option<Timeout>, usize))
    requires
        i <= cs.len(),
    ensures
        i <= r.1 <= cs.len(),
        opt_timeout(cs@.skip(i as int)) == (r.0, (r.1 - i) as nat),
{
    proof {
        reveal(opt_timeout);
    }
    let w = scan(cs, i, Class::Space);
    proof {
        lemma_skip(cs@, i as int, w as int);
    }
    if w > i {
        match timeout(cs, w) {
            Some((t, e)) => (Some(t), e),
            None => (None, i),
        }
    } else {
        (None, i)
    }
}

/// The clauses at `i`, and the position behind them.
fn clauses(src: &str, cs: &Vec<char>, i: usize) -> (r: (
    Option<Cond>,
    Option<Output>,
    Option<Timeout>,
    usize,
))
    requires
        cs@ == src@,
        i <= cs.len(),
    ensures
        i <= r.3 <= cs.len(),
        spec_clauses(cs@.skip(i as int)).1 == r.1,
        spec_clauses(cs@.skip(i as int)).2 == r.2,
        spec_clauses(cs@.skip(i as int)).3 == r.3 - i,
        match r.0 {
            Some(c) => spec_clauses(cs@.skip(i as int)).0 == Some(c@),
            None => spec_clauses(cs@.skip(i as int)).0 is None,
        },
{
    proof {
        reveal(spec_clauses);
        reveal(spec_tail);
    }
    let (cond, k4) = maybe_cond(src, cs, i);
    let (output, k5) = maybe_output(cs, k4);
    let (timeout, k6) = maybe_timeout(cs, k5);
    proof {
        lemma_skip(cs@, i as int, k4 as int);
        lemma_skip(cs@, k4 as int, k5 as int);
    }
    (cond, output, timeout, k6)
}

/// Reads a `DELETE` statement from the head of `i`. Gives the statement and
/// the text behind it, or a syntax error where `i` does not begin with one.
pub fn delete<'a>(i: &'a str) -> (r: Result<(&'a str, DeleteStatement), Error>)
    ensures
        match r {
            Ok((rest, stmt)) => match spec_delete(i@) {
                Some((v, n)) => stmt@ == v && n <= i@.len() && rest@ == i@.skip(n as int),
                None => false,
            },
            Err(e) => spec_delete(i@) is None && e@ == ErrorView::SyntaxError,
        },
{
    proof {
        reveal(spec_body);
    }
    let cs = chars_of(i);
    let k2 = match head(&cs) {
        Some(p) => p,
        None => {
            return Err(Error::SyntaxError);
        },
    };
    let (what, k3) = match targets(i, &cs, k2) {
        Some(r) => r,
        None => {
            return Err(Error::SyntaxError);
        },
    };
    let (cond, output, timeout, k6) = clauses(i, &cs, k3);
    proof {
        lemma_skip(cs@, k2 as int, k3 as int);
    }
    let rest = i.substring_char(k6, cs.len());
    assert(rest@ =~= i@.skip(k6 as int));
    Ok((rest, DeleteStatement { what, cond, output, timeout }))
}

/// A statement as the grammar can write it: at least one target, each one
/// that the grammar has, the first not the bare word `FROM`, and a
/// condition, if any, that the grammar has.
pub open spec fn is_statement(d: DeleteStatementView) -> bool {
    &&& d.what.len() > 0
    &&& forall|i: int| 0 <= i < d.what.len() ==> is_target(#[trigger] d.what[i])
    &&& !is_from(d.what[0])
    &&& (d.cond matches Some(c) ==> is_cond(c))
}

/// `t` is empty, or begins with a blank and the letter `c`.
pub open spec fn opens_with(t: Seq<char>, c: char) -> bool {
    t.len() >= 2 && t[0] == ' ' && t[1] == c
}

/// A text that is empty or opens a clause can follow a list of targets.
pub proof fn lemma_clause_ends_list(t: Seq<char>)
    requires
        t.len() == 0 || opens_with(t, 'W') || opens_with(t, 'R') || opens_with(t, 'T'),
    ensures
        ends_list(t),
        stops(t, Class::Word),
{
    if t.len() > 0 {
        lemma_span(t, Class::Space, 1);
    }
}

/// The `TIMEOUT` part of a statement's text is read back at the end of the text.
pub proof fn lemma_opt_timeout_reads(tm: Option<Timeout>)
    ensures
        opt_timeout(part_timeout(tm)) == (tm, part_timeout(tm).len()),
        part_timeout(tm).len() == 0 || opens_with(part_timeout(tm), 'T'),
{
    reveal(opt_timeout);
    reveal_strlit(" ");
    match tm {
        Some(t) => {
            let r = render_timeout(t);
            lemma_timeout_reads(t, Seq::empty());
            assert(r + Seq::<char>::empty() =~= r);
            lemma_one_space(r);
            assert(part_timeout(tm)[1] == r[0]);
        },
        None => {},
    }
}

/// The `RETURN` part of a statement's text is read back before the `TIMEOUT` part.
pub proof fn lemma_opt_output_reads(o: Option<Output>, t: Seq<char>)
    requires
        t.len() == 0 || opens_with(t, 'T'),
    ensures
        opt_output(part_output(o) + t) == (o, part_output(o).len()),
        (part_output(o) + t).len() == 0 || opens_with(part_output(o) + t, 'R') || opens_with(
            part_output(o) + t,
            'T',
        ),
{
    reveal(opt_output);
    reveal_strlit(" ");
    let s = part_output(o) + t;
    match o {
        Some(x) => {
            let r = render_output(x);
            lemma_output_reads(x, t);
            assert((r + t)[0] == r[0]);
            lemma_one_space(r + t);
            assert(s =~= " "@ + (r + t));
            assert(s[1] == r[0]);
        },
        None => {
            assert(s =~= t);
            if t.len() > 0 {
                lemma_span(t, Class::Space, 1);
                assert(spec_output(t.skip(1)) is None) by {
                    reveal(spec_output);
                    reveal_strlit("RETURN");
                    lemma_keyword_fails(t.skip(1), "RETURN"@, 0);
                }
            }
        },
    }
}

/// The `WHERE` part of a statement's text is read back before the parts behind it.
pub proof fn lemma_opt_cond_reads(c: Option<CondView>, t: Seq<char>)
    requires
        c matches Some(x) ==> is_cond(x),
        t.len() == 0 || opens_with(t, 'R') || opens_with(t, 'T'),
    ensures
        opt_cond(part_cond(c) + t) == (c, part_cond(c).len()),
        (part_cond(c) + t).len() == 0 || opens_with(part_cond(c) + t, 'W') || opens_with(
            part_cond(c) + t,
            'R',
        ) || opens_with(part_cond(c) + t, 'T'),
{
    reveal(opt_cond);
    reveal_strlit(" ");
    let s = part_cond(c) + t;
    match c {
        Some(x) => {
            let r = render_cond(x);
            lemma_cond_reads(x, t);
            assert((r + t)[0] == r[0]);
            lemma_one_space(r + t);
            assert(s =~= " "@ + (r + t));
            assert(s[1] == r[0]);
        },
        None => {
            assert(s =~= t);
            if t.len() > 0 {
                lemma_span(t, Class::Space, 1);
                assert(spec_cond(t.skip(1)) is None) by {
                    reveal(spec_cond);
                    reveal_strlit("WHERE");
                    lemma_keyword_fails(t.skip(1), "WHERE"@, 0);
                }
            }
        },
    }
}

/// The text of a statement's clauses is read back at the end of the text.
pub proof fn lemma_clauses_read(d: DeleteStatementView)
    requires
        d.cond matches Some(x) ==> is_cond(x),
    ensures
        spec_clauses(render_clauses(d)) == (d.cond, d.output, d.timeout, render_clauses(d).len()),
        ends_list(render_clauses(d)),
{
    reveal(spec_clauses);
    reveal(spec_tail);
    let t3 = part_timeout(d.timeout);
    let t2 = part_output(d.output) + t3;
    let t1 = part_cond(d.cond) + t2;
    lemma_opt_timeout_reads(d.timeout);
    lemma_opt_output_reads(d.output, t3);
    lemma_opt_cond_reads(d.cond, t2);
    assert(t1.skip(part_cond(d.cond).len() as int) =~= t2);
    assert(t2.skip(part_output(d.output).len() as int) =~= t3);
    lemma_clause_ends_list(t1);
}

/// The opening of a statement's text is read back before its targets.
pub proof fn lemma_head_reads(x: Seq<char>)
    requires
        stops(x, Class::Space),
    ensures
        spec_head("DELETE "@ + x) == Some(7nat),
        ("DELETE "@ + x).skip(7) == x,
{
    reveal(spec_head);
    reveal_strlit("DELETE");
    reveal_strlit("DELETE ");
    reveal_strlit(" ");
    let s = "DELETE "@ + x;
    assert(s =~= "DELETE"@ + (" "@ + x));
    lemma_keyword_reads("DELETE"@, " "@ + x);
    assert(s.skip(6) =~= " "@ + x);
    lemma_one_space(x);
    assert(s.skip(7) =~= x);
}

/// The text of a target that is not the bare word `FROM` is not taken for
/// the keyword: where it begins with these letters, no blank follows them.
pub proof fn lemma_not_from(v: ValueView, rest: Seq<char>)
    requires
        is_target(v),
        !is_from(v),
        stops(rest, Class::Word),
    ensures
        has_keyword(render_value(v) + rest, "FROM"@) ==> span(
            (render_value(v) + rest).skip(4),
            Class::Space,
        ) == 0,
{
    reveal_strlit("FROM");
    reveal_strlit(":");
    let rv = render_value(v);
    let x = rv + rest;
    lemma_target_head(v);
    assert(x[0] == rv[0]);
    if has_keyword(x, "FROM"@) {
        assert(same_letter(x[0], 'F'));
        assert(same_letter(x[1], 'R'));
        assert(same_letter(x[2], 'O'));
        assert(same_letter(x[3], 'M'));
        match v {
            ValueView::Table(t) => {
                lemma_word_then(t, rest);
                if t.len() == 4 {
                    assert forall|i: int| 0 <= i < 4 implies same_letter(
                        #[trigger] t[i],
                        "FROM"@[i],
                    ) by {
                        assert(x[i] == t[i]);
                    }
                }
            },
            ValueView::Thing(th) => {
                let tail = ":"@ + render_id(th.id) + rest;
                assert(x =~= th.tb + tail);
                assert(tail[0] == ':');
                lemma_word_then(th.tb, tail);
            },
            _ => {},
        }
    }
}

/// A name before a text that stops it: the characters of the name are
/// those of a word, and the one behind them, if there is one, is not.
pub proof fn lemma_word_then(t: Seq<char>, rest: Seq<char>)
    requires
        is_ident(t),
        stops(rest, Class::Word),
    ensures
        forall|i: int| 0 <= i < t.len() ==> is_word(#[trigger] (t + rest)[i]),
        rest.len() > 0 ==> !is_word((t + rest)[t.len() as int]),
        (t + rest).len() == t.len() + rest.len(),
        t.len() > 4 ==> span((t + rest).skip(4), Class::Space) == 0,
        t.len() == 4 && rest.len() > 0 && !is_space(rest[0]) ==> span(
            (t + rest).skip(4),
            Class::Space,
        ) == 0,
        t.len() == 4 && rest.len() == 0 ==> span((t + rest).skip(4), Class::Space) == 0,
{
    let x = t + rest;
    assert forall|i: int| 0 <= i < t.len() implies is_word(#[trigger] x[i]) by {
        assert(x[i] == t[i]);
    }
    if rest.len() > 0 {
        assert(x[t.len() as int] == rest[0]);
    }
    if t.len() >= 4 && x.len() > 4 {
        assert(x.skip(4)[0] == x[4]);
        if t.len() > 4 {
            assert(is_word(x[4]));
        }
    }
}

/// The text of a list of targets whose first is not the bare word `FROM`
/// is read back, with no `FROM` taken, before a text that can follow it.
pub proof fn lemma_targets_read(w: Seq<ValueView>, t: Seq<char>)
    requires
        w.len() > 0,
        forall|i: int| 0 <= i < w.len() ==> is_target(#[trigger] w[i]),
        !is_from(w[0]),
        ends_list(t),
    ensures
        spec_targets(render_values(w) + t) == Some((w, render_values(w).len())),
{
    reveal(spec_targets);
    reveal(opt_from);
    reveal_strlit("FROM");
    reveal_strlit(", ");
    let x = render_values(w) + t;
    let rest = render_more(w, 1) + t;
    lemma_items_split(w, 0);
    assert(x =~= render_value(w[0]) + rest);
    assert(stops(rest, Class::Word)) by {
        if 1 < w.len() {
            assert(rest =~= ", "@ + (render_value(w[1]) + render_more(w, 2) + t));
            assert(rest[0] == ',');
        } else {
            assert(rest =~= t);
        }
    }
    lemma_not_from(w[0], rest);
    assert(opt_from(x) == 0);
    assert(x.skip(0) =~= x);
    lemma_whats_reads(w, t);
}

/// Reading the text of a statement gives the statement back, and takes the
/// whole text. This holds of every statement that the grammar can write.
pub proof fn lemma_delete_reads(d: DeleteStatementView)
    requires
        is_statement(d),
    ensures
        spec_delete(render_delete(d)) == Some((d, render_delete(d).len())),
{
    reveal(spec_body);
    reveal_strlit("DELETE ");
    let w = render_values(d.what);
    let t = render_clauses(d);
    let x = w + t;
    lemma_clauses_read(d);
    lemma_items_split(d.what, 0);
    lemma_target_head(d.what[0]);
    assert(x[0] == render_value(d.what[0])[0]);
    lemma_head_reads(x);
    lemma_targets_read(d.what, t);
    assert(x.skip(w.len() as int) =~= t);
}

/// What is read as a statement is one that the grammar can write.
pub proof fn lemma_delete_is_statement(s: Seq<char>)
    ensures
        spec_delete(s) matches Some((d, n)) ==> is_statement(d),
{
    reveal(spec_body);
    reveal(spec_targets);
    reveal(spec_clauses);
    reveal(opt_cond);
    if let Some(p) = spec_head(s) {
        let b = s.skip(p as int);
        let k = opt_from(b);
        lemma_whats_targets(b.skip(k as int));
        if let Some((what, n)) = spec_targets(b) {
            let c = b.skip(n as int);
            lemma_cond_is_cond(c.skip(span(c, Class::Space) as int));
        }
    }
}

/// Reading a text, writing what was read and reading that gives what the
/// first reading gave, and takes the whole of what was written. This holds
/// of every text that reads as a statement.
pub proof fn lemma_delete_rereads(s: Seq<char>)
    requires
        spec_delete(s) is Some,
    ensures
        spec_delete(render_delete(spec_delete(s).unwrap().0)) == Some(
            (spec_delete(s).unwrap().0, render_delete(spec_delete(s).unwrap().0).len()),
        ),
{
    lemma_delete_is_statement(s);
    lemma_delete_reads(spec_delete(s).unwrap().0);
}

/// A statement without clauses is written as `DELETE` and its targets.
pub proof fn lemma_bare_delete(d: DeleteStatementView)
    requires
        d.cond is None,
        d.output is None,
        d.timeout is None,
    ensures
        render_delete(d) == "DELETE "@ + render_values(d.what),
{
    assert(render_delete(d) =~= "DELETE "@ + render_values(d.what));
}

/// What a statement leaves behind: the records, and what it hands back.
pub struct Outcome {
    pub records: Seq<RecordView>,
    pub result: Result<ValueView, ErrorView>,
}

/// An evaluation gave the value `v`.
pub open spec fn gave(r: Result<Value, Error>, v: ValueView) -> bool {
    r matches Ok(x) && x@ == v
}

/// An evaluation failed with the error `e`.
pub open spec fn failed(r: Result<Value, Error>, e: ErrorView) -> bool {
    r matches Err(x) && x@ == e
}

/// What a document at hand stands for.
pub open spec fn doc_view(doc: Option<&Value>) -> Option<ValueView> {
    match doc {
        Some(d) => Some(d@),
        None => None,
    }
}

/// What the first `n` targets of a statement queue, each evaluated and then
/// taken for what it stands for, or the first value that cannot be a target.
pub open spec fn queued_by_targets(
    what: Seq<ValueView>,
    n: nat,
    recs: Seq<RecordView>,
    s: Setup,
    doc: Option<ValueView>,
) -> Result<Seq<ValueView>, ValueView>
    decreases n,
{
    if n == 0 || n > what.len() {
        Ok(Seq::empty())
    } else {
        match queued_by_targets(what, (n - 1) as nat, recs, s, doc) {
            Ok(q) => match queued_by_target(evaluate(what[n - 1], s.vars, doc), recs, s.ns, s.db) {
                Ok(x) => Ok(q + x),
                Err(v) => Err(v),
            },
            Err(v) => Err(v),
        }
    }
}

/// What a `DELETE` does to the records of a transaction, and what it hands
/// back. Where a target is of a kind that cannot be one, nothing is
/// deleted and the error carries the value. Else every queued record that
/// is there and passes the condition leaves, in the order of the queue, and
/// the list of what the output mode asks for each is handed back.
pub open spec fn delete_outcome(
    d: DeleteStatementView,
    recs: Seq<RecordView>,
    s: Setup,
    doc: Option<ValueView>,
) -> Outcome {
    match queued_by_targets(d.what, d.what.len(), recs, s, doc) {
        Ok(q) => {
            let end = run(q, q.len(), recs, s);
            Outcome { records: end.0, result: Ok(ValueView::Array(end.1)) }
        },
        Err(v) => Outcome {
            records: recs,
            result: Err(ErrorView::StatementTargetError { value: v }),
        },
    }
}

/// Where the first targets fail, the statement fails with the same value.
pub proof fn lemma_targets_fail(
    what: Seq<ValueView>,
    n: nat,
    m: nat,
    recs: Seq<RecordView>,
    s: Setup,
    doc: Option<ValueView>,
)
    requires
        n <= m <= what.len(),
        queued_by_targets(what, n, recs, s, doc) is Err,
    ensures
        queued_by_targets(what, m, recs, s, doc) == queued_by_targets(what, n, recs, s, doc),
    decreases m - n,
{
    if n < m {
        lemma_targets_fail(what, n, (m - 1) as nat, recs, s, doc);
    }
}

/// The first value among the first `n` targets of a statement, each
/// evaluated, for which a target is refused, if there is one.
pub open spec fn first_refusal(
    what: Seq<ValueView>,
    n: nat,
    vars: Seq<(Seq<char>, ValueView)>,
    doc: Option<ValueView>,
) -> Option<ValueView>
    decreases n,
{
    if n == 0 || n > what.len() {
        None
    } else {
        match first_refusal(what, (n - 1) as nat, vars, doc) {
            Some(x) => Some(x),
            None => refused_in(evaluate(what[n - 1], vars, doc)),
        }
    }
}

/// The targets of a statement are taken exactly when none of them is
/// refused, and fail with the first value that is, whatever the store holds.
pub proof fn lemma_targets_taken(
    what: Seq<ValueView>,
    n: nat,
    recs: Seq<RecordView>,
    s: Setup,
    doc: Option<ValueView>,
)
    requires
        n <= what.len(),
    ensures
        match queued_by_targets(what, n, recs, s, doc) {
            Ok(_) => first_refusal(what, n, s.vars, doc) is None,
            Err(x) => first_refusal(what, n, s.vars, doc) == Some(x),
        },
    decreases n,
{
    if n > 0 {
        lemma_targets_taken(what, (n - 1) as nat, recs, s, doc);
        lemma_targets_by_kind(evaluate(what[n - 1], s.vars, doc), recs, s.ns, s.db);
    }
}

/// A statement fails for a target exactly when one of its targets,
/// evaluated, is refused; the error then carries the first value that is
/// refused, in the order of the targets, and the records are as they were.
/// Else it succeeds.
pub proof fn lemma_delete_refused(
    d: DeleteStatementView,
    recs: Seq<RecordView>,
    s: Setup,
    doc: Option<ValueView>,
)
    ensures
        match first_refusal(d.what, d.what.len(), s.vars, doc) {
            Some(x) => delete_outcome(d, recs, s, doc) == (Outcome {
                records: recs,
                result: Err(ErrorView::StatementTargetError { value: x }),
            }),
            None => delete_outcome(d, recs, s, doc).result is Ok,
        },
{
    lemma_targets_taken(d.what, d.what.len(), recs, s, doc);
}

impl DeleteStatement {
    /// What the statement works with in an executor's transaction.
    pub open spec fn setup(&self, exe: &Executor, ctx: &Runtime) -> Setup {
        Setup {
            ns: crate::kvs::tx::name_view(exe.ns),
            db: crate::kvs::tx::name_view(exe.db),
            cond: self@.cond,
            output: self.output,
            vars: ctx@,
        }
    }

    /// Looks at each target, evaluated, and gives the first value for
    /// which one is refused, if there is one.
    fn refused(&self, ctx: &Runtime, doc: Option<&Value>) -> (r: Option<Value>)
        ensures
            match r {
                Some(x) => first_refusal(self@.what, self@.what.len(), ctx@, doc_view(doc)) == Some(
                    x@,
                ),
                None => first_refusal(self@.what, self@.what.len(), ctx@, doc_view(doc)) is None,
            },
    {
        let ghost what = self@.what;
        proof {
            lemma_values_view(self.what.0@);
        }
        let mut k: usize = 0;
        while k < self.what.0.len()
            invariant
                k <= self.what.0.len(),
                what == self@.what,
                what.len() == self.what.0.len(),
                forall|j: int| 0 <= j < what.len() ==> #[trigger] what[j] == self.what.0@[j]@,
                first_refusal(what, k as nat, ctx@, doc_view(doc)) is None,
            decreases self.what.0.len() - k,
        {
            let v = self.what.0[k].compute(&ctx.vars, doc);
            match refusal(&v) {
                Some(x) => {
                    proof {
                        lemma_first_refusal_stays(
                            what,
                            (k + 1) as nat,
                            what.len(),
                            ctx@,
                            doc_view(doc),
                        );
                    }
                    return Some(x);
                },
                None => {},
            }
            k += 1;
        }
        None
    }

    /// Runs the statement in the executor's transaction, once the session's
    /// level has been held against the level that a `DELETE` asks for: none.
    /// Every target is looked at before any is worked on. Where one is
    /// refused, the statement fails with the error that carries the value
    /// and nothing is deleted, with or without a time limit. Else the
    /// outcome is `delete_outcome`; with a time limit it is that, or a
    /// timeout, after which the transaction is for the caller to drop.
    pub fn compute(
        &self,
        ctx: &Runtime,
        opt: &Options,
        exe: &mut Executor,
        doc: Option<&Value>,
    ) -> (r: Result<Value, Error>)
        requires
            old(exe).txn.wf(),
            old(exe).txn.writes(),
        ensures
            final(exe).txn.wf(),
            final(exe).txn.writes(),
            final(exe).ns == old(exe).ns,
            final(exe).db == old(exe).db,
            final(exe)@.txn.scopes == old(exe)@.txn.scopes,
            ({
                let out = delete_outcome(
                    self@,
                    old(exe)@.txn.records,
                    self.setup(old(exe), ctx),
                    doc_view(doc),
                );
                match out.result {
                    Ok(v) => (gave(r, v) && final(exe)@.txn.records == out.records) || (
                    self.timeout is Some && failed(r, ErrorView::Timeout)),
                    Err(e) => failed(r, e) && final(exe)@.txn.records == old(exe)@.txn.records,
                }
            }),
            self.timeout matches Some(t) && nanos(t.0) == 0 ==> r is Err,
    {
        match exe.check(opt, Level::No) {
            Ok(_) => {},
            Err(e) => {
                return Err(e);
            },
        }
        let ghost s = self.setup(exe, ctx);
        let ghost recs = exe@.txn.records;
        let ghost what = self@.what;
        proof {
            lemma_delete_refused(self@, recs, s, doc_view(doc));
        }
        match self.refused(ctx, doc) {
            Some(x) => {
                return Err(Error::StatementTargetError { value: x });
            },
            None => {},
        }
        let mut i = Iterator::new();
        i.cond = match &self.cond {
            Some(c) => Some(c.clone()),
            None => None,
        };
        i.output = self.output;
        i.timeout = self.timeout;
        proof {
            lemma_values_view(self.what.0@);
        }
        let mut k: usize = 0;
        while k < self.what.0.len()
            invariant
                k <= self.what.0.len(),
                what == self@.what,
                what.len() == self.what.0.len(),
                forall|j: int| 0 <= j < what.len() ==> #[trigger] what[j] == self.what.0@[j]@,
                s == self.setup(exe, ctx),
                s == i.setup(exe, ctx),
                i.timeout == self.timeout,
                recs == exe@.txn.records,
                exe.txn.wf(),
                exe.txn.writes(),
                exe.ns == old(exe).ns,
                exe.db == old(exe).db,
                exe@.txn == old(exe)@.txn,
                queued_by_targets(what, what.len(), recs, s, doc_view(doc)) is Ok,
                queued_by_targets(what, k as nat, recs, s, doc_view(doc)) matches Ok(q)
                    && i.queued() == q,
            decreases self.what.0.len() - k,
        {
            let v = self.what.0[k].compute(&ctx.vars, doc);
            proof {
                if queued_by_targets(what, (k + 1) as nat, recs, s, doc_view(doc)) is Err {
                    lemma_targets_fail(what, (k + 1) as nat, what.len(), recs, s, doc_view(doc));
                }
            }
            match i.process(ctx, exe, v) {
                Ok(_) => {},
                Err(e) => {
                    return Err(e);
                },
            }
            k += 1;
        }
        i.output(ctx, exe)
    }
}

/// Where one of the first targets is refused, it is the one that the
/// statement is refused for.
pub proof fn lemma_first_refusal_stays(
    what: Seq<ValueView>,
    n: nat,
    m: nat,
    vars: Seq<(Seq<char>, ValueView)>,
    doc: Option<ValueView>,
)
    requires
        n <= m <= what.len(),
        first_refusal(what, n, vars, doc) is Some,
    ensures
        first_refusal(what, m, vars, doc) == first_refusal(what, n, vars, doc),
    decreases m - n,
{
    if n < m {
        lemma_first_refusal_stays(what, n, (m - 1) as nat, vars, doc);
    }
}

} // verus!
