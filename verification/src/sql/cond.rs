//! The `WHERE` clause: one comparison of a field with an operand.

use super::common::{
    has_keyword, has_prefix, ident, is_ident, keyword, lemma_digits,
    lemma_ident_is_ident, lemma_ident_reads, lemma_keyword_reads, lemma_number_bounds,
    lemma_number_fails, lemma_number_reads, lemma_one_space, lemma_prefix_fails, lemma_skip,
    literal, number, scan, span, spec_ident, spec_number, stops, Class,
};
use super::value::{evaluate, field_of, render_value, Object, Value, ValueView};
use super::what::{lemma_param_reads, param, spec_param};
use vstd::prelude::*;
use vstd::string::*;

verus! {

#[derive(Clone, Copy, Debug, PartialEq, Eq)]
pub enum Operator {
    Equal,
    NotEqual,
    LessThan,
    LessThanOrEqual,
    MoreThan,
    MoreThanOrEqual,
}

/// A field of the record, an operator, and what the field is held against:
/// a number or a parameter.
#[derive(Debug, PartialEq, Eq)]
pub struct Cond {
    pub l: String,
    pub o: Operator,
    pub r: Value,
}

pub struct CondView {
    pub l: Seq<char>,
    pub o: Operator,
    pub r: ValueView,
}

impl View for Cond {
    type V = CondView;

    open spec fn view(&self) -> CondView {
        CondView { l: self.l@, o: self.o, r: self.r@ }
    }
}

impl Clone for Cond {
    fn clone(&self) -> (r: Cond)
        ensures
            r@ == self@,
    {
        Cond { l: self.l.clone(), o: self.o, r: self.r.clone() }
    }
}

pub open spec fn render_operator(o: Operator) -> Seq<char> {
    match o {
        Operator::Equal => "="@,
        Operator::NotEqual => "!="@,
        Operator::LessThan => "<"@,
        Operator::LessThanOrEqual => "<="@,
        Operator::MoreThan => ">"@,
        Operator::MoreThanOrEqual => ">="@,
    }
}

/// The text of the clause: `WHERE field operator operand`.
pub open spec fn render_cond(c: CondView) -> Seq<char> {
    "WHERE "@ + c.l + " "@ + render_operator(c.o) + " "@ + render_value(c.r)
}

/// An operator at the head of `s`; of two that fit, the longer.
#[verifier::opaque]
pub open spec fn spec_operator(s: Seq<char>) -> Option<(Operator, nat)> {
    if has_prefix(s, "!="@) {
        Some((Operator::NotEqual, "!="@.len()))
    } else if has_prefix(s, "<="@) {
        Some((Operator::LessThanOrEqual, "<="@.len()))
    } else if has_prefix(s, ">="@) {
        Some((Operator::MoreThanOrEqual, ">="@.len()))
    } else if has_prefix(s, "="@) {
        Some((Operator::Equal, "="@.len()))
    } else if has_prefix(s, "<"@) {
        Some((Operator::LessThan, "<"@.len()))
    } else if has_prefix(s, ">"@) {
        Some((Operator::MoreThan, ">"@.len()))
    } else {
        None
    }
}

/// An operand at the head of `s`: a number, else a parameter.
#[verifier::opaque]
pub open spec fn spec_operand(s: Seq<char>) -> Option<(ValueView, nat)> {
    match spec_number(s) {
        Some((v, n)) => Some((ValueView::Number(v), n)),
        None => spec_param(s),
    }
}

/// An operand at the head of `s`, behind blanks if there are any.
#[verifier::opaque]
pub open spec fn spec_spaced_operand(s: Seq<char>) -> Option<(ValueView, nat)> {
    let w = span(s, Class::Space);
    match spec_operand(s.skip(w as int)) {
        Some((r, k)) => Some((r, w + k)),
        None => None,
    }
}

/// An operator and an operand at the head of `s`, each behind blanks if
/// there are any.
#[verifier::opaque]
pub open spec fn spec_rhs(s: Seq<char>) -> Option<((Operator, ValueView), nat)> {
    let w = span(s, Class::Space);
    match spec_operator(s.skip(w as int)) {
        Some((o, m)) => match spec_spaced_operand(s.skip((w + m) as int)) {
            Some((r, k)) => Some(((o, r), w + m + k)),
            None => None,
        },
        None => None,
    }
}

/// A comparison at the head of `s`: a field name, an operator and an
/// operand, with blanks allowed round the operator.
#[verifier::opaque]
pub open spec fn spec_comparison(s: Seq<char>) -> Option<(CondView, nat)> {
    match spec_ident(s) {
        Some((l, n)) => match spec_rhs(s.skip(n as int)) {
            Some(((o, r), m)) => Some((CondView { l, o, r }, n + m)),
            None => None,
        },
        None => None,
    }
}

/// A `WHERE` clause at the head of `s`: the keyword, blanks, a comparison.
#[verifier::opaque]
pub open spec fn spec_cond(s: Seq<char>) -> Option<(CondView, nat)> {
    if has_keyword(s, "WHERE"@) {
        let k0 = "WHERE"@.len();
        let k1 = k0 + span(s.skip(k0 as int), Class::Space);
        if k1 > k0 {
            match spec_comparison(s.skip(k1 as int)) {
                Some((c, n)) => Some((c, k1 + n)),
                None => None,
            }
        } else {
            None
        }
    } else {
        None
    }
}

/// A clause as the grammar can write it.
pub open spec fn is_cond(c: CondView) -> bool {
    is_ident(c.l) && match c.r {
        ValueView::Number(n) => 0 <= n <= u64::MAX,
        ValueView::Param(p) => is_ident(p),
        _ => false,
    }
}

/// Whether a comparison holds of two values. Two values are equal when
/// they are the same value; one is less than another when both are numbers
/// and the first is the smaller.
pub open spec fn compares(o: Operator, l: ValueView, r: ValueView) -> bool {
    match o {
        Operator::Equal => l == r,
        Operator::NotEqual => l != r,
        Operator::LessThan => l matches ValueView::Number(a) && r matches ValueView::Number(b)
            && a < b,
        Operator::LessThanOrEqual => l matches ValueView::Number(a) && r matches ValueView::Number(
            b,
        ) && a <= b,
        Operator::MoreThan => l matches ValueView::Number(a) && r matches ValueView::Number(b)
            && a > b,
        Operator::MoreThanOrEqual => l matches ValueView::Number(a) && r matches ValueView::Number(
            b,
        ) && a >= b,
    }
}

/// Whether a condition holds of a document: the field that it names, or
/// nothing where the document has no such field, compared with what the
/// operand evaluates to.
pub open spec fn holds(
    c: CondView,
    doc: Seq<(Seq<char>, ValueView)>,
    vars: Seq<(Seq<char>, ValueView)>,
) -> bool {
    compares(
        c.o,
        match field_of(doc, c.l) {
            Some(x) => x,
            None => ValueView::Null,
        },
        evaluate(c.r, vars, None),
    )
}

/// Whether a record passes a statement's condition: there is none, or it holds.
pub open spec fn passes(
    c: Option<CondView>,
    doc: Seq<(Seq<char>, ValueView)>,
    vars: Seq<(Seq<char>, ValueView)>,
) -> bool {
    match c {
        Some(c) => holds(c, doc, vars),
        None => true,
    }
}

impl Operator {
    /// Whether the comparison holds of two values.
    pub fn compare(&self, l: &Value, r: &Value) -> (b: bool)
        ensures
            b == compares(*self, l@, r@),
    {
        match self {
            Operator::Equal => l.same(r),
            Operator::NotEqual => !l.same(r),
            Operator::LessThan => match (l, r) {
                (Value::Number(a), Value::Number(b)) => *a < *b,
                _ => false,
            },
            Operator::LessThanOrEqual => match (l, r) {
                (Value::Number(a), Value::Number(b)) => *a <= *b,
                _ => false,
            },
            Operator::MoreThan => match (l, r) {
                (Value::Number(a), Value::Number(b)) => *a > *b,
                _ => false,
            },
            Operator::MoreThanOrEqual => match (l, r) {
                (Value::Number(a), Value::Number(b)) => *a >= *b,
                _ => false,
            },
        }
    }
}

impl Cond {
    /// Whether the condition holds of a document, with the parameters of `vars`.
    pub fn test(&self, doc: &Object, vars: &Object) -> (b: bool)
        ensures
            b == holds(self@, doc@, vars@),
    {
        let r = self.r.compute(vars, None);
        match doc.get(self.l.as_str()) {
            Some(l) => self.o.compare(l, &r),
            None => self.o.compare(&Value::Null, &r),
        }
    }
}

impl Operator {
    /// Writes the operator behind what `out` holds.
    pub fn write(&self, out: &mut String)
        ensures
            final(out)@ == old(out)@ + render_operator(*self),
    {
        match self {
            Operator::Equal => out.append("="),
            Operator::NotEqual => out.append("!="),
            Operator::LessThan => out.append("<"),
            Operator::LessThanOrEqual => out.append("<="),
            Operator::MoreThan => out.append(">"),
            Operator::MoreThanOrEqual => out.append(">="),
        }
    }
}

impl Cond {
    /// Writes the clause behind what `out` holds.
    pub fn write(&self, out: &mut String)
        ensures
            final(out)@ == old(out)@ + render_cond(self@),
    {
        out.append("WHERE ");
        out.append(self.l.as_str());
        out.append(" ");
        self.o.write(out);
        out.append(" ");
        self.r.write(out);
        assert(final(out)@ =~= old(out)@ + render_cond(self@));
    }
}

pub fn operator(cs: &Vec<char>, i: usize) -> (r: Option<(Operator, usize)>)
    requires
        i <= cs.len(),
    ensures
        match r {
            Some((o, j)) => i <= j <= cs.len() && spec_operator(cs@.skip(i as int)) == Some(
                (o, (j - i) as nat),
            ),
            None => spec_operator(cs@.skip(i as int)) is None,
        },
{
    proof {
        reveal(spec_operator);
    }
    proof {
        lemma_skip(cs@, i as int, i as int);
    }
    if let Some(j) = literal(cs, i, "!=") {
        return Some((Operator::NotEqual, j));
    }
    if let Some(j) = literal(cs, i, "<=") {
        return Some((Operator::LessThanOrEqual, j));
    }
    if let Some(j) = literal(cs, i, ">=") {
        return Some((Operator::MoreThanOrEqual, j));
    }
    if let Some(j) = literal(cs, i, "=") {
        return Some((Operator::Equal, j));
    }
    if let Some(j) = literal(cs, i, "<") {
        return Some((Operator::LessThan, j));
    }
    if let Some(j) = literal(cs, i, ">") {
        return Some((Operator::MoreThan, j));
    }
    None
}

pub fn operand(src: &str, cs: &Vec<char>, i: usize) -> (r: Option<(Value, usize)>)
    requires
        cs@ == src@,
        i <= cs.len(),
    ensures
        match r {
            Some((v, j)) => i < j <= cs.len() && spec_operand(cs@.skip(i as int)) == Some(
                (v@, (j - i) as nat),
            ),
            None => spec_operand(cs@.skip(i as int)) is None,
        },
{
    proof {
        reveal(spec_operand);
    }
    match number(cs, i) {
        Some((v, j)) => Some((Value::Number(v), j)),
        None => param(src, cs, i),
    }
}

/// The `WHERE` clause at `i`, if there is one, and the position behind it.
pub fn cond(src: &str, cs: &Vec<char>, i: usize) -> (r: Option<(Cond, usize)>)
    requires
        cs@ == src@,
        i <= cs.len(),
    ensures
        match r {
            Some((v, j)) => i < j <= cs.len() && spec_cond(cs@.skip(i as int)) == Some(
                (v@, (j - i) as nat),
            ),
            None => spec_cond(cs@.skip(i as int)) is None,
        },
{
    proof {
        reveal(spec_cond);
        reveal(spec_comparison);
        reveal(spec_rhs);
        reveal(spec_spaced_operand);
    }
    let k0 = match keyword(cs, i, "WHERE") {
        Some(p) => p,
        None => {
            return None;
        },
    };
    proof {
        lemma_skip(cs@, i as int, k0 as int);
    }
    let k1 = scan(cs, k0, Class::Space);
    if k1 == k0 {
        return None;
    }
    proof {
        lemma_skip(cs@, i as int, k1 as int);
    }
    let (l, k2) = match ident(src, cs, k1) {
        Some(r) => r,
        None => {
            return None;
        },
    };
    proof {
        lemma_skip(cs@, i as int, k2 as int);
    }
    let k3 = scan(cs, k2, Class::Space);
    proof {
        lemma_skip(cs@, k1 as int, k2 as int);
        lemma_skip(cs@, k2 as int, k3 as int);
    }
    let (o, k4) = match operator(cs, k3) {
        Some(r) => r,
        None => {
            return None;
        },
    };
    proof {
        lemma_skip(cs@, k2 as int, k4 as int);
    }
    let k5 = scan(cs, k4, Class::Space);
    proof {
        lemma_skip(cs@, k4 as int, k5 as int);
    }
    let (r, k6) = match operand(src, cs, k5) {
        Some(r) => r,
        None => {
            return None;
        },
    };
    Some((Cond { l, o, r }, k6))
}

/// The text of an operator is read back before a text that does not begin with `=`.
pub proof fn lemma_operator_reads(o: Operator, t: Seq<char>)
    requires
        t.len() == 0 || t[0] != '=',
    ensures
        spec_operator(render_operator(o) + t) == Some((o, render_operator(o).len())),
        render_operator(o).len() > 0,
        render_operator(o)[0] != ' ' && render_operator(o)[0] != '\t' && render_operator(o)[0]
            != '\n' && render_operator(o)[0] != '\r',
{
    reveal(spec_operator);
    reveal_strlit("=");
    reveal_strlit("!=");
    reveal_strlit("<");
    reveal_strlit("<=");
    reveal_strlit(">");
    reveal_strlit(">=");
    let r = render_operator(o);
    let s = r + t;
    assert(s[0] == r[0]);
    if r.len() > 1 {
        assert(s[1] == r[1]);
    } else if t.len() > 0 {
        assert(s[1] == t[0]);
    }
    lemma_keyword_reads(r, t);
    match o {
        Operator::NotEqual => {},
        Operator::LessThanOrEqual => {
            lemma_prefix_fails(s, "!="@, 0);
        },
        Operator::MoreThanOrEqual => {
            lemma_prefix_fails(s, "!="@, 0);
            lemma_prefix_fails(s, "<="@, 0);
        },
        Operator::Equal => {
            lemma_prefix_fails(s, "!="@, 0);
            lemma_prefix_fails(s, "<="@, 0);
            lemma_prefix_fails(s, ">="@, 0);
        },
        Operator::LessThan => {
            lemma_prefix_fails(s, "!="@, 0);
            lemma_prefix_fails(s, "<="@, 1);
            lemma_prefix_fails(s, ">="@, 0);
            lemma_prefix_fails(s, "="@, 0);
        },
        Operator::MoreThan => {
            lemma_prefix_fails(s, "!="@, 0);
            lemma_prefix_fails(s, "<="@, 0);
            lemma_prefix_fails(s, ">="@, 1);
            lemma_prefix_fails(s, "="@, 0);
            lemma_prefix_fails(s, "<"@, 0);
        },
    }
}

/// An operand as the grammar can write it.
pub open spec fn is_operand(v: ValueView) -> bool {
    match v {
        ValueView::Number(n) => 0 <= n <= u64::MAX,
        ValueView::Param(p) => is_ident(p),
        _ => false,
    }
}

/// The text of an operand is read back before a text that stops it.
pub proof fn lemma_operand_reads(v: ValueView, t: Seq<char>)
    requires
        is_operand(v),
        stops(t, Class::Word),
    ensures
        spec_operand(render_value(v) + t) == Some((v, render_value(v).len())),
        render_value(v).len() > 0,
        stops(render_value(v), Class::Space),
{
    reveal(spec_operand);
    reveal_strlit("$");
    match v {
        ValueView::Number(n) => {
            lemma_digits(n);
            lemma_number_reads(n, t);
        },
        ValueView::Param(p) => {
            let s = "$"@ + p + t;
            assert(s[0] == '$');
            assert(("$"@ + p)[0] == '$');
            lemma_number_fails(s);
            lemma_param_reads(p, t);
        },
        _ => {},
    }
}

/// The text of an operand behind one blank is read back before a text that stops it.
pub proof fn lemma_spaced_operand_reads(v: ValueView, t: Seq<char>)
    requires
        is_operand(v),
        stops(t, Class::Word),
    ensures
        spec_spaced_operand(" "@ + (render_value(v) + t)) == Some((v, 1 + render_value(v).len())),
{
    reveal(spec_spaced_operand);
    lemma_operand_reads(v, t);
    let x = render_value(v) + t;
    assert(x[0] == render_value(v)[0]);
    lemma_one_space(x);
}

/// The text of an operator and an operand, each behind one blank, is read
/// back before a text that stops it.
pub proof fn lemma_rhs_reads(o: Operator, v: ValueView, t: Seq<char>)
    requires
        is_operand(v),
        stops(t, Class::Word),
    ensures
        spec_rhs(" "@ + (render_operator(o) + (" "@ + (render_value(v) + t)))) == Some(
            ((o, v), 2 + render_operator(o).len() + render_value(v).len()),
        ),
{
    reveal(spec_rhs);
    reveal_strlit(" ");
    let op = render_operator(o);
    let x2 = " "@ + (render_value(v) + t);
    let x1 = op + x2;
    let s = " "@ + x1;
    assert(x2[0] == ' ');
    lemma_operator_reads(o, x2);
    assert(x1[0] == op[0]);
    lemma_one_space(x1);
    assert(s.skip((1 + op.len()) as int) =~= x2);
    lemma_spaced_operand_reads(v, t);
}

/// The text of a comparison is read back before a text that stops it.
pub proof fn lemma_comparison_reads(c: CondView, t: Seq<char>)
    requires
        is_cond(c),
        stops(t, Class::Word),
    ensures
        spec_comparison(c.l + (" "@ + (render_operator(c.o) + (" "@ + (render_value(c.r) + t)))))
            == Some((c, c.l.len() + 2 + render_operator(c.o).len() + render_value(c.r).len())),
{
    reveal(spec_comparison);
    reveal_strlit(" ");
    let x1 = " "@ + (render_operator(c.o) + (" "@ + (render_value(c.r) + t)));
    let s = c.l + x1;
    assert(x1[0] == ' ');
    lemma_ident_reads(c.l, x1);
    assert(s.skip(c.l.len() as int) =~= x1);
    lemma_rhs_reads(c.o, c.r, t);
}

/// The text of a `WHERE` clause is read back before a text that stops it.
pub proof fn lemma_cond_reads(c: CondView, t: Seq<char>)
    requires
        is_cond(c),
        stops(t, Class::Word),
    ensures
        spec_cond(render_cond(c) + t) == Some((c, render_cond(c).len())),
        render_cond(c).len() > 1,
        render_cond(c)[0] == 'W',
{
    reveal(spec_cond);
    reveal_strlit("WHERE");
    reveal_strlit("WHERE ");
    reveal_strlit(" ");
    let x1 = c.l + (" "@ + (render_operator(c.o) + (" "@ + (render_value(c.r) + t))));
    let x0 = " "@ + x1;
    let s = render_cond(c) + t;
    assert(s =~= "WHERE"@ + x0);
    assert(render_cond(c) =~= "WHERE"@ + (" "@ + c.l + " "@ + render_operator(c.o) + " "@
        + render_value(c.r)));
    lemma_keyword_reads("WHERE"@, x0);
    assert(s.skip(5) =~= x0);
    assert(x1[0] == c.l[0]);
    lemma_one_space(x1);
    assert(s.skip(6) =~= x1);
    lemma_comparison_reads(c, t);
}

/// What is read as a `WHERE` clause is one that the grammar can write.
pub proof fn lemma_cond_is_cond(s: Seq<char>)
    ensures
        spec_cond(s) matches Some((c, n)) ==> is_cond(c),
{
    reveal(spec_cond);
    if spec_cond(s) is Some {
        let k0 = "WHERE"@.len();
        let k1 = k0 + span(s.skip(k0 as int), Class::Space);
        lemma_comparison_is_cond(s.skip(k1 as int));
    }
}

/// What is read as a comparison is one that the grammar can write.
pub proof fn lemma_comparison_is_cond(s: Seq<char>)
    ensures
        spec_comparison(s) matches Some((c, n)) ==> is_cond(c),
{
    reveal(spec_comparison);
    reveal(spec_rhs);
    reveal(spec_spaced_operand);
    reveal(spec_operand);
    reveal(spec_param);
    lemma_ident_is_ident(s);
    if let Some((l, n)) = spec_ident(s) {
        let s1 = s.skip(n as int);
        let w = span(s1, Class::Space);
        if let Some((o, m)) = spec_operator(s1.skip(w as int)) {
            let s2 = s1.skip((w + m) as int);
            let w2 = span(s2, Class::Space);
            let s3 = s2.skip(w2 as int);
            lemma_number_bounds(s3);
            lemma_ident_is_ident(s3.skip(1));
        }
    }
}

} // verus!
