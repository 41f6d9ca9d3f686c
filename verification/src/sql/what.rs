//! The targets of a statement: how they are written and how they are read.

use super::common::{
    digits, has_prefix, ident, is_ident, is_space, is_word_start, lemma_ident_is_ident,
    lemma_ident_reads, lemma_keyword_reads,
    lemma_number_bounds, lemma_number_fails, lemma_number_reads, lemma_span, literal, number,
    scan, span, spec_ident, spec_number, stops, Class,
};
use super::value::{
    lemma_values_view, render_id, render_items, render_model, render_thing, render_value,
    render_values, values_view, write_values, Id, IdView, Model, ModelView, Thing, ThingView,
    Value, ValueView,
};
use vstd::prelude::*;

verus! {

/// The targets of a statement, in the order they were written.
#[derive(Debug, PartialEq, Eq)]
pub struct Values(pub Vec<Value>);

impl View for Values {
    type V = Seq<ValueView>;

    open spec fn view(&self) -> Seq<ValueView> {
        values_view(self.0@)
    }
}

impl Clone for Values {
    fn clone(&self) -> (r: Values)
        ensures
            r@ == self@,
    {
        let mut out: Vec<Value> = Vec::new();
        let mut i: usize = 0;
        while i < self.0.len()
            invariant
                i <= self.0.len(),
                out.len() == i,
                forall|k: int| 0 <= k < i ==> (#[trigger] out@[k])@ == self.0@[k]@,
            decreases self.0.len() - i,
        {
            out.push(self.0[i].clone());
            i += 1;
        }
        let r = Values(out);
        proof {
            lemma_values_view(self.0@);
            lemma_values_view(r.0@);
            assert(r@ =~= self@);
        }
        r
    }
}

impl Values {
    /// Writes the targets behind what `out` holds, with `, ` between them.
    pub fn write(&self, out: &mut String)
        ensures
            final(out)@ == old(out)@ + render_values(self@),
    {
        write_values(&self.0, out)
    }
}

/// An identifier at the head of `s`: a number, else a name.
#[verifier::opaque]
pub open spec fn spec_id(s: Seq<char>) -> Option<(IdView, nat)> {
    match spec_number(s) {
        Some((v, n)) => Some((IdView::Number(v), n)),
        None => match spec_ident(s) {
            Some((t, n)) => Some((IdView::String(t), n)),
            None => None,
        },
    }
}

/// A parameter at the head of `s`: `$` and a name.
#[verifier::opaque]
pub open spec fn spec_param(s: Seq<char>) -> Option<(ValueView, nat)> {
    if s.len() > 0 && s[0] == '$' {
        match spec_ident(s.skip(1)) {
            Some((name, n)) => Some((ValueView::Param(name), n + 1)),
            None => None,
        }
    } else {
        None
    }
}

/// A record reference at the head of `s`: a name, a colon, an identifier.
#[verifier::opaque]
pub open spec fn spec_thing(s: Seq<char>) -> Option<(ThingView, nat)> {
    match spec_ident(s) {
        Some((tb, n)) => {
            if n < s.len() && s[n as int] == ':' {
                match spec_id(s.skip((n + 1) as int)) {
                    Some((id, m)) => Some((ThingView { tb, id }, n + 1 + m)),
                    None => None,
                }
            } else {
                None
            }
        },
        None => None,
    }
}

/// A range at the head of `s`: `|`, a name, `:`, a number, `..`, a number, `|`.
#[verifier::opaque]
pub open spec fn spec_model(s: Seq<char>) -> Option<(ModelView, nat)> {
    if s.len() > 0 && s[0] == '|' {
        match spec_ident(s.skip(1)) {
            Some((table, a)) => {
                let p = 1 + a;
                if p < s.len() && s[p as int] == ':' {
                    match spec_number(s.skip((p + 1) as int)) {
                        Some((from, b)) => {
                            let q = p + 1 + b;
                            if has_prefix(s.skip(q as int), ".."@) {
                                match spec_number(s.skip((q + 2) as int)) {
                                    Some((to, c)) => {
                                        let r = q + 2 + c;
                                        if r < s.len() && s[r as int] == '|' {
                                            Some((ModelView { table, from, to }, r + 1))
                                        } else {
                                            None
                                        }
                                    },
                                    None => None,
                                }
                            } else {
                                None
                            }
                        },
                        None => None,
                    }
                } else {
                    None
                }
            },
            None => None,
        }
    } else {
        None
    }
}

/// One target at the head of `s`: a parameter, else a range, else a record
/// reference, else a table name.
#[verifier::opaque]
pub open spec fn spec_what(s: Seq<char>) -> Option<(ValueView, nat)> {
    match spec_param(s) {
        Some(r) => Some(r),
        None => match spec_model(s) {
            Some((m, n)) => Some((ValueView::Model(m), n)),
            None => match spec_thing(s) {
                Some((t, n)) => Some((ValueView::Thing(t), n)),
                None => match spec_ident(s) {
                    Some((t, n)) => Some((ValueView::Table(t), n)),
                    None => None,
                },
            },
        }
    }
}

/// The targets that follow the first: each behind a comma that blanks may
/// surround. The list ends, with nothing taken, where no comma and target
/// follow.
#[verifier::opaque]
pub open spec fn spec_more(s: Seq<char>) -> (Seq<ValueView>, nat)
    decreases s.len(),
{
    let a = span(s, Class::Space);
    if a < s.len() && s[a as int] == ',' {
        let b = span(s.skip((a + 1) as int), Class::Space);
        match spec_what(s.skip((a + 1 + b) as int)) {
            Some((v, n)) => {
                let k = a + 1 + b + n;
                if k <= s.len() {
                    let (rest, m) = spec_more(s.skip(k as int));
                    (seq![v] + rest, k + m)
                } else {
                    (Seq::empty(), 0)
                }
            },
            None => (Seq::empty(), 0),
        }
    } else {
        (Seq::empty(), 0)
    }
}

/// A list of targets at the head of `s`: at least one.
#[verifier::opaque]
pub open spec fn spec_whats(s: Seq<char>) -> Option<(Seq<ValueView>, nat)> {
    match spec_what(s) {
        Some((v, n)) => {
            let (rest, m) = spec_more(s.skip(n as int));
            Some((seq![v] + rest, n + m))
        },
        None => None,
    }
}

/// A target as the grammar can write it.
pub open spec fn is_target(v: ValueView) -> bool {
    match v {
        ValueView::Param(p) => is_ident(p),
        ValueView::Table(t) => is_ident(t),
        ValueView::Thing(t) => is_ident(t.tb) && is_id(t.id),
        ValueView::Model(m) => is_ident(m.table) && 0 <= m.from <= u64::MAX && 0 <= m.to
            <= u64::MAX,
        _ => false,
    }
}

pub fn id(src: &str, cs: &Vec<char>, i: usize) -> (r: Option<(Id, usize)>)
    requires
        cs@ == src@,
        i <= cs.len(),
    ensures
        match r {
            Some((v, j)) => i < j <= cs.len() && spec_id(cs@.skip(i as int)) == Some(
                (v@, (j - i) as nat),
            ),
            None => spec_id(cs@.skip(i as int)) is None,
        },
{
    proof {
        reveal(spec_id);
    }
    match number(cs, i) {
        Some((v, j)) => Some((Id::Number(v), j)),
        None => match ident(src, cs, i) {
            Some((t, j)) => Some((Id::String(t), j)),
            None => None,
        },
    }
}

pub fn param(src: &str, cs: &Vec<char>, i: usize) -> (r: Option<(Value, usize)>)
    requires
        cs@ == src@,
        i <= cs.len(),
    ensures
        match r {
            Some((v, j)) => i < j <= cs.len() && spec_param(cs@.skip(i as int)) == Some(
                (v@, (j - i) as nat),
            ),
            None => spec_param(cs@.skip(i as int)) is None,
        },
{
    proof {
        reveal(spec_param);
    }
    let ghost s = cs@.skip(i as int);
    if i < cs.len() && cs[i] == '$' {
        assert(s[0] == cs@[i as int]);
        assert(s.skip(1) =~= cs@.skip(i + 1));
        match ident(src, cs, i + 1) {
            Some((name, j)) => Some((Value::Param(name), j)),
            None => None,
        }
    } else {
        if i < cs.len() {
            assert(s[0] == cs@[i as int]);
        }
        None
    }
}

pub fn thing(src: &str, cs: &Vec<char>, i: usize) -> (r: Option<(Thing, usize)>)
    requires
        cs@ == src@,
        i <= cs.len(),
    ensures
        match r {
            Some((v, j)) => i < j <= cs.len() && spec_thing(cs@.skip(i as int)) == Some(
                (v@, (j - i) as nat),
            ),
            None => spec_thing(cs@.skip(i as int)) is None,
        },
{
    proof {
        reveal(spec_thing);
    }
    let ghost s = cs@.skip(i as int);
    match ident(src, cs, i) {
        Some((tb, j)) => {
            if j < cs.len() && cs[j] == ':' {
                assert(s[j - i] == cs@[j as int]);
                assert(s.skip(j - i + 1) =~= cs@.skip(j + 1));
                match id(src, cs, j + 1) {
                    Some((id, e)) => Some((Thing { tb, id }, e)),
                    None => None,
                }
            } else {
                if j < cs.len() {
                    assert(s[j - i] == cs@[j as int]);
                }
                None
            }
        },
        None => None,
    }
}

pub fn model(src: &str, cs: &Vec<char>, i: usize) -> (r: Option<(Model, usize)>)
    requires
        cs@ == src@,
        i <= cs.len(),
    ensures
        match r {
            Some((v, j)) => i < j <= cs.len() && spec_model(cs@.skip(i as int)) == Some(
                (v@, (j - i) as nat),
            ),
            None => spec_model(cs@.skip(i as int)) is None,
        },
{
    proof {
        reveal(spec_model);
    }
    let ghost s = cs@.skip(i as int);
    if !(i < cs.len() && cs[i] == '|') {
        if i < cs.len() {
            assert(s[0] == cs@[i as int]);
        }
        return None;
    }
    assert(s[0] == cs@[i as int]);
    assert(s.skip(1) =~= cs@.skip(i + 1));
    let (table, p) = match ident(src, cs, i + 1) {
        Some(r) => r,
        None => {
            return None;
        },
    };
    if !(p < cs.len() && cs[p] == ':') {
        if p < cs.len() {
            assert(s[p - i] == cs@[p as int]);
        }
        return None;
    }
    assert(s[p - i] == cs@[p as int]);
    assert(s.skip(p - i + 1) =~= cs@.skip(p + 1));
    let (from, q) = match number(cs, p + 1) {
        Some(r) => r,
        None => {
            return None;
        },
    };
    assert(s.skip(q - i) =~= cs@.skip(q as int));
    let d = match literal(cs, q, "..") {
        Some(d) => d,
        None => {
            return None;
        },
    };
    proof {
        reveal_strlit("..");
    }
    assert(s.skip(q - i + 2) =~= cs@.skip(d as int));
    let (to, e) = match number(cs, d) {
        Some(r) => r,
        None => {
            return None;
        },
    };
    if !(e < cs.len() && cs[e] == '|') {
        if e < cs.len() {
            assert(s[e - i] == cs@[e as int]);
        }
        return None;
    }
    assert(s[e - i] == cs@[e as int]);
    Some((Model { table, from, to }, e + 1))
}

/// One target at `i`, and the position behind it.
pub fn what(src: &str, cs: &Vec<char>, i: usize) -> (r: Option<(Value, usize)>)
    requires
        cs@ == src@,
        i <= cs.len(),
    ensures
        match r {
            Some((v, j)) => i < j <= cs.len() && spec_what(cs@.skip(i as int)) == Some(
                (v@, (j - i) as nat),
            ),
            None => spec_what(cs@.skip(i as int)) is None,
        },
{
    proof {
        reveal(spec_what);
    }
    if let Some(r) = param(src, cs, i) {
        return Some(r);
    }
    if let Some((m, j)) = model(src, cs, i) {
        return Some((Value::Model(m), j));
    }
    if let Some((t, j)) = thing(src, cs, i) {
        return Some((Value::Thing(t), j));
    }
    match ident(src, cs, i) {
        Some((t, j)) => Some((Value::Table(t), j)),
        None => None,
    }
}

/// The list of targets at `i`, and the position behind it.
pub fn whats(src: &str, cs: &Vec<char>, i: usize) -> (r: Option<(Values, usize)>)
    requires
        cs@ == src@,
        i <= cs.len(),
    ensures
        match r {
            Some((v, j)) => i < j <= cs.len() && spec_whats(cs@.skip(i as int)) == Some(
                (v@, (j - i) as nat),
            ),
            None => spec_whats(cs@.skip(i as int)) is None,
        },
{
    proof {
        reveal(spec_whats);
        reveal(spec_more);
    }
    let (first, start) = match what(src, cs, i) {
        Some(r) => r,
        None => {
            return None;
        },
    };
    let ghost s = cs@.skip(i as int);
    let ghost total = spec_more(cs@.skip(start as int));
    assert(s.skip(start - i) =~= cs@.skip(start as int));
    let mut out: Vec<Value> = Vec::new();
    out.push(first);
    let ghost head = first@;
    let ghost mut got: Seq<ValueView> = Seq::empty();
    let mut pos: usize = start;
    loop
        invariant
            cs@ == src@,
            i < start <= pos <= cs.len(),
            out@.len() == got.len() + 1,
            out@[0]@ == head,
            forall|k: int| 1 <= k < out@.len() ==> (#[trigger] out@[k])@ == got[k - 1],
            total == spec_more(cs@.skip(start as int)),
            total.0 == got + spec_more(cs@.skip(pos as int)).0,
            total.1 == (pos - start) + spec_more(cs@.skip(pos as int)).1,
        ensures
            spec_more(cs@.skip(pos as int)) == (Seq::<ValueView>::empty(), 0nat),
        decreases cs.len() - pos,
    {
        let ghost t = cs@.skip(pos as int);
        proof {
            reveal(spec_more);
        }
        let a = scan(cs, pos, Class::Space);
        if !(a < cs.len() && cs[a] == ',') {
            if a < cs.len() {
                assert(t[a - pos] == cs@[a as int]);
            }
            break ;
        }
        assert(t[a - pos] == cs@[a as int]);
        assert(t.skip(a - pos + 1) =~= cs@.skip(a + 1));
        let b = scan(cs, a + 1, Class::Space);
        assert(t.skip((a - pos) + 1 + (b - (a + 1))) =~= cs@.skip(b as int));
        match what(src, cs, b) {
            Some((v, e)) => {
                proof {
                    assert(t.skip(e - pos) =~= cs@.skip(e as int));
                    let rest = spec_more(cs@.skip(e as int));
                    assert(spec_more(t) == (seq![v@] + rest.0, ((e - pos) + rest.1) as nat));
                    assert(got.push(v@) + rest.0 =~= got + (seq![v@] + rest.0));
                    got = got.push(v@);
                }
                out.push(v);
                pos = e;
            },
            None => {
                break ;
            },
        }
    }
    let r = Values(out);
    proof {
        lemma_values_view(r.0@);
        assert(got + Seq::<ValueView>::empty() =~= got);
        assert(r@ =~= seq![head] + got);
    }
    Some((r, pos))
}

/// An identifier as the grammar can write it.
pub open spec fn is_id(id: IdView) -> bool {
    match id {
        IdView::Number(n) => 0 <= n <= u64::MAX,
        IdView::String(x) => is_ident(x),
    }
}

/// `t` can follow a list of targets: no target and no list goes on into it.
pub open spec fn ends_list(t: Seq<char>) -> bool {
    &&& stops(t, Class::Word)
    &&& (t.len() > 0 ==> t[0] != ':')
    &&& !(span(t, Class::Space) < t.len() && t[span(t, Class::Space) as int] == ',')
}

/// The text of the targets from the `k`-th on, each behind `, `.
pub open spec fn render_more(w: Seq<ValueView>, k: nat) -> Seq<char>
    decreases w.len() - k,
{
    if k >= w.len() {
        Seq::empty()
    } else {
        ", "@ + render_value(w[k as int]) + render_more(w, k + 1)
    }
}

/// A list's text is that of its first item and of the others, each behind `, `.
pub proof fn lemma_items_split(w: Seq<ValueView>, k: nat)
    requires
        k < w.len(),
    ensures
        render_items(w, k) == render_value(w[k as int]) + render_more(w, k + 1),
    decreases w.len() - k,
{
    if k + 1 < w.len() {
        lemma_items_split(w, k + 1);
        assert(render_items(w, k) =~= render_value(w[k as int]) + render_more(w, k + 1));
    } else {
        assert(render_more(w, k + 1) =~= Seq::<char>::empty());
        assert(render_items(w, k) =~= render_value(w[k as int]) + render_more(w, k + 1));
    }
}

/// The text of a target is not empty and begins with `$`, `|`, a letter or an
/// underscore.
pub proof fn lemma_target_head(v: ValueView)
    requires
        is_target(v),
    ensures
        render_value(v).len() > 0,
        !is_space(render_value(v)[0]),
        render_value(v)[0] != ',',
        v is Param ==> render_value(v)[0] == '$',
        v is Model ==> render_value(v)[0] == '|',
        v is Thing || v is Table ==> is_word_start(render_value(v)[0]),
{
    reveal_strlit("$");
    reveal_strlit("|");
    reveal_strlit(":");
    match v {
        ValueView::Param(p) => {
            assert(render_value(v) =~= "$"@ + p);
        },
        ValueView::Table(t) => {},
        ValueView::Thing(t) => {
            assert(render_value(v) =~= t.tb + (":"@ + render_id(t.id)));
            assert(render_value(v)[0] == t.tb[0]);
        },
        ValueView::Model(m) => {
            assert(render_value(v) =~= "|"@ + (m.table + ":"@ + digits(m.from) + ".."@ + digits(
                m.to,
            ) + "|"@));
        },
        _ => {},
    }
}

/// The text of an identifier is read back before a text that stops it.
pub proof fn lemma_id_reads(id: IdView, t: Seq<char>)
    requires
        is_id(id),
        stops(t, Class::Word),
    ensures
        spec_id(render_id(id) + t) == Some((id, render_id(id).len())),
{
    reveal(spec_id);
    match id {
        IdView::Number(n) => {
            lemma_number_reads(n, t);
        },
        IdView::String(x) => {
            assert((x + t)[0] == x[0]);
            lemma_number_fails(x + t);
            lemma_ident_reads(x, t);
        },
    }
}

/// The text of a parameter is read back before a text that stops it.
pub proof fn lemma_param_reads(p: Seq<char>, t: Seq<char>)
    requires
        is_ident(p),
        stops(t, Class::Word),
    ensures
        spec_param("$"@ + p + t) == Some((ValueView::Param(p), ("$"@ + p).len())),
{
    reveal(spec_param);
    reveal_strlit("$");
    let s = "$"@ + p + t;
    assert(s[0] == '$');
    assert(s.skip(1) =~= p + t);
    lemma_ident_reads(p, t);
}

/// The text of a record reference is read back before a text that stops it.
pub proof fn lemma_thing_reads(th: ThingView, t: Seq<char>)
    requires
        is_ident(th.tb),
        is_id(th.id),
        stops(t, Class::Word),
    ensures
        spec_thing(render_thing(th) + t) == Some((th, render_thing(th).len())),
{
    reveal(spec_thing);
    reveal_strlit(":");
    let r = render_id(th.id);
    let tail = ":"@ + r + t;
    let s = render_thing(th) + t;
    let n = th.tb.len();
    assert(s =~= th.tb + tail);
    assert(tail[0] == ':');
    lemma_ident_reads(th.tb, tail);
    assert(s[n as int] == ':');
    assert(s.skip((n + 1) as int) =~= r + t);
    lemma_id_reads(th.id, t);
}

/// The text of a range is read back, whatever follows.
pub proof fn lemma_model_reads(m: ModelView, t: Seq<char>)
    requires
        is_ident(m.table),
        0 <= m.from <= u64::MAX,
        0 <= m.to <= u64::MAX,
    ensures
        spec_model(render_model(m) + t) == Some((m, render_model(m).len())),
{
    reveal(spec_model);
    reveal_strlit("|");
    reveal_strlit(":");
    reveal_strlit("..");
    let a = m.table;
    let f = digits(m.from);
    let g = digits(m.to);
    let s = render_model(m) + t;
    let t4 = "|"@ + t;
    let t3 = g + t4;
    let t2 = ".."@ + t3;
    let t1 = ":"@ + (f + t2);
    assert(s =~= "|"@ + (a + t1));
    assert(s[0] == '|');
    assert(s.skip(1) =~= a + t1);
    assert(t1[0] == ':');
    lemma_ident_reads(a, t1);
    let p = 1 + a.len();
    assert(s[p as int] == ':');
    assert(s.skip((p + 1) as int) =~= f + t2);
    assert(t2[0] == '.');
    lemma_number_reads(m.from, t2);
    let q = p + 1 + f.len();
    assert(s.skip(q as int) =~= ".."@ + t3);
    lemma_keyword_reads(".."@, t3);
    assert(s.skip((q + 2) as int) =~= g + t4);
    assert(t4[0] == '|');
    lemma_number_reads(m.to, t4);
    let r = q + 2 + g.len();
    assert(s[r as int] == '|');
    assert(render_model(m).len() == r + 1);
}

/// No parameter is read where the text does not begin with `$`.
pub proof fn lemma_param_fails(s: Seq<char>)
    requires
        s.len() == 0 || s[0] != '$',
    ensures
        spec_param(s) is None,
{
    reveal(spec_param);
}

/// No range is read where the text does not begin with `|`.
pub proof fn lemma_model_fails(s: Seq<char>)
    requires
        s.len() == 0 || s[0] != '|',
    ensures
        spec_model(s) is None,
{
    reveal(spec_model);
}

/// The text of a target is read back before a text that no target goes on into.
pub proof fn lemma_what_reads(v: ValueView, t: Seq<char>)
    requires
        is_target(v),
        stops(t, Class::Word),
        t.len() > 0 ==> t[0] != ':',
    ensures
        spec_what(render_value(v) + t) == Some((v, render_value(v).len())),
{
    reveal(spec_what);
    let s = render_value(v) + t;
    lemma_target_head(v);
    assert(s[0] == render_value(v)[0]);
    match v {
        ValueView::Param(p) => {
            lemma_param_reads(p, t);
        },
        ValueView::Model(m) => {
            lemma_param_fails(s);
            lemma_model_reads(m, t);
        },
        ValueView::Thing(th) => {
            lemma_param_fails(s);
            lemma_model_fails(s);
            lemma_thing_reads(th, t);
        },
        ValueView::Table(x) => {
            lemma_param_fails(s);
            lemma_model_fails(s);
            lemma_ident_reads(x, t);
            assert(spec_thing(s) is None) by {
                reveal(spec_thing);
                if x.len() < s.len() {
                    assert(s[x.len() as int] == t[0]);
                }
            }
        },
        _ => {},
    }
}

/// The text of the targets behind the first is read back before a text that
/// can follow a list.
pub proof fn lemma_more_reads(w: Seq<ValueView>, k: nat, t: Seq<char>)
    requires
        k <= w.len(),
        forall|i: int| 0 <= i < w.len() ==> is_target(#[trigger] w[i]),
        ends_list(t),
    ensures
        spec_more(render_more(w, k) + t) == (w.skip(k as int), render_more(w, k).len()),
    decreases w.len() - k,
{
    reveal(spec_more);
    let s = render_more(w, k) + t;
    if k == w.len() {
        assert(s =~= t);
        assert(w.skip(k as int) =~= Seq::<ValueView>::empty());
    } else {
        reveal_strlit(", ");
        let v = w[k as int];
        let rv = render_value(v);
        let rest = render_more(w, k + 1) + t;
        lemma_target_head(v);
        assert(s =~= ", "@ + (rv + rest));
        assert(s[0] == ',');
        assert(span(s, Class::Space) == 0);
        let s1 = s.skip(1);
        assert(s1[0] == ' ');
        assert(s1[1] == rv[0]);
        assert(span(s1, Class::Space) == 1) by {
            lemma_span(s1, Class::Space, 1);
        }
        assert(s.skip(2) =~= rv + rest);
        assert(stops(rest, Class::Word) && (rest.len() > 0 ==> rest[0] != ':')) by {
            if k + 1 < w.len() {
                assert(rest =~= ", "@ + (render_value(w[(k + 1) as int]) + render_more(w, k + 2) + t));
                assert(rest[0] == ',');
            } else {
                assert(rest =~= t);
            }
        }
        lemma_what_reads(v, rest);
        let n = rv.len();
        assert(s.skip((2 + n) as int) =~= rest);
        lemma_more_reads(w, k + 1, t);
        assert(seq![v] + w.skip((k + 1) as int) =~= w.skip(k as int));
    }
}

/// The text of a list of targets is read back before a text that can follow it.
pub proof fn lemma_whats_reads(w: Seq<ValueView>, t: Seq<char>)
    requires
        w.len() > 0,
        forall|i: int| 0 <= i < w.len() ==> is_target(#[trigger] w[i]),
        ends_list(t),
    ensures
        spec_whats(render_values(w) + t) == Some((w, render_values(w).len())),
{
    reveal(spec_whats);
    reveal_strlit(", ");
    lemma_items_split(w, 0);
    let v = w[0];
    let rv = render_value(v);
    let rest = render_more(w, 1) + t;
    let s = render_values(w) + t;
    assert(s =~= rv + rest);
    assert(stops(rest, Class::Word) && (rest.len() > 0 ==> rest[0] != ':')) by {
        if 1 < w.len() {
            assert(rest =~= ", "@ + (render_value(w[1]) + render_more(w, 2) + t));
            assert(rest[0] == ',');
        } else {
            assert(rest =~= t);
        }
    }
    lemma_what_reads(v, rest);
    assert(s.skip(rv.len() as int) =~= rest);
    lemma_more_reads(w, 1, t);
    assert(seq![v] + w.skip(1) =~= w);
}

/// What is read as an identifier is one, and lies within the text.
pub proof fn lemma_id_is_id(s: Seq<char>)
    ensures
        spec_id(s) matches Some((id, n)) ==> is_id(id) && 0 < n <= s.len(),
{
    reveal(spec_id);
    lemma_number_bounds(s);
    lemma_ident_is_ident(s);
}

/// What is read as a target is one, and lies within the text.
pub proof fn lemma_what_is_target(s: Seq<char>)
    ensures
        spec_what(s) matches Some((v, n)) ==> is_target(v) && 0 < n <= s.len(),
{
    reveal(spec_what);
    reveal(spec_param);
    reveal(spec_thing);
    reveal_strlit("..");
    lemma_ident_is_ident(s);
    if s.len() > 0 {
        lemma_ident_is_ident(s.skip(1));
    }
    if spec_param(s) is None {
        if spec_model(s) is Some {
            lemma_model_is_model(s);
        } else if let Some((tb, n)) = spec_ident(s) {
            if n < s.len() {
                lemma_id_is_id(s.skip((n + 1) as int));
            }
        }
    }
}

/// What is read as a range is one, and lies within the text.
pub proof fn lemma_model_is_model(s: Seq<char>)
    ensures
        spec_model(s) matches Some((m, n)) ==> is_ident(m.table) && 0 <= m.from <= u64::MAX && 0
            <= m.to <= u64::MAX && 0 < n <= s.len(),
{
    reveal(spec_model);
    reveal_strlit("..");
    if s.len() > 0 && s[0] == '|' {
        lemma_ident_is_ident(s.skip(1));
        if let Some((table, a)) = spec_ident(s.skip(1)) {
            let p = 1 + a;
            if p < s.len() {
                lemma_number_bounds(s.skip((p + 1) as int));
                if let Some((from, b)) = spec_number(s.skip((p + 1) as int)) {
                    let q = p + 1 + b;
                    if has_prefix(s.skip(q as int), ".."@) {
                        lemma_number_bounds(s.skip((q + 2) as int));
                    }
                }
            }
        }
    }
}

/// The targets that are read behind the first are targets, and lie within the text.
pub proof fn lemma_more_targets(s: Seq<char>)
    ensures
        spec_more(s).1 <= s.len(),
        forall|i: int| 0 <= i < spec_more(s).0.len() ==> is_target(#[trigger] spec_more(s).0[i]),
    decreases s.len(),
{
    reveal(spec_more);
    let a = span(s, Class::Space);
    if a < s.len() && s[a as int] == ',' {
        let b = span(s.skip((a + 1) as int), Class::Space);
        lemma_what_is_target(s.skip((a + 1 + b) as int));
        if let Some((v, n)) = spec_what(s.skip((a + 1 + b) as int)) {
            let k = a + 1 + b + n;
            if k <= s.len() {
                lemma_more_targets(s.skip(k as int));
                let rest = spec_more(s.skip(k as int)).0;
                assert forall|i: int| 0 <= i < (seq![v] + rest).len() implies is_target(
                    #[trigger] (seq![v] + rest)[i],
                ) by {
                    if i > 0 {
                        assert((seq![v] + rest)[i] == rest[i - 1]);
                    }
                }
            }
        }
    }
}

/// The targets that are read are targets, at least one, and lie within the text.
pub proof fn lemma_whats_targets(s: Seq<char>)
    ensures
        spec_whats(s) matches Some((w, n)) ==> w.len() > 0 && n <= s.len() && forall|i: int|
            0 <= i < w.len() ==> is_target(#[trigger] w[i]),
{
    reveal(spec_whats);
    lemma_what_is_target(s);
    if let Some((v, n)) = spec_what(s) {
        lemma_more_targets(s.skip(n as int));
        let rest = spec_more(s.skip(n as int)).0;
        assert forall|i: int| 0 <= i < (seq![v] + rest).len() implies is_target(
            #[trigger] (seq![v] + rest)[i],
        ) by {
            if i > 0 {
                assert((seq![v] + rest)[i] == rest[i - 1]);
            }
        }
    }
}

} // verus!
