//! Values: what a statement names as its targets and what it evaluates to.

use super::common::{digits, write_number};
use vstd::prelude::*;
use vstd::string::*;

verus! {

/// The identifier of a record inside its table.
#[derive(Debug, PartialEq, Eq)]
pub enum Id {
    Number(u64),
    String(String),
}

pub enum IdView {
    Number(int),
    String(Seq<char>),
}

/// What an identifier stands for.
pub open spec fn id_view(id: Id) -> IdView {
    match id {
        Id::Number(n) => IdView::Number(n as int),
        Id::String(s) => IdView::String(s@),
    }
}

impl View for Id {
    type V = IdView;

    open spec fn view(&self) -> IdView {
        id_view(*self)
    }
}

impl Clone for Id {
    fn clone(&self) -> (r: Id)
        ensures
            r@ == self@,
    {
        match self {
            Id::Number(n) => Id::Number(*n),
            Id::String(s) => Id::String(s.clone()),
        }
    }
}

/// A reference to one record: a table and an identifier.
#[derive(Debug, PartialEq, Eq)]
pub struct Thing {
    pub tb: String,
    pub id: Id,
}

pub struct ThingView {
    pub tb: Seq<char>,
    pub id: IdView,
}

/// What a record reference stands for.
pub open spec fn thing_view(t: Thing) -> ThingView {
    ThingView { tb: t.tb@, id: id_view(t.id) }
}

impl View for Thing {
    type V = ThingView;

    open spec fn view(&self) -> ThingView {
        thing_view(*self)
    }
}

impl Clone for Thing {
    fn clone(&self) -> (r: Thing)
        ensures
            r@ == self@,
    {
        Thing { tb: self.tb.clone(), id: self.id.clone() }
    }
}

/// A range of numbered records of one table, both ends included.
#[derive(Debug, PartialEq, Eq)]
pub struct Model {
    pub table: String,
    pub from: u64,
    pub to: u64,
}

pub struct ModelView {
    pub table: Seq<char>,
    pub from: int,
    pub to: int,
}

/// What a range stands for.
pub open spec fn model_view(m: Model) -> ModelView {
    ModelView { table: m.table@, from: m.from as int, to: m.to as int }
}

impl View for Model {
    type V = ModelView;

    open spec fn view(&self) -> ModelView {
        model_view(*self)
    }
}

impl Clone for Model {
    fn clone(&self) -> (r: Model)
        ensures
            r@ == self@,
    {
        Model { table: self.table.clone(), from: self.from, to: self.to }
    }
}

/// A document: named fields in the order they were written. Where a name
/// occurs twice, the first occurrence is the one that is read.
#[derive(Debug, PartialEq, Eq)]
pub struct Object(pub Vec<(String, Value)>);

#[derive(Debug, PartialEq, Eq)]
pub enum Value {
    Null,
    Bool(bool),
    Number(u64),
    Strand(String),
    Param(String),
    Table(String),
    Thing(Thing),
    Model(Model),
    Array(Vec<Value>),
    Object(Object),
}

pub enum ValueView {
    Null,
    Bool(bool),
    Number(int),
    Strand(Seq<char>),
    Param(Seq<char>),
    Table(Seq<char>),
    Thing(ThingView),
    Model(ModelView),
    Array(Seq<ValueView>),
    Object(Seq<(Seq<char>, ValueView)>),
}

/// What a value stands for.
pub open spec fn value_view(v: Value) -> ValueView
    decreases v, 0nat,
{
    match v {
        Value::Null => ValueView::Null,
        Value::Bool(b) => ValueView::Bool(b),
        Value::Number(n) => ValueView::Number(n as int),
        Value::Strand(s) => ValueView::Strand(s@),
        Value::Param(s) => ValueView::Param(s@),
        Value::Table(s) => ValueView::Table(s@),
        Value::Thing(t) => ValueView::Thing(thing_view(t)),
        Value::Model(m) => ValueView::Model(model_view(m)),
        Value::Array(a) => ValueView::Array(items_view(a@, a@.len())),
        Value::Object(Object(f)) => ValueView::Object(pairs_view(f@, f@.len())),
    }
}

/// The views of the first `n` values of a list.
pub open spec fn items_view(s: Seq<Value>, n: nat) -> Seq<ValueView>
    decreases s, n,
{
    if n == 0 || n > s.len() {
        Seq::empty()
    } else {
        items_view(s, (n - 1) as nat).push(value_view(s[n - 1]))
    }
}

/// The views of the first `n` fields of a list.
pub open spec fn pairs_view(s: Seq<(String, Value)>, n: nat) -> Seq<(Seq<char>, ValueView)>
    decreases s, n,
{
    if n == 0 || n > s.len() {
        Seq::empty()
    } else {
        pairs_view(s, (n - 1) as nat).push((s[n - 1].0@, value_view(s[n - 1].1)))
    }
}

impl View for Value {
    type V = ValueView;

    open spec fn view(&self) -> ValueView {
        value_view(*self)
    }
}

/// The views of a list of values, item by item.
pub open spec fn values_view(s: Seq<Value>) -> Seq<ValueView> {
    items_view(s, s.len())
}

/// The views of a list of fields, item by item.
pub open spec fn fields_view(s: Seq<(String, Value)>) -> Seq<(Seq<char>, ValueView)> {
    pairs_view(s, s.len())
}

impl View for Object {
    type V = Seq<(Seq<char>, ValueView)>;

    open spec fn view(&self) -> Seq<(Seq<char>, ValueView)> {
        fields_view(self.0@)
    }
}

/// The first `n` views are those of the first `n` values.
pub proof fn lemma_items_view(s: Seq<Value>, n: nat)
    requires
        n <= s.len(),
    ensures
        items_view(s, n).len() == n,
        forall|i: int| 0 <= i < n ==> #[trigger] items_view(s, n)[i] == s[i]@,
    decreases n,
{
    if n > 0 {
        lemma_items_view(s, (n - 1) as nat);
    }
}

/// The first `n` views are those of the first `n` fields.
pub proof fn lemma_pairs_view(s: Seq<(String, Value)>, n: nat)
    requires
        n <= s.len(),
    ensures
        pairs_view(s, n).len() == n,
        forall|i: int|
            0 <= i < n ==> #[trigger] pairs_view(s, n)[i] == (s[i].0@, s[i].1@),
    decreases n,
{
    if n > 0 {
        lemma_pairs_view(s, (n - 1) as nat);
    }
}

/// A list's view has the list's length and holds the view of each item.
pub proof fn lemma_values_view(s: Seq<Value>)
    ensures
        values_view(s).len() == s.len(),
        forall|i: int| 0 <= i < s.len() ==> #[trigger] values_view(s)[i] == s[i]@,
{
    lemma_items_view(s, s.len());
}

/// A field list's view has the list's length and holds the view of each field.
pub proof fn lemma_fields_view(s: Seq<(String, Value)>)
    ensures
        fields_view(s).len() == s.len(),
        forall|i: int|
            0 <= i < s.len() ==> #[trigger] fields_view(s)[i] == (s[i].0@, s[i].1@),
{
    lemma_pairs_view(s, s.len());
}

/// The first field of that name, if there is one.
#[verifier::opaque]
pub open spec fn field_index(fields: Seq<(Seq<char>, ValueView)>, key: Seq<char>) -> Option<int> {
    if exists|i: int| 0 <= i < fields.len() && (#[trigger] fields[i]).0 == key {
        Some(
            choose|i: int|
                0 <= i < fields.len() && (#[trigger] fields[i]).0 == key && forall|j: int|
                    0 <= j < i ==> (#[trigger] fields[j]).0 != key,
        )
    } else {
        None
    }
}

/// What a document holds under a name: the first field of that name.
pub open spec fn field_of(fields: Seq<(Seq<char>, ValueView)>, key: Seq<char>) -> Option<
    ValueView,
> {
    match field_index(fields, key) {
        Some(i) => Some(fields[i].1),
        None => None,
    }
}

/// `i` is the first field of that name.
pub proof fn lemma_field_index(fields: Seq<(Seq<char>, ValueView)>, key: Seq<char>, i: int)
    requires
        0 <= i < fields.len(),
        fields[i].0 == key,
        forall|j: int| 0 <= j < i ==> (#[trigger] fields[j]).0 != key,
    ensures
        field_index(fields, key) == Some(i),
        field_of(fields, key) == Some(fields[i].1),
{
    reveal(field_index);
    let k = choose|k: int|
        0 <= k < fields.len() && (#[trigger] fields[k]).0 == key && forall|j: int|
            0 <= j < k ==> (#[trigger] fields[j]).0 != key;
    assert(k == i) by {
        if k < i {
            assert(fields[k].0 != key);
        }
        if i < k {
            assert(fields[i].0 != key);
        }
    }
}

impl Object {
    /// The value under `key`: that of the first field of that name.
    pub fn get(&self, key: &str) -> (r: Option<&Value>)
        ensures
            match r {
                Some(v) => field_of(self@, key@) == Some(v@),
                None => field_of(self@, key@) is None,
            },
    {
        let name = key.to_owned();
        let mut i: usize = 0;
        proof {
            lemma_fields_view(self.0@);
        }
        while i < self.0.len()
            invariant
                i <= self.0.len(),
                name@ == key@,
                self@.len() == self.0@.len(),
                forall|j: int|
                    0 <= j < self.0@.len() ==> #[trigger] self@[j] == (self.0@[j].0@, self.0@[j].1@),
                forall|j: int| 0 <= j < i ==> (#[trigger] self@[j]).0 != key@,
            decreases self.0.len() - i,
        {
            if self.0[i].0 == name {
                proof {
                    lemma_field_index(self@, key@, i as int);
                }
                return Some(&self.0[i].1);
            }
            i += 1;
        }
        proof {
            reveal(field_index);
        }
        None
    }
}

impl Clone for Object {
    fn clone(&self) -> (r: Object)
        ensures
            r@ == self@,
        decreases self,
    {
        let mut out: Vec<(String, Value)> = Vec::new();
        let mut i: usize = 0;
        while i < self.0.len()
            invariant
                i <= self.0.len(),
                out.len() == i,
                forall|k: int|
                    0 <= k < i ==> (#[trigger] out@[k]).0@ == self.0@[k].0@ && out@[k].1@
                        == self.0@[k].1@,
            decreases self.0.len() - i,
        {
            let e = &self.0[i];
            proof {
                assert(decreases_to!(*self => self.0));
                assert(decreases_to!(*self => self.0@[i as int]));
                assert(decreases_to!(self.0@[i as int] => self.0@[i as int].1));
            }
            out.push((e.0.clone(), e.1.clone()));
            i += 1;
        }
        let r = Object(out);
        proof {
            lemma_fields_view(self.0@);
            lemma_fields_view(r.0@);
            assert(r@ =~= self@);
        }
        r
    }
}

impl Clone for Value {
    fn clone(&self) -> (r: Value)
        ensures
            r@ == self@,
        decreases self,
    {
        match self {
            Value::Null => Value::Null,
            Value::Bool(b) => Value::Bool(*b),
            Value::Number(n) => Value::Number(*n),
            Value::Strand(s) => Value::Strand(s.clone()),
            Value::Param(s) => Value::Param(s.clone()),
            Value::Table(s) => Value::Table(s.clone()),
            Value::Thing(t) => Value::Thing(t.clone()),
            Value::Model(m) => Value::Model(m.clone()),
            Value::Array(v) => {
                let mut out: Vec<Value> = Vec::new();
                let mut i: usize = 0;
                while i < v.len()
                    invariant
                        i <= v.len(),
                        out.len() == i,
                        *self is Array,
                        self->Array_0 == *v,
                        forall|k: int| 0 <= k < i ==> (#[trigger] out@[k])@ == v@[k]@,
                    decreases v.len() - i,
                {
                    proof {
                        assert(decreases_to!(*self => self->Array_0));
                        assert(decreases_to!(*self => v@[i as int]));
                    }
                    out.push(v[i].clone());
                    i += 1;
                }
                let r = Value::Array(out);
                proof {
                    lemma_values_view(v@);
                    lemma_values_view(out@);
                    assert(r@->Array_0 =~= self@->Array_0);
                }
                r
            },
            Value::Object(o) => {
                proof {
                    assert(decreases_to!(*self => self->Object_0));
                }
                Value::Object(o.clone())
            },
        }
    }
}

/// The text of an identifier.
pub open spec fn render_id(id: IdView) -> Seq<char> {
    match id {
        IdView::Number(n) => digits(n),
        IdView::String(s) => s,
    }
}

/// The text of a record reference: table, colon, identifier.
pub open spec fn render_thing(t: ThingView) -> Seq<char> {
    t.tb + ":"@ + render_id(t.id)
}

/// The text of a range: `|table:from..to|`.
pub open spec fn render_model(m: ModelView) -> Seq<char> {
    "|"@ + m.table + ":"@ + digits(m.from) + ".."@ + digits(m.to) + "|"@
}

/// The text of a value.
pub open spec fn render_value(v: ValueView) -> Seq<char>
    decreases v, 0nat,
{
    match v {
        ValueView::Null => "NULL"@,
        ValueView::Bool(b) => if b {
            "true"@
        } else {
            "false"@
        },
        ValueView::Number(n) => digits(n),
        ValueView::Strand(s) => "'"@ + s + "'"@,
        ValueView::Param(p) => "$"@ + p,
        ValueView::Table(t) => t,
        ValueView::Thing(t) => render_thing(t),
        ValueView::Model(m) => render_model(m),
        ValueView::Array(a) => "["@ + render_items(a, 0) + "]"@,
        ValueView::Object(f) => "{"@ + render_fields(f, 0) + "}"@,
    }
}

/// The texts of the values from the `k`-th on, with `, ` between them.
pub open spec fn render_items(s: Seq<ValueView>, k: nat) -> Seq<char>
    decreases s, s.len() - k,
{
    if k >= s.len() {
        Seq::empty()
    } else if k + 1 == s.len() {
        render_value(s[k as int])
    } else {
        render_value(s[k as int]) + ", "@ + render_items(s, k + 1)
    }
}

/// The texts of the fields from the `k`-th on, each as `name: value`, with
/// `, ` between them.
pub open spec fn render_fields(s: Seq<(Seq<char>, ValueView)>, k: nat) -> Seq<char>
    decreases s, s.len() - k,
{
    if k >= s.len() {
        Seq::empty()
    } else if k + 1 == s.len() {
        s[k as int].0 + ": "@ + render_value(s[k as int].1)
    } else {
        s[k as int].0 + ": "@ + render_value(s[k as int].1) + ", "@ + render_fields(s, k + 1)
    }
}

/// The text of a list of values.
pub open spec fn render_values(s: Seq<ValueView>) -> Seq<char> {
    render_items(s, 0)
}

/// The text that a value contributes to a larger text: a string gives its
/// characters as they are, any other value its rendering.
pub open spec fn raw_string(v: ValueView) -> Seq<char> {
    match v {
        ValueView::Strand(s) => s,
        _ => render_value(v),
    }
}

impl Id {
    /// Writes the identifier behind what `out` holds.
    pub fn write(&self, out: &mut String)
        ensures
            final(out)@ == old(out)@ + render_id(self@),
    {
        match self {
            Id::Number(n) => write_number(out, *n),
            Id::String(s) => out.append(s.as_str()),
        }
    }
}

impl Thing {
    /// Writes the reference behind what `out` holds.
    pub fn write(&self, out: &mut String)
        ensures
            final(out)@ == old(out)@ + render_thing(self@),
    {
        out.append(self.tb.as_str());
        out.append(":");
        self.id.write(out);
        assert(final(out)@ =~= old(out)@ + render_thing(self@));
    }

    /// The reference as text: table, colon, identifier.
    pub fn to_raw(&self) -> (r: String)
        ensures
            r@ == render_thing(self@),
    {
        let mut out = String::new();
        self.write(&mut out);
        assert(out@ =~= render_thing(self@));
        out
    }
}

impl Model {
    /// Writes the range behind what `out` holds.
    pub fn write(&self, out: &mut String)
        ensures
            final(out)@ == old(out)@ + render_model(self@),
    {
        out.append("|");
        out.append(self.table.as_str());
        out.append(":");
        write_number(out, self.from);
        out.append("..");
        write_number(out, self.to);
        out.append("|");
        assert(final(out)@ =~= old(out)@ + render_model(self@));
    }
}

impl Object {
    /// Writes the fields behind what `out` holds, without the braces.
    pub fn write_fields(&self, out: &mut String)
        ensures
            final(out)@ == old(out)@ + render_fields(self@, 0),
        decreases self, 0nat,
    {
        let ghost start = out@;
        let ghost f = self@;
        let n = self.0.len();
        proof {
            lemma_fields_view(self.0@);
        }
        let mut i: usize = 0;
        while i < n
            invariant
                i <= n,
                n == self.0.len(),
                f == self@,
                f.len() == n,
                forall|j: int| 0 <= j < n ==> #[trigger] f[j] == (self.0@[j].0@, self.0@[j].1@),
                start + render_fields(f, 0) == out@ + render_fields(f, i as nat),
            decreases n - i,
        {
            let ghost before = out@;
            let e = &self.0[i];
            proof {
                assert(decreases_to!(*self => self.0));
                assert(decreases_to!(*self => self.0@[i as int]));
                assert(decreases_to!(self.0@[i as int] => self.0@[i as int].1));
            }
            out.append(e.0.as_str());
            out.append(": ");
            e.1.write(out);
            if i + 1 < n {
                out.append(", ");
                assert(out@ + render_fields(f, (i + 1) as nat) =~= before + render_fields(
                    f,
                    i as nat,
                ));
            } else {
                assert(out@ + render_fields(f, (i + 1) as nat) =~= before + render_fields(
                    f,
                    i as nat,
                ));
            }
            i += 1;
        }
        assert(out@ =~= start + render_fields(f, 0));
    }
}

impl Value {
    /// Writes the value behind what `out` holds.
    pub fn write(&self, out: &mut String)
        ensures
            final(out)@ == old(out)@ + render_value(self@),
        decreases self, 1nat,
    {
        let ghost start = out@;
        match self {
            Value::Null => out.append("NULL"),
            Value::Bool(b) => {
                if *b {
                    out.append("true")
                } else {
                    out.append("false")
                }
            },
            Value::Number(n) => write_number(out, *n),
            Value::Strand(s) => {
                out.append("'");
                out.append(s.as_str());
                out.append("'");
                assert(out@ =~= start + render_value(self@));
            },
            Value::Param(p) => {
                out.append("$");
                out.append(p.as_str());
                assert(out@ =~= start + render_value(self@));
            },
            Value::Table(t) => out.append(t.as_str()),
            Value::Thing(t) => t.write(out),
            Value::Model(m) => m.write(out),
            Value::Array(v) => {
                out.append("[");
                write_values(v, out);
                out.append("]");
                assert(out@ =~= start + render_value(self@));
            },
            Value::Object(o) => {
                out.append("{");
                o.write_fields(out);
                out.append("}");
                assert(out@ =~= start + render_value(self@));
            },
        }
    }

    /// The value as text.
    pub fn to_string(&self) -> (r: String)
        ensures
            r@ == render_value(self@),
    {
        let mut out = String::new();
        self.write(&mut out);
        assert(out@ =~= render_value(self@));
        out
    }

    /// The value as it enters a larger text: a string as it is, any other
    /// value rendered.
    pub fn to_raw_string(&self) -> (r: String)
        ensures
            r@ == raw_string(self@),
    {
        match self {
            Value::Strand(s) => s.clone(),
            _ => self.to_string(),
        }
    }
}

/// Writes the values behind what `out` holds, with `, ` between them.
pub fn write_values(v: &Vec<Value>, out: &mut String)
    ensures
        final(out)@ == old(out)@ + render_values(values_view(v@)),
    decreases v, 0nat,
{
    let ghost start = out@;
    let ghost f = values_view(v@);
    let n = v.len();
    proof {
        lemma_values_view(v@);
    }
    let mut i: usize = 0;
    while i < n
        invariant
            i <= n,
            n == v.len(),
            f == values_view(v@),
            f.len() == n,
            forall|j: int| 0 <= j < n ==> #[trigger] f[j] == v@[j]@,
            start + render_items(f, 0) == out@ + render_items(f, i as nat),
        decreases n - i,
    {
        let ghost before = out@;
        proof {
            assert(decreases_to!(*v => v@[i as int]));
        }
        v[i].write(out);
        if i + 1 < n {
            out.append(", ");
        }
        assert(out@ + render_items(f, (i + 1) as nat) =~= before + render_items(f, i as nat));
        i += 1;
    }
    assert(out@ =~= start + render_items(f, 0));
}

/// What a value evaluates to: a parameter gives what it is bound to, `$this`
/// the document at hand, and nothing where there is none; any other value
/// gives itself.
pub open spec fn evaluate(
    v: ValueView,
    vars: Seq<(Seq<char>, ValueView)>,
    doc: Option<ValueView>,
) -> ValueView {
    match v {
        ValueView::Param(p) => if p == "this"@ {
            match doc {
                Some(d) => d,
                None => ValueView::Null,
            }
        } else {
            match field_of(vars, p) {
                Some(x) => x,
                None => ValueView::Null,
            }
        },
        _ => v,
    }
}

/// The record that a value names: a record reference names itself, a
/// document the record in its `id` field, a list of one value what that
/// value names.
pub open spec fn record_of(v: ValueView) -> Option<ThingView>
    decreases v,
{
    match v {
        ValueView::Thing(t) => Some(t),
        ValueView::Object(f) => match field_of(f, "id"@) {
            Some(ValueView::Thing(t)) => Some(t),
            _ => None,
        },
        ValueView::Array(a) => if a.len() == 1 {
            record_of(a[0])
        } else {
            None
        },
        _ => None,
    }
}

impl Value {
    /// Evaluates the value with the parameters of `vars` and the document
    /// at hand.
    pub fn compute(&self, vars: &Object, doc: Option<&Value>) -> (r: Value)
        ensures
            r@ == evaluate(
                self@,
                vars@,
                match doc {
                    Some(d) => Some(d@),
                    None => None,
                },
            ),
    {
        match self {
            Value::Param(p) => {
                let this = "this".to_owned();
                if *p == this {
                    match doc {
                        Some(d) => d.clone(),
                        None => Value::Null,
                    }
                } else {
                    match vars.get(p.as_str()) {
                        Some(x) => x.clone(),
                        None => Value::Null,
                    }
                }
            },
            _ => self.clone(),
        }
    }

    /// The record that the value names.
    pub fn record(&self) -> (r: Option<Thing>)
        ensures
            match r {
                Some(t) => record_of(self@) == Some(t@),
                None => record_of(self@) is None,
            },
        decreases self,
    {
        match self {
            Value::Thing(t) => Some(t.clone()),
            Value::Object(o) => {
                match o.get("id") {
                    Some(Value::Thing(t)) => Some(t.clone()),
                    _ => None,
                }
            },
            Value::Array(a) => {
                proof {
                    lemma_values_view(a@);
                }
                if a.len() == 1 {
                    a[0].record()
                } else {
                    None
                }
            },
            _ => None,
        }
    }

    /// Whether two values are the same.
    pub fn same(&self, other: &Value) -> (r: bool)
        ensures
            r == (self@ == other@),
        decreases self,
    {
        match (self, other) {
            (Value::Null, Value::Null) => true,
            (Value::Bool(a), Value::Bool(b)) => *a == *b,
            (Value::Number(a), Value::Number(b)) => *a == *b,
            (Value::Strand(a), Value::Strand(b)) => *a == *b,
            (Value::Param(a), Value::Param(b)) => *a == *b,
            (Value::Table(a), Value::Table(b)) => *a == *b,
            (Value::Thing(a), Value::Thing(b)) => a.tb == b.tb && same_id(&a.id, &b.id),
            (Value::Model(a), Value::Model(b)) => a.table == b.table && a.from == b.from && a.to
                == b.to,
            (Value::Array(a), Value::Array(b)) => {
                proof {
                    lemma_values_view(a@);
                    lemma_values_view(b@);
                }
                if a.len() != b.len() {
                    return false;
                }
                let mut i: usize = 0;
                while i < a.len()
                    invariant
                        i <= a.len(),
                        a.len() == b.len(),
                        *self is Array,
                        self->Array_0 == *a,
                        *other is Array,
                        other->Array_0 == *b,
                        forall|k: int| 0 <= k < i ==> (#[trigger] a@[k])@ == b@[k]@,
                        values_view(a@).len() == a.len(),
                        values_view(b@).len() == b.len(),
                        forall|k: int| 0 <= k < a.len() ==> #[trigger] values_view(a@)[k] == a@[k]@,
                        forall|k: int| 0 <= k < b.len() ==> #[trigger] values_view(b@)[k] == b@[k]@,
                    decreases a.len() - i,
                {
                    proof {
                        assert(decreases_to!(*self => self->Array_0));
                        assert(decreases_to!(*self => a@[i as int]));
                    }
                    if !a[i].same(&b[i]) {
                        assert(values_view(a@)[i as int] != values_view(b@)[i as int]);
                        return false;
                    }
                    i += 1;
                }
                assert(values_view(a@) =~= values_view(b@));
                true
            },
            (Value::Object(a), Value::Object(b)) => {
                proof {
                    assert(decreases_to!(*self => self->Object_0));
                }
                a.same(b)
            },
            _ => false,
        }
    }
}

/// Whether two identifiers are the same.
pub fn same_id(a: &Id, b: &Id) -> (r: bool)
    ensures
        r == (a@ == b@),
{
    match a {
        Id::Number(x) => match b {
            Id::Number(y) => *x == *y,
            Id::String(_) => false,
        },
        Id::String(x) => match b {
            Id::Number(_) => false,
            Id::String(y) => *x == *y,
        },
    }
}

impl Object {
    /// Whether two documents are the same: the same fields in the same order.
    pub fn same(&self, other: &Object) -> (r: bool)
        ensures
            r == (self@ == other@),
        decreases self,
    {
        proof {
            lemma_fields_view(self.0@);
            lemma_fields_view(other.0@);
        }
        if self.0.len() != other.0.len() {
            return false;
        }
        let mut i: usize = 0;
        while i < self.0.len()
            invariant
                i <= self.0.len(),
                self.0.len() == other.0.len(),
                forall|k: int| 0 <= k < i ==> #[trigger] self@[k] == other@[k],
                self@.len() == self.0.len(),
                other@.len() == other.0.len(),
                forall|k: int|
                    0 <= k < self.0.len() ==> #[trigger] self@[k] == (self.0@[k].0@, self.0@[k].1@),
                forall|k: int|
                    0 <= k < other.0.len() ==> #[trigger] other@[k] == (
                        other.0@[k].0@,
                        other.0@[k].1@,
                    ),
            decreases self.0.len() - i,
        {
            proof {
                assert(decreases_to!(*self => self.0));
                assert(decreases_to!(*self => self.0@[i as int]));
                assert(decreases_to!(self.0@[i as int] => self.0@[i as int].1));
            }
            let x = &self.0[i];
            let y = &other.0[i];
            if !(x.0 == y.0 && x.1.same(&y.1)) {
                assert(self@[i as int] != other@[i as int]);
                return false;
            }
            i += 1;
        }
        assert(self@ =~= other@);
        true
    }
}

} // verus!
