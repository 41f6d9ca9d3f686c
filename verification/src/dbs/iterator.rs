//! The iterator: it takes the targets of a statement, of whatever kind,
//! queues the records that they stand for, and then works the queue off
//! inside the statement's transaction.

use crate::clock::{elapsed, nanos_of, start};
use crate::dbs::executor::Executor;
use crate::dbs::runtime::Runtime;
use crate::err::{Error, ErrorView};
use crate::kvs::tx::{index_of, name_view, KeyView, Record, RecordView};
use crate::sql::cond::{passes, Cond, CondView};
use crate::sql::output::Output;
use crate::sql::timeout::{nanos, Timeout};
use crate::sql::value::{
    field_of, lemma_fields_view, lemma_values_view, values_view, Id, IdView, Model, ModelView,
    Object, Thing, ThingView, Value, ValueView,
};
use vstd::prelude::*;

verus! {

/// What a table stands for: the records of that table in the given part of
/// the store, in the order of the store, among the first `n` records.
pub open spec fn table_things(
    recs: Seq<RecordView>,
    ns: Option<Seq<char>>,
    db: Option<Seq<char>>,
    tb: Seq<char>,
    n: nat,
) -> Seq<ValueView>
    decreases n,
{
    if n == 0 || n > recs.len() {
        Seq::empty()
    } else {
        let rest = table_things(recs, ns, db, tb, (n - 1) as nat);
        let k = recs[n - 1].key;
        if k.ns == ns && k.db == db && k.tb == tb {
            rest.push(ValueView::Thing(ThingView { tb: k.tb, id: k.id }))
        } else {
            rest
        }
    }
}

/// What a range stands for: the first `n` of the records that it numbers.
pub open spec fn range_things(m: ModelView, n: nat) -> Seq<ValueView>
    decreases n,
{
    if n == 0 {
        Seq::empty()
    } else {
        range_things(m, (n - 1) as nat).push(
            ValueView::Thing(ThingView { tb: m.table, id: IdView::Number(m.from + n - 1) }),
        )
    }
}

/// The number of records that a range numbers.
pub open spec fn range_len(m: ModelView) -> nat {
    if m.from <= m.to {
        (m.to - m.from + 1) as nat
    } else {
        0
    }
}

/// What a target that is no list queues: a table its records, a range the
/// records it numbers, a record reference and a document themselves.
/// Nothing else can be a target.
pub open spec fn queued_by(
    v: ValueView,
    recs: Seq<RecordView>,
    ns: Option<Seq<char>>,
    db: Option<Seq<char>>,
) -> Option<Seq<ValueView>> {
    match v {
        ValueView::Table(t) => Some(table_things(recs, ns, db, t, recs.len())),
        ValueView::Thing(_) => Some(seq![v]),
        ValueView::Model(m) => Some(range_things(m, range_len(m))),
        ValueView::Object(_) => Some(seq![v]),
        _ => None,
    }
}

/// What the first `n` items of a list queue, or the first of them that
/// cannot be a target. A list in a list cannot.
pub open spec fn queued_by_items(
    items: Seq<ValueView>,
    n: nat,
    recs: Seq<RecordView>,
    ns: Option<Seq<char>>,
    db: Option<Seq<char>>,
) -> Result<Seq<ValueView>, ValueView>
    decreases n,
{
    if n == 0 || n > items.len() {
        Ok(Seq::empty())
    } else {
        match queued_by_items(items, (n - 1) as nat, recs, ns, db) {
            Ok(q) => match queued_by(items[n - 1], recs, ns, db) {
                Some(x) => Ok(q + x),
                None => Err(items[n - 1]),
            },
            Err(v) => Err(v),
        }
    }
}

/// What one target queues, or the value that cannot be a target: the
/// target itself, or the first such item of a list.
pub open spec fn queued_by_target(
    v: ValueView,
    recs: Seq<RecordView>,
    ns: Option<Seq<char>>,
    db: Option<Seq<char>>,
) -> Result<Seq<ValueView>, ValueView> {
    match v {
        ValueView::Array(items) => queued_by_items(items, items.len(), recs, ns, db),
        _ => match queued_by(v, recs, ns, db) {
            Some(x) => Ok(x),
            None => Err(v),
        },
    }
}

/// The record that a queued value names: a record reference names itself,
/// a document the record in its `id` field.
pub open spec fn named_by(e: ValueView) -> Option<ThingView> {
    match e {
        ValueView::Thing(t) => Some(t),
        ValueView::Object(f) => match field_of(f, "id"@) {
            Some(ValueView::Thing(t)) => Some(t),
            _ => None,
        },
        _ => None,
    }
}

/// The key of the record that a queued value stands for, in the given part
/// of the store.
pub open spec fn key_for(e: ValueView, ns: Option<Seq<char>>, db: Option<Seq<char>>) -> Option<
    KeyView,
> {
    match named_by(e) {
        Some(t) => Some(KeyView { ns, db, tb: t.tb, id: t.id }),
        None => None,
    }
}

/// What is handed back for a record that was changed, where the changes
/// are asked for: that it was removed.
pub open spec fn removal() -> ValueView {
    ValueView::Object(
        seq![("op"@, ValueView::Strand("remove"@)), ("path"@, ValueView::Strand("/"@))],
    )
}

/// What is handed back for one deleted record: nothing, the record as it
/// was, nothing in its place, or the change.
pub open spec fn emitted(mode: Option<Output>, r: RecordView) -> Seq<ValueView> {
    match mode {
        Some(Output::Before) => seq![ValueView::Object(r.doc)],
        Some(Output::After) => seq![ValueView::Null],
        Some(Output::Diff) => seq![removal()],
        _ => Seq::empty(),
    }
}

/// What the iterator is set up with, and the part of the store it works on.
pub struct Setup {
    pub ns: Option<Seq<char>>,
    pub db: Option<Seq<char>>,
    pub cond: Option<CondView>,
    pub output: Option<Output>,
    pub vars: Seq<(Seq<char>, ValueView)>,
}

/// One queued value worked off: where it stands for a record that is there
/// and passes the condition, the record leaves and something may be handed
/// back; else nothing happens.
pub open spec fn step(recs: Seq<RecordView>, e: ValueView, s: Setup) -> (
    Seq<RecordView>,
    Seq<ValueView>,
) {
    match key_for(e, s.ns, s.db) {
        Some(k) => match index_of(recs, k) {
            Some(i) => if passes(s.cond, recs[i].doc, s.vars) {
                (recs.remove(i), emitted(s.output, recs[i]))
            } else {
                (recs, Seq::empty())
            },
            None => (recs, Seq::empty()),
        },
        None => (recs, Seq::empty()),
    }
}

/// The first `n` values of a queue worked off, one after another: the
/// records that are left, and what is handed back.
pub open spec fn run(queue: Seq<ValueView>, n: nat, recs: Seq<RecordView>, s: Setup) -> (
    Seq<RecordView>,
    Seq<ValueView>,
)
    decreases n,
{
    if n == 0 || n > queue.len() {
        (recs, Seq::empty())
    } else {
        let before = run(queue, (n - 1) as nat, recs, s);
        let now = step(before.0, queue[n - 1], s);
        (now.0, before.1 + now.1)
    }
}

/// What an optional condition stands for.
pub open spec fn cond_view(c: Option<Cond>) -> Option<CondView> {
    match c {
        Some(c) => Some(c@),
        None => None,
    }
}

pub struct Iterator {
    pub cond: Option<Cond>,
    pub output: Option<Output>,
    pub timeout: Option<Timeout>,
    /// When the iterator's time began.
    pub started: std::time::Instant,
    /// What is queued, in the order in which it will be worked off.
    pub queue: Vec<Value>,
}

impl Iterator {
    /// What is queued, in the order in which it will be worked off.
    pub open spec fn queued(&self) -> Seq<ValueView> {
        values_view(self.queue@)
    }

    /// What the iterator is set up with.
    pub open spec fn setup(&self, exe: &Executor, ctx: &Runtime) -> Setup {
        Setup {
            ns: name_view(exe.ns),
            db: name_view(exe.db),
            cond: cond_view(self.cond),
            output: self.output,
            vars: ctx@,
        }
    }

    /// A new iterator: no condition, no output, no time limit, nothing
    /// queued. Its time starts now.
    pub fn new() -> (r: Iterator)
        ensures
            r.cond is None,
            r.output is None,
            r.timeout is None,
            r.queued() == Seq::<ValueView>::empty(),
    {
        let r = Iterator {
            cond: None,
            output: None,
            timeout: None,
            started: start(),
            queue: Vec::new(),
        };
        proof {
            lemma_values_view(r.queue@);
            assert(r.queued() =~= Seq::<ValueView>::empty());
        }
        r
    }

    /// Whether the time limit, if there is one, is used up. Without a limit
    /// it never is; with a limit of no time it always is.
    pub fn timedout(&self) -> (r: bool)
        ensures
            self.timeout is None ==> !r,
            self.timeout matches Some(t) && nanos(t.0) == 0 ==> r,
    {
        match &self.timeout {
            Some(t) => {
                let d = elapsed(&self.started);
                t.expired(nanos_of(&d))
            },
            None => false,
        }
    }

    fn push(&mut self, v: Value)
        ensures
            final(self).queued() == old(self).queued().push(v@),
            final(self).cond == old(self).cond,
            final(self).output == old(self).output,
            final(self).timeout == old(self).timeout,
    {
        self.queue.push(v);
        proof {
            lemma_values_view(self.queue@);
            lemma_values_view(old(self).queue@);
            assert(self.queued() =~= old(self).queued().push(v@));
        }
    }

    /// Queues every record of a table.
    pub fn process_table(&mut self, ctx: &Runtime, exe: &Executor, v: String)
        ensures
            final(self).queued() == old(self).queued() + table_things(
                exe@.txn.records,
                exe@.ns,
                exe@.db,
                v@,
                exe@.txn.records.len(),
            ),
            final(self).cond == old(self).cond,
            final(self).output == old(self).output,
            final(self).timeout == old(self).timeout,
    {
        let n = exe.txn.len();
        let ghost recs = exe@.txn.records;
        let ghost before = self.queued();
        let mut i: usize = 0;
        assert(self.queued() =~= before + table_things(recs, exe@.ns, exe@.db, v@, 0));
        while i < n
            invariant
                i <= n,
                n == recs.len(),
                recs == exe@.txn.records,
                self.queued() == before + table_things(recs, exe@.ns, exe@.db, v@, i as nat),
                self.cond == old(self).cond,
                self.output == old(self).output,
                self.timeout == old(self).timeout,
            decreases n - i,
        {
            let r = exe.txn.at(i);
            let ghost was = table_things(recs, exe@.ns, exe@.db, v@, i as nat);
            if crate::kvs::tx::same_name(&r.ns, &exe.ns) && crate::kvs::tx::same_name(
                &r.db,
                &exe.db,
            ) && r.tb == v {
                self.push(Value::Thing(Thing { tb: r.tb.clone(), id: r.id.clone() }));
                assert(self.queued() =~= before + was.push(
                    ValueView::Thing(ThingView { tb: r@.key.tb, id: r@.key.id }),
                ));
            }
            i += 1;
        }
    }

    /// Queues one record.
    pub fn process_thing(&mut self, ctx: &Runtime, exe: &Executor, v: Thing)
        ensures
            final(self).queued() == old(self).queued() + seq![ValueView::Thing(v@)],
            final(self).cond == old(self).cond,
            final(self).output == old(self).output,
            final(self).timeout == old(self).timeout,
    {
        let ghost t = v@;
        self.push(Value::Thing(v));
        assert(self.queued() =~= old(self).queued() + seq![ValueView::Thing(t)]);
    }

    /// Queues one document.
    pub fn process_object(&mut self, ctx: &Runtime, exe: &Executor, v: Object)
        ensures
            final(self).queued() == old(self).queued() + seq![ValueView::Object(v@)],
            final(self).cond == old(self).cond,
            final(self).output == old(self).output,
            final(self).timeout == old(self).timeout,
    {
        let ghost t = v@;
        self.push(Value::Object(v));
        assert(self.queued() =~= old(self).queued() + seq![ValueView::Object(t)]);
    }

    /// Queues every record that a range numbers. With a time limit, the
    /// work stops with a timeout where the limit is used up.
    pub fn process_model(&mut self, ctx: &Runtime, exe: &Executor, v: Model) -> (r: Result<
        (),
        Error,
    >)
        ensures
            match r {
                Ok(_) => final(self).queued() == old(self).queued() + range_things(
                    v@,
                    range_len(v@),
                ),
                Err(e) => e@ == ErrorView::Timeout && old(self).timeout is Some,
            },
            final(self).cond == old(self).cond,
            final(self).output == old(self).output,
            final(self).timeout == old(self).timeout,
    {
        let ghost before = self.queued();
        assert(self.queued() =~= before + range_things(v@, 0));
        if v.from > v.to {
            return Ok(());
        }
        let mut k: u64 = v.from;
        loop
            invariant_except_break
                self.queued() == before + range_things(v@, (k - v.from) as nat),
            invariant
                v.from <= k <= v.to,
                self.cond == old(self).cond,
                self.output == old(self).output,
                self.timeout == old(self).timeout,
            ensures
                self.queued() == before + range_things(v@, range_len(v@)),
            decreases v.to - k,
        {
            if self.timedout() {
                return Err(Error::Timeout);
            }
            let ghost was = range_things(v@, (k - v.from) as nat);
            self.push(Value::Thing(Thing { tb: v.table.clone(), id: Id::Number(k) }));
            assert(self.queued() =~= before + range_things(v@, (k - v.from + 1) as nat));
            if k == v.to {
                break ;
            }
            k += 1;
        }
        Ok(())
    }

    /// Queues what each item of a list stands for. An item that cannot be a
    /// target ends the work with an error that carries it.
    pub fn process_array(&mut self, ctx: &Runtime, exe: &Executor, v: Vec<Value>) -> (r: Result<
        (),
        Error,
    >)
        ensures
            match r {
                Ok(_) => queued_by_items(
                    values_view(v@),
                    v@.len(),
                    exe@.txn.records,
                    exe@.ns,
                    exe@.db,
                ) matches Ok(q) && final(self).queued() == old(self).queued() + q,
                Err(e) => (e@ == ErrorView::Timeout && old(self).timeout is Some) || (
                queued_by_items(values_view(v@), v@.len(), exe@.txn.records, exe@.ns, exe@.db)
                    matches Err(x) && e@ == (ErrorView::StatementTargetError { value: x })),
            },
            final(self).cond == old(self).cond,
            final(self).output == old(self).output,
            final(self).timeout == old(self).timeout,
    {
        let ghost before = self.queued();
        let ghost items = values_view(v@);
        let ghost recs = exe@.txn.records;
        let ghost ns = exe@.ns;
        let ghost db = exe@.db;
        proof {
            lemma_values_view(v@);
            assert(before + Seq::<ValueView>::empty() =~= before);
        }
        let mut i: usize = 0;
        while i < v.len()
            invariant
                i <= v.len(),
                items == values_view(v@),
                items.len() == v.len(),
                forall|j: int| 0 <= j < v.len() ==> #[trigger] items[j] == v@[j]@,
                recs == exe@.txn.records,
                ns == exe@.ns,
                db == exe@.db,
                queued_by_items(items, i as nat, recs, ns, db) matches Ok(q) && self.queued()
                    == before + q,
                self.cond == old(self).cond,
                self.output == old(self).output,
                self.timeout == old(self).timeout,
            decreases v.len() - i,
        {
            let ghost q = queued_by_items(items, i as nat, recs, ns, db)->Ok_0;
            let r = self.process_one(ctx, exe, &v[i]);
            match r {
                Ok(_) => {
                    let ghost x = queued_by(items[i as int], recs, ns, db).unwrap();
                    assert(before + q + x =~= before + (q + x));
                },
                Err(e) => {
                    proof {
                        if queued_by(items[i as int], recs, ns, db) is None {
                            lemma_items_fail(items, (i + 1) as nat, v@.len() as nat, recs, ns, db);
                        }
                    }
                    return Err(e);
                },
            }
            i += 1;
        }
        Ok(())
    }

    /// Queues what one value that is no list stands for. A value that
    /// cannot be a target gives an error that carries it.
    fn process_one(&mut self, ctx: &Runtime, exe: &Executor, v: &Value) -> (r: Result<(), Error>)
        ensures
            match r {
                Ok(_) => queued_by(v@, exe@.txn.records, exe@.ns, exe@.db) matches Some(x)
                    && final(self).queued() == old(self).queued() + x,
                Err(e) => (e@ == ErrorView::Timeout && old(self).timeout is Some) || (queued_by(
                    v@,
                    exe@.txn.records,
                    exe@.ns,
                    exe@.db,
                ) is None && e@ == (ErrorView::StatementTargetError { value: v@ })),
            },
            final(self).cond == old(self).cond,
            final(self).output == old(self).output,
            final(self).timeout == old(self).timeout,
    {
        match v {
            Value::Table(t) => {
                self.process_table(ctx, exe, t.clone());
                Ok(())
            },
            Value::Thing(t) => {
                self.process_thing(ctx, exe, t.clone());
                Ok(())
            },
            Value::Model(m) => self.process_model(ctx, exe, m.clone()),
            Value::Object(o) => {
                self.process_object(ctx, exe, o.clone());
                Ok(())
            },
            _ => Err(Error::StatementTargetError { value: v.clone() }),
        }
    }

    /// Queues what a target stands for, of whatever kind.
    pub fn process(&mut self, ctx: &Runtime, exe: &Executor, v: Value) -> (r: Result<(), Error>)
        ensures
            match r {
                Ok(_) => queued_by_target(v@, exe@.txn.records, exe@.ns, exe@.db) matches Ok(q)
                    && final(self).queued() == old(self).queued() + q,
                Err(e) => (e@ == ErrorView::Timeout && old(self).timeout is Some) || (
                queued_by_target(v@, exe@.txn.records, exe@.ns, exe@.db) matches Err(x) && e@ == (
                ErrorView::StatementTargetError { value: x })),
            },
            final(self).cond == old(self).cond,
            final(self).output == old(self).output,
            final(self).timeout == old(self).timeout,
    {
        match v {
            Value::Array(a) => {
                proof {
                    lemma_values_view(a@);
                }
                self.process_array(ctx, exe, a)
            },
            _ => self.process_one(ctx, exe, &v),
        }
    }

    /// Works one queued value off: where it stands for a record that is
    /// there and passes the condition, the record leaves the transaction,
    /// and what the output mode asks for is put behind `outs`.
    fn work(&self, ctx: &Runtime, exe: &mut Executor, e: &Value, outs: &mut Vec<Value>)
        requires
            old(exe).txn.wf(),
            old(exe).txn.writes(),
        ensures
            final(exe).txn.wf(),
            final(exe).txn.writes(),
            final(exe).ns == old(exe).ns,
            final(exe).db == old(exe).db,
            final(exe)@.txn.scopes == old(exe)@.txn.scopes,
            final(exe)@.txn.records == step(old(exe)@.txn.records, e@, self.setup(old(exe), ctx)).0,
            values_view(final(outs)@) == values_view(old(outs)@) + step(
                old(exe)@.txn.records,
                e@,
                self.setup(old(exe), ctx),
            ).1,
    {
        let ghost got = values_view(outs@);
        proof {
            assert(got + Seq::<ValueView>::empty() =~= got);
        }
        if let Some(t) = named(e) {
            if let Some(at) = exe.txn.find(&exe.ns, &exe.db, &t) {
                let rec = exe.txn.at(at);
                let ok = match &self.cond {
                    Some(c) => c.test(&rec.doc, &ctx.vars),
                    None => true,
                };
                if ok {
                    let gone = exe.txn.del(at);
                    emit(self.output, gone, outs);
                }
            }
        }
    }

    /// Works the queue off inside the executor's transaction and hands back
    /// what the output mode asks for, as a list. With a time limit, the
    /// work stops with a timeout where the limit is used up; what the
    /// transaction then holds is for the caller to drop.
    pub fn output(&mut self, ctx: &Runtime, exe: &mut Executor) -> (r: Result<Value, Error>)
        requires
            old(exe).txn.wf(),
            old(exe).txn.writes(),
        ensures
            final(exe).txn.wf(),
            final(exe).txn.writes(),
            final(exe).ns == old(exe).ns,
            final(exe).db == old(exe).db,
            final(exe)@.txn.scopes == old(exe)@.txn.scopes,
            match r {
                Ok(v) => {
                    let end = run(
                        old(self).queued(),
                        old(self).queued().len(),
                        old(exe)@.txn.records,
                        old(self).setup(old(exe), ctx),
                    );
                    final(exe)@.txn.records == end.0 && v@ == ValueView::Array(end.1)
                },
                Err(e) => e@ == ErrorView::Timeout && old(self).timeout is Some,
            },
            old(self).timeout matches Some(t) && nanos(t.0) == 0 ==> r is Err,
    {
        let ghost queue = self.queued();
        let ghost recs = exe@.txn.records;
        let ghost s = self.setup(exe, ctx);
        let mut outs: Vec<Value> = Vec::new();
        proof {
            lemma_values_view(self.queue@);
            lemma_values_view(outs@);
            assert(values_view(outs@) =~= Seq::<ValueView>::empty());
        }
        if self.timedout() {
            return Err(Error::Timeout);
        }
        let mut i: usize = 0;
        while i < self.queue.len()
            invariant
                i <= self.queue.len(),
                queue == self.queued(),
                queue.len() == self.queue.len(),
                forall|j: int| 0 <= j < queue.len() ==> #[trigger] queue[j] == self.queue@[j]@,
                s == self.setup(exe, ctx),
                self.timeout == old(self).timeout,
                exe.txn.wf(),
                exe.txn.writes(),
                exe.ns == old(exe).ns,
                exe.db == old(exe).db,
                exe@.txn.scopes == old(exe)@.txn.scopes,
                run(queue, i as nat, recs, s) == (exe@.txn.records, values_view(outs@)),
            decreases self.queue.len() - i,
        {
            if self.timedout() {
                return Err(Error::Timeout);
            }
            self.work(ctx, exe, &self.queue[i], &mut outs);
            i += 1;
        }
        let r = Value::Array(outs);
        Ok(r)
    }
}

/// The record that a queued value names.
fn named(e: &Value) -> (r: Option<Thing>)
    ensures
        match r {
            Some(t) => named_by(e@) == Some(t@),
            None => named_by(e@) is None,
        },
{
    match e {
        Value::Thing(t) => Some(t.clone()),
        Value::Object(o) => match o.get("id") {
            Some(Value::Thing(t)) => Some(t.clone()),
            _ => None,
        },
        _ => None,
    }
}

/// Puts behind `outs` what the output mode asks for a deleted record.
fn emit(mode: Option<Output>, gone: Record, outs: &mut Vec<Value>)
    ensures
        values_view(final(outs)@) == values_view(old(outs)@) + emitted(mode, gone@),
{
    proof {
        lemma_values_view(outs@);
    }
    match mode {
        Some(Output::Before) => {
            outs.push(Value::Object(gone.doc));
        },
        Some(Output::After) => {
            outs.push(Value::Null);
        },
        Some(Output::Diff) => {
            outs.push(removed());
        },
        _ => {},
    }
    proof {
        lemma_values_view(outs@);
        assert(values_view(outs@) =~= values_view(old(outs)@) + emitted(mode, gone@));
    }
}

/// What is handed back for a record that was changed, where the changes
/// are asked for: that it was removed.
pub fn removed() -> (r: Value)
    ensures
        r@ == removal(),
{
    let mut f: Vec<(String, Value)> = Vec::new();
    f.push(("op".to_owned(), Value::Strand("remove".to_owned())));
    f.push(("path".to_owned(), Value::Strand("/".to_owned())));
    let r = Value::Object(Object(f));
    proof {
        lemma_fields_view(f@);
        assert(r@->Object_0 =~= removal()->Object_0);
    }
    r
}

/// Where the first items of a list fail to be targets, the list fails with
/// the same item.
pub proof fn lemma_items_fail(
    items: Seq<ValueView>,
    n: nat,
    m: nat,
    recs: Seq<RecordView>,
    ns: Option<Seq<char>>,
    db: Option<Seq<char>>,
)
    requires
        n <= m <= items.len(),
        queued_by_items(items, n, recs, ns, db) is Err,
    ensures
        queued_by_items(items, m, recs, ns, db) == queued_by_items(items, n, recs, ns, db),
    decreases m - n,
{
    if n < m {
        lemma_items_fail(items, n, (m - 1) as nat, recs, ns, db);
    }
}

/// The kinds of value that stand for records: tables, record references,
/// ranges and documents.
pub open spec fn stands_for_records(v: ValueView) -> bool {
    v is Table || v is Thing || v is Model || v is Object
}

/// The first of the first `n` items of a list that does not stand for
/// records, if there is one.
pub open spec fn first_refused(items: Seq<ValueView>, n: nat) -> Option<ValueView>
    decreases n,
{
    if n == 0 || n > items.len() {
        None
    } else {
        match first_refused(items, (n - 1) as nat) {
            Some(x) => Some(x),
            None => if stands_for_records(items[n - 1]) {
                None
            } else {
                Some(items[n - 1])
            },
        }
    }
}

/// The value for which a target is refused, if it is: the target itself
/// where it is no list and does not stand for records; the first item of a
/// list that does not.
pub open spec fn refused_in(v: ValueView) -> Option<ValueView> {
    match v {
        ValueView::Array(items) => first_refused(items, items.len()),
        _ => if stands_for_records(v) {
            None
        } else {
            Some(v)
        },
    }
}

/// The first items of a list are taken exactly when none of them is
/// refused, and fail with the first that is, whatever the store holds.
pub proof fn lemma_items_taken(
    items: Seq<ValueView>,
    n: nat,
    recs: Seq<RecordView>,
    ns: Option<Seq<char>>,
    db: Option<Seq<char>>,
)
    requires
        n <= items.len(),
    ensures
        match queued_by_items(items, n, recs, ns, db) {
            Ok(_) => first_refused(items, n) is None,
            Err(x) => first_refused(items, n) == Some(x),
        },
        first_refused(items, n) is None <==> forall|i: int|
            0 <= i < n ==> stands_for_records(#[trigger] items[i]),
    decreases n,
{
    if n > 0 {
        lemma_items_taken(items, (n - 1) as nat, recs, ns, db);
    }
}

/// Every value is either taken as a target or refused, by its kind alone,
/// whatever the store holds: a table, a record reference, a range and a
/// document are taken; a list is taken exactly when each of its items is
/// one of these; any other value is refused. The refusal carries the value
/// itself, or the first item of the list that is none of these.
pub proof fn lemma_targets_by_kind(
    v: ValueView,
    recs: Seq<RecordView>,
    ns: Option<Seq<char>>,
    db: Option<Seq<char>>,
)
    ensures
        match queued_by_target(v, recs, ns, db) {
            Ok(_) => refused_in(v) is None,
            Err(x) => refused_in(v) == Some(x),
        },
        stands_for_records(v) ==> queued_by_target(v, recs, ns, db) is Ok,
        v matches ValueView::Array(items) ==> (queued_by_target(v, recs, ns, db) is Ok
            <==> forall|i: int| 0 <= i < items.len() ==> stands_for_records(#[trigger] items[i])),
        !stands_for_records(v) && !(v is Array) ==> queued_by_target(v, recs, ns, db) == Err::<
            Seq<ValueView>,
            ValueView,
        >(v),
{
    if let ValueView::Array(items) = v {
        lemma_items_taken(items, items.len(), recs, ns, db);
    }
}

/// Whether a value is of a kind that stands for records.
pub fn stands(v: &Value) -> (r: bool)
    ensures
        r == stands_for_records(v@),
{
    match v {
        Value::Table(_) => true,
        Value::Thing(_) => true,
        Value::Model(_) => true,
        Value::Object(_) => true,
        _ => false,
    }
}

/// The value for which a target is refused, if it is.
pub fn refusal(v: &Value) -> (r: Option<Value>)
    ensures
        match r {
            Some(x) => refused_in(v@) == Some(x@),
            None => refused_in(v@) is None,
        },
{
    match v {
        Value::Array(a) => {
            let ghost items = values_view(a@);
            proof {
                lemma_values_view(a@);
            }
            let mut i: usize = 0;
            while i < a.len()
                invariant
                    i <= a.len(),
                    items == values_view(a@),
                    items.len() == a.len(),
                    v@ == ValueView::Array(items),
                    forall|j: int| 0 <= j < a.len() ==> #[trigger] items[j] == a@[j]@,
                    first_refused(items, i as nat) is None,
                decreases a.len() - i,
            {
                if !stands(&a[i]) {
                    proof {
                        assert(first_refused(items, (i + 1) as nat) == Some(items[i as int]));
                        lemma_first_refused_stays(items, (i + 1) as nat, a.len() as nat);
                    }
                    return Some(a[i].clone());
                }
                i += 1;
            }
            None
        },
        _ => if stands(v) {
            None
        } else {
            Some(v.clone())
        },
    }
}

/// Where one of the first items of a list is refused, it is the one that
/// the list is refused for.
pub proof fn lemma_first_refused_stays(items: Seq<ValueView>, n: nat, m: nat)
    requires
        n <= m <= items.len(),
        first_refused(items, n) is Some,
    ensures
        first_refused(items, m) == first_refused(items, n),
    decreases m - n,
{
    if n < m {
        lemma_first_refused_stays(items, n, (m - 1) as nat);
    }
}

/// Whether an output mode hands something back for each deleted record.
pub open spec fn hands_back(mode: Option<Output>) -> bool {
    mode matches Some(m) && m != Output::Nothing
}

/// Working one queued value off removes at most one record and touches no
/// other: what is left was there before, and exactly where a record left
/// and the output mode asks for it, one value is handed back.
pub proof fn lemma_step_only_removes(recs: Seq<RecordView>, e: ValueView, s: Setup)
    ensures
        forall|r: RecordView| step(recs, e, s).0.contains(r) ==> recs.contains(r),
        step(recs, e, s).0.len() <= recs.len(),
        step(recs, e, s).1.len() == if hands_back(s.output) {
            recs.len() - step(recs, e, s).0.len()
        } else {
            0
        },
{
    reveal(index_of);
    let out = step(recs, e, s).0;
    assert forall|r: RecordView| out.contains(r) implies recs.contains(r) by {
        if out != recs {
            let i = index_of(recs, key_for(e, s.ns, s.db).unwrap()).unwrap();
            let j = choose|j: int| 0 <= j < out.len() && out[j] == r;
            if j < i {
                assert(recs[j] == r);
            } else {
                assert(recs[j + 1] == r);
            }
        }
    }
}

/// Working a queue off only removes records: every record that is left
/// was there before, and where the output mode asks for it, one value is
/// handed back for each record that left.
pub proof fn lemma_run_only_removes(queue: Seq<ValueView>, n: nat, recs: Seq<RecordView>, s: Setup)
    requires
        n <= queue.len(),
    ensures
        forall|r: RecordView| run(queue, n, recs, s).0.contains(r) ==> recs.contains(r),
        run(queue, n, recs, s).0.len() <= recs.len(),
        run(queue, n, recs, s).1.len() == if hands_back(s.output) {
            recs.len() - run(queue, n, recs, s).0.len()
        } else {
            0
        },
    decreases n,
{
    if n > 0 {
        let before = run(queue, (n - 1) as nat, recs, s);
        lemma_run_only_removes(queue, (n - 1) as nat, recs, s);
        lemma_step_only_removes(before.0, queue[n - 1], s);
    }
}

} // verus!
