//! The `CREATE` statement: one record, named by its target, with the
//! fields it is given.

use crate::dbs::executor::Executor;
use crate::dbs::options::Options;
use crate::dbs::runtime::Runtime;
use crate::err::{Error, ErrorView};
use crate::iam::auth::Level;
use crate::kvs::tx::{clone_name, put, KeyView, Record, RecordView};
use crate::sql::statements::delete::{doc_view, failed, gave, Outcome};
use crate::sql::value::{evaluate, lemma_fields_view, Object, ThingView, Value, ValueView};
use vstd::prelude::*;

verus! {

#[derive(Debug, PartialEq, Eq)]
pub struct CreateStatement {
    /// What names the record: a record reference, or a parameter bound to one.
    pub what: Value,
    /// The fields of the record. A field that holds a parameter gets what
    /// the parameter is bound to.
    pub data: Object,
}

pub struct CreateStatementView {
    pub what: ValueView,
    pub data: Seq<(Seq<char>, ValueView)>,
}

impl View for CreateStatement {
    type V = CreateStatementView;

    open spec fn view(&self) -> CreateStatementView {
        CreateStatementView { what: self.what@, data: self.data@ }
    }
}

impl Clone for CreateStatement {
    fn clone(&self) -> (r: CreateStatement)
        ensures
            r@ == self@,
    {
        CreateStatement { what: self.what.clone(), data: self.data.clone() }
    }
}

/// The first `n` fields of a statement, each with what its value evaluates to.
pub open spec fn computed_fields(
    data: Seq<(Seq<char>, ValueView)>,
    n: nat,
    vars: Seq<(Seq<char>, ValueView)>,
    doc: Option<ValueView>,
) -> Seq<(Seq<char>, ValueView)>
    decreases n,
{
    if n == 0 || n > data.len() {
        Seq::empty()
    } else {
        computed_fields(data, (n - 1) as nat, vars, doc).push(
            (data[n - 1].0, evaluate(data[n - 1].1, vars, doc)),
        )
    }
}

/// The document of a created record: its reference as the field `id`,
/// then the fields of the statement.
pub open spec fn created_doc(
    t: ThingView,
    data: Seq<(Seq<char>, ValueView)>,
    vars: Seq<(Seq<char>, ValueView)>,
    doc: Option<ValueView>,
) -> Seq<(Seq<char>, ValueView)> {
    seq![("id"@, ValueView::Thing(t))] + computed_fields(data, data.len(), vars, doc)
}

/// What a `CREATE` does to the records of a transaction, and what it hands
/// back. Where the target evaluates to a record reference, the record is
/// put, in the place of an older one of its key if there is one, and its
/// document is handed back. Else nothing is put and the error carries the
/// value.
pub open spec fn create_outcome(
    c: CreateStatementView,
    recs: Seq<RecordView>,
    ns: Option<Seq<char>>,
    db: Option<Seq<char>>,
    vars: Seq<(Seq<char>, ValueView)>,
    doc: Option<ValueView>,
) -> Outcome {
    match evaluate(c.what, vars, doc) {
        ValueView::Thing(t) => {
            let f = created_doc(t, c.data, vars, doc);
            Outcome {
                records: put(recs, RecordView { key: KeyView { ns, db, tb: t.tb, id: t.id }, doc: f }),
                result: Ok(ValueView::Object(f)),
            }
        },
        v => Outcome { records: recs, result: Err(ErrorView::StatementTargetError { value: v }) },
    }
}

impl CreateStatement {
    /// Runs the statement in the executor's transaction, once the session's
    /// level has been held against the level that a `CREATE` asks for: none.
    pub fn compute(
        &self,
        ctx: &Runtime,
        opt: &Options,
        exe: &mut Executor,
        doc: Option<&Value>,
    ) -> (r: Result<Value, Error>)
        requires
            old(exe).txn.wf(),
            old(exe).txn.writes(),
        ensures
            final(exe).txn.wf(),
            final(exe).txn.writes(),
            final(exe).ns == old(exe).ns,
            final(exe).db == old(exe).db,
            final(exe)@.txn.scopes == old(exe)@.txn.scopes,
            ({
                let out = create_outcome(
                    self@,
                    old(exe)@.txn.records,
                    old(exe)@.ns,
                    old(exe)@.db,
                    ctx@,
                    doc_view(doc),
                );
                &&& final(exe)@.txn.records == out.records
                &&& match out.result {
                    Ok(v) => gave(r, v),
                    Err(e) => failed(r, e),
                }
            }),
    {
        match exe.check(opt, Level::No) {
            Ok(_) => {},
            Err(e) => {
                return Err(e);
            },
        }
        let t = match self.what.compute(&ctx.vars, doc) {
            Value::Thing(t) => t,
            v => {
                return Err(Error::StatementTargetError { value: v });
            },
        };
        let ghost data = self@.data;
        let ghost head = seq![("id"@, ValueView::Thing(t@))];
        let mut fields: Vec<(String, Value)> = Vec::new();
        fields.push(("id".to_owned(), Value::Thing(t.clone())));
        proof {
            lemma_fields_view(self.data.0@);
            lemma_fields_view(fields@);
            assert(crate::sql::value::fields_view(fields@) =~= head + computed_fields(
                data,
                0,
                ctx@,
                doc_view(doc),
            ));
        }
        let mut i: usize = 0;
        while i < self.data.0.len()
            invariant
                i <= self.data.0.len(),
                data == self@.data,
                data.len() == self.data.0.len(),
                forall|j: int|
                    0 <= j < data.len() ==> #[trigger] data[j] == (
                        self.data.0@[j].0@,
                        self.data.0@[j].1@,
                    ),
                crate::sql::value::fields_view(fields@) == head + computed_fields(
                    data,
                    i as nat,
                    ctx@,
                    doc_view(doc),
                ),
            decreases self.data.0.len() - i,
        {
            let f = &self.data.0[i];
            let ghost was = crate::sql::value::fields_view(fields@);
            proof {
                lemma_fields_view(fields@);
            }
            fields.push((f.0.clone(), f.1.compute(&ctx.vars, doc)));
            proof {
                lemma_fields_view(fields@);
                let y = (f.0@, evaluate(f.1@, ctx@, doc_view(doc)));
                let x = computed_fields(data, i as nat, ctx@, doc_view(doc));
                assert(data[i as int] == (f.0@, f.1@));
                assert(crate::sql::value::fields_view(fields@) =~= was.push(y));
                assert(computed_fields(data, (i + 1) as nat, ctx@, doc_view(doc)) == x.push(y));
                assert(head + x.push(y) =~= (head + x).push(y));
                assert(crate::sql::value::fields_view(fields@) =~= head + computed_fields(
                    data,
                    (i + 1) as nat,
                    ctx@,
                    doc_view(doc),
                ));
            }
            i += 1;
        }
        let made = Object(fields);
        let back = Value::Object(made.clone());
        exe.txn.set(
            Record {
                ns: clone_name(&exe.ns),
                db: clone_name(&exe.db),
                tb: t.tb.clone(),
                id: t.id.clone(),
                doc: made,
            },
        );
        Ok(back)
    }
}

} // verus!
