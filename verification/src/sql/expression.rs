//! What the store can be asked to evaluate.

use crate::dbs::executor::Executor;
use crate::dbs::iterator::Setup;
use crate::dbs::options::Options;
use crate::dbs::runtime::Runtime;
use crate::err::{Error, ErrorView};
use crate::kvs::tx::RecordView;
use crate::sql::statements::create::{create_outcome, CreateStatement, CreateStatementView};
use crate::sql::statements::delete::{
    delete_outcome, doc_view, failed, gave, DeleteStatement, DeleteStatementView, Outcome,
};
use crate::sql::value::{evaluate, Value, ValueView};
use vstd::prelude::*;

verus! {

#[derive(Debug, PartialEq, Eq)]
pub enum Expression {
    Value(Value),
    Create(CreateStatement),
    Delete(DeleteStatement),
}

pub enum ExpressionView {
    Value(ValueView),
    Create(CreateStatementView),
    Delete(DeleteStatementView),
}

impl View for Expression {
    type V = ExpressionView;

    open spec fn view(&self) -> ExpressionView {
        match self {
            Expression::Value(v) => ExpressionView::Value(v@),
            Expression::Create(s) => ExpressionView::Create(s@),
            Expression::Delete(s) => ExpressionView::Delete(s@),
        }
    }
}

impl Clone for Expression {
    fn clone(&self) -> (r: Expression)
        ensures
            r@ == self@,
    {
        match self {
            Expression::Value(v) => Expression::Value(v.clone()),
            Expression::Create(s) => Expression::Create(s.clone()),
            Expression::Delete(s) => Expression::Delete(s.clone()),
        }
    }
}

/// Whether evaluating the expression can change the store.
pub open spec fn writes(e: ExpressionView) -> bool {
    !(e is Value)
}

/// Whether the expression may be stopped for taking too long.
pub open spec fn timed(e: ExpressionView) -> bool {
    e matches ExpressionView::Delete(d) && d.timeout is Some
}

impl Expression {
    /// Whether evaluating the expression can change the store.
    pub fn writeable(&self) -> (r: bool)
        ensures
            r == writes(self@),
    {
        match self {
            Expression::Value(_) => false,
            _ => true,
        }
    }
}

/// What evaluating an expression does to the records of a transaction,
/// and what it hands back.
pub open spec fn outcome(
    e: ExpressionView,
    recs: Seq<RecordView>,
    ns: Option<Seq<char>>,
    db: Option<Seq<char>>,
    vars: Seq<(Seq<char>, ValueView)>,
    doc: Option<ValueView>,
) -> Outcome {
    match e {
        ExpressionView::Value(v) => Outcome { records: recs, result: Ok(evaluate(v, vars, doc)) },
        ExpressionView::Create(c) => create_outcome(c, recs, ns, db, vars, doc),
        ExpressionView::Delete(d) => delete_outcome(
            d,
            recs,
            Setup { ns, db, cond: d.cond, output: d.output, vars },
            doc,
        ),
    }
}

impl Expression {
    /// Evaluates the expression in the executor's transaction. Where
    /// `outcome` is an error, that is the result and the records are as
    /// they were. Else the outcome is `outcome`; an expression with a time
    /// limit may end in a timeout instead, after which the transaction is
    /// for the caller to drop.
    pub fn compute(
        &self,
        ctx: &Runtime,
        opt: &Options,
        exe: &mut Executor,
        doc: Option<&Value>,
    ) -> (r: Result<Value, Error>)
        requires
            old(exe).txn.wf(),
            writes(self@) ==> old(exe).txn.writes(),
        ensures
            final(exe).txn.wf(),
            final(exe).txn.writes() == old(exe).txn.writes(),
            final(exe).ns == old(exe).ns,
            final(exe).db == old(exe).db,
            final(exe)@.txn.scopes == old(exe)@.txn.scopes,
            ({
                let out = outcome(
                    self@,
                    old(exe)@.txn.records,
                    old(exe)@.ns,
                    old(exe)@.db,
                    ctx@,
                    doc_view(doc),
                );
                match out.result {
                    Ok(v) => (gave(r, v) && final(exe)@.txn.records == out.records) || (timed(
                        self@,
                    ) && failed(r, ErrorView::Timeout)),
                    Err(e) => failed(r, e) && final(exe)@.txn.records == old(exe)@.txn.records,
                }
            }),
    {
        match self {
            Expression::Value(v) => Ok(v.compute(&ctx.vars, doc)),
            Expression::Create(s) => s.compute(ctx, opt, exe, doc),
            Expression::Delete(s) => s.compute(ctx, opt, exe, doc),
        }
    }
}

} // verus!
