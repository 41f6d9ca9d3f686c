//! The store: the scopes that are defined and the records that are kept.

use crate::dbs::executor::Executor;
use crate::dbs::options::Options;
use crate::dbs::runtime::Runtime;
use crate::dbs::session::Session;
use crate::err::{Error, ErrorView};
use crate::kvs::tx::{
    clone_name, lemma_records_view, lemma_scopes_view, records_view, scopes_view, unique,
    ContentView, Record, ScopeDefinition, Transaction,
};
use crate::sql::expression::{outcome, timed, Expression};
use crate::sql::statements::delete::{failed, gave};
use crate::sql::value::{Object, Value, ValueView};
use vstd::prelude::*;

verus! {

pub struct Datastore {
    scopes: Vec<ScopeDefinition>,
    records: Vec<Record>,
}

impl View for Datastore {
    type V = ContentView;

    closed spec fn view(&self) -> ContentView {
        ContentView { scopes: scopes_view(self.scopes@), records: records_view(self.records@) }
    }
}

/// What the parameters of an evaluation stand for; none where none are given.
pub open spec fn vars_view(vars: Option<Object>) -> Seq<(Seq<char>, ValueView)> {
    match vars {
        Some(v) => v@,
        None => Seq::empty(),
    }
}

impl Datastore {
    /// No two records of the store have one key.
    pub open spec fn wf(&self) -> bool {
        unique(self@.records)
    }

    /// An empty store.
    pub fn new() -> (r: Datastore)
        ensures
            r.wf(),
            r@.scopes.len() == 0,
            r@.records.len() == 0,
    {
        let r = Datastore { scopes: Vec::new(), records: Vec::new() };
        proof {
            reveal(unique);
            lemma_records_view(r.records@);
            lemma_scopes_view(r.scopes@);
        }
        r
    }

    /// Defines a scope. The definition is in force from now on, in the
    /// place of any older one of the same namespace, database and name.
    pub fn define_scope(&mut self, def: ScopeDefinition)
        ensures
            final(self)@.scopes == seq![def@] + old(self)@.scopes,
            final(self)@.records == old(self)@.records,
    {
        let ghost d = def@;
        proof {
            lemma_scopes_view(self.scopes@);
        }
        self.scopes.insert(0, def);
        proof {
            lemma_scopes_view(self.scopes@);
            assert(self@.scopes =~= seq![d] + old(self)@.scopes);
        }
    }

    /// Whether no two records of the store have one key.
    pub fn is_valid(&self) -> (r: bool)
        ensures
            r == self.wf(),
    {
        crate::kvs::tx::distinct(&self.records)
    }

    /// The records of the store.
    pub fn records(&self) -> (r: &Vec<Record>)
        ensures
            records_view(r@) == self@.records,
    {
        &self.records
    }

    /// Opens a transaction: a copy of what the store holds.
    pub fn transaction(&self, write: bool) -> (r: Transaction)
        ensures
            r@ == self@,
            r.writes() == write,
    {
        let mut scopes: Vec<ScopeDefinition> = Vec::new();
        let mut i: usize = 0;
        while i < self.scopes.len()
            invariant
                i <= self.scopes.len(),
                scopes.len() == i,
                forall|k: int| 0 <= k < i ==> (#[trigger] scopes@[k])@ == self.scopes@[k]@,
            decreases self.scopes.len() - i,
        {
            scopes.push(self.scopes[i].clone());
            i += 1;
        }
        let mut records: Vec<Record> = Vec::new();
        let mut j: usize = 0;
        while j < self.records.len()
            invariant
                j <= self.records.len(),
                records.len() == j,
                forall|k: int| 0 <= k < j ==> (#[trigger] records@[k])@ == self.records@[k]@,
            decreases self.records.len() - j,
        {
            records.push(self.records[j].clone());
            j += 1;
        }
        proof {
            lemma_scopes_view(self.scopes@);
            lemma_scopes_view(scopes@);
            lemma_records_view(self.records@);
            lemma_records_view(records@);
            assert(scopes_view(scopes@) =~= scopes_view(self.scopes@));
            assert(records_view(records@) =~= records_view(self.records@));
        }
        Transaction::new(write, scopes, records)
    }

    /// Evaluates an expression for a session, in a transaction of its own.
    /// Where the evaluation succeeds, what it did to the records is kept;
    /// where it fails, the store is as it was. The outcome is `outcome`,
    /// on the part of the store that the session has selected; where that
    /// is a success, an expression with a time limit may end in a timeout
    /// instead.
    pub fn compute(&mut self, expr: Expression, session: &Session, vars: Option<Object>) -> (r:
        Result<Value, Error>)
        requires
            old(self).wf(),
        ensures
            final(self).wf(),
            final(self)@.scopes == old(self)@.scopes,
            ({
                let out = outcome(
                    expr@,
                    old(self)@.records,
                    session@.ns,
                    session@.db,
                    vars_view(vars),
                    None,
                );
                match out.result {
                    Ok(v) => (gave(r, v) && final(self)@.records == out.records) || (timed(expr@)
                        && failed(r, ErrorView::Timeout) && final(self)@ == old(self)@),
                    Err(e) => failed(r, e) && final(self)@ == old(self)@,
                }
            }),
    {
        let ctx = Runtime::new(
            match vars {
                Some(v) => v,
                None => {
                    let o = Object(Vec::new());
                    proof {
                        crate::sql::value::lemma_fields_view(o.0@);
                        assert(o@ =~= Seq::empty());
                    }
                    o
                },
            },
        );
        let opt = Options::new(session.au.level.clone());
        let write = expr.writeable();
        let txn = self.transaction(write);
        let mut exe = Executor::new(clone_name(&session.ns), clone_name(&session.db), txn);
        match expr.compute(&ctx, &opt, &mut exe, None) {
            Ok(v) => {
                if write {
                    self.records = exe.txn.into_records();
                }
                Ok(v)
            },
            Err(e) => Err(e),
        }
    }
}

} // verus!
