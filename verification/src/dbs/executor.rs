//! The executor: the transaction that a statement works in, the part of
//! the store that it works on, and the comparison of levels that comes
//! before a statement runs.

use crate::dbs::options::Options;
use crate::err::{Error, ErrorView};
use crate::iam::auth::{reaches, Level};
use crate::kvs::tx::{name_view, ContentView, Transaction};
use vstd::prelude::*;

verus! {

pub struct Executor {
    pub ns: Option<String>,
    pub db: Option<String>,
    pub txn: Transaction,
}

pub struct ExecutorView {
    pub ns: Option<Seq<char>>,
    pub db: Option<Seq<char>>,
    pub txn: ContentView,
}

impl View for Executor {
    type V = ExecutorView;

    open spec fn view(&self) -> ExecutorView {
        ExecutorView { ns: name_view(self.ns), db: name_view(self.db), txn: self.txn@ }
    }
}

impl Executor {
    pub fn new(ns: Option<String>, db: Option<String>, txn: Transaction) -> (r: Executor)
        ensures
            r.ns == ns,
            r.db == db,
            r.txn == txn,
    {
        Executor { ns, db, txn }
    }

    /// Allows a statement that asks for `level` where the session's level
    /// reaches it, and denies it otherwise.
    pub fn check(&self, opt: &Options, level: Level) -> (r: Result<(), Error>)
        ensures
            r is Ok <==> reaches(opt@, level@),
            r matches Err(e) ==> e@ == ErrorView::PermissionDenied,
    {
        if opt.auth.reaches(&level) {
            Ok(())
        } else {
            Err(Error::PermissionDenied)
        }
    }
}

} // verus!
