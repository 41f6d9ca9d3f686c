//! The session: who a connection acts as, and on what part of the store.

use crate::iam::auth::{Actor, ActorView, Level, LevelView};
use crate::iam::token::{Claims, ClaimsView};
use crate::kvs::tx::name_view;
use crate::sql::value::{Value, ValueView};
use vstd::prelude::*;

verus! {

#[derive(Debug, PartialEq, Eq)]
pub struct Session {
    /// The namespace that is selected.
    pub ns: Option<String>,
    /// The database that is selected.
    pub db: Option<String>,
    /// The scope that the session is signed in to.
    pub sc: Option<String>,
    /// The claims of the token that the session holds.
    pub tk: Option<Claims>,
    /// The record that the session is signed in as.
    pub sd: Option<Value>,
    /// Who the session acts as. A new actor takes the place of the old one
    /// as a whole.
    pub au: Actor,
}

pub struct SessionView {
    pub ns: Option<Seq<char>>,
    pub db: Option<Seq<char>>,
    pub sc: Option<Seq<char>>,
    pub tk: Option<ClaimsView>,
    pub sd: Option<ValueView>,
    pub au: ActorView,
}

impl View for Session {
    type V = SessionView;

    open spec fn view(&self) -> SessionView {
        SessionView {
            ns: name_view(self.ns),
            db: name_view(self.db),
            sc: name_view(self.sc),
            tk: match self.tk {
                Some(c) => Some(c@),
                None => None,
            },
            sd: match self.sd {
                Some(v) => Some(v@),
                None => None,
            },
            au: self.au@,
        }
    }
}

/// The session of a new connection: nothing selected, nobody signed in.
pub open spec fn fresh() -> SessionView {
    SessionView {
        ns: None,
        db: None,
        sc: None,
        tk: None,
        sd: None,
        au: ActorView { id: Seq::empty(), level: LevelView::No },
    }
}

impl Default for Session {
    fn default() -> (r: Session)
        ensures
            r@ == fresh(),
    {
        Session { ns: None, db: None, sc: None, tk: None, sd: None, au: Actor::default() }
    }
}

impl Session {
    /// The session that the system itself works with: the actor `editor`,
    /// at root level.
    pub fn editor() -> (r: Session)
        ensures
            r@ == (SessionView {
                au: ActorView { id: "editor"@, level: LevelView::Root },
                ..fresh()
            }),
    {
        Session {
            ns: None,
            db: None,
            sc: None,
            tk: None,
            sd: None,
            au: Actor::new("editor".to_owned(), Level::Root),
        }
    }

    /// The session with a namespace selected.
    pub fn with_ns(self, ns: &str) -> (r: Session)
        ensures
            r@ == (SessionView { ns: Some(ns@), ..self@ }),
    {
        Session { ns: Some(ns.to_owned()), ..self }
    }

    /// The session with a database selected.
    pub fn with_db(self, db: &str) -> (r: Session)
        ensures
            r@ == (SessionView { db: Some(db@), ..self@ }),
    {
        Session { db: Some(db.to_owned()), ..self }
    }
}

} // verus!
