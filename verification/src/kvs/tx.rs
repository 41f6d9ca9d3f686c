//! Transactions: a private copy of the store's content that is worked on,
//! and then either put in the store's place or dropped.

use crate::err::{Error, ErrorView};
use crate::sql::expression::{Expression, ExpressionView};
use crate::sql::timeout::Duration;
use crate::sql::value::{same_id, Id, IdView, Object, Thing, ValueView};
use vstd::prelude::*;

verus! {

/// What a record is found by: the namespace and database it lives in, its
/// table and its identifier.
pub struct KeyView {
    pub ns: Option<Seq<char>>,
    pub db: Option<Seq<char>>,
    pub tb: Seq<char>,
    pub id: IdView,
}

/// One stored record.
#[derive(Debug, PartialEq, Eq)]
pub struct Record {
    pub ns: Option<String>,
    pub db: Option<String>,
    pub tb: String,
    pub id: Id,
    pub doc: Object,
}

pub struct RecordView {
    pub key: KeyView,
    pub doc: Seq<(Seq<char>, ValueView)>,
}

/// What an optional name stands for.
pub open spec fn name_view(o: Option<String>) -> Option<Seq<char>> {
    match o {
        Some(s) => Some(s@),
        None => None,
    }
}

impl View for Record {
    type V = RecordView;

    open spec fn view(&self) -> RecordView {
        RecordView {
            key: KeyView {
                ns: name_view(self.ns),
                db: name_view(self.db),
                tb: self.tb@,
                id: self.id@,
            },
            doc: self.doc@,
        }
    }
}

/// A copy of an optional name.
pub fn clone_name(o: &Option<String>) -> (r: Option<String>)
    ensures
        name_view(r) == name_view(*o),
{
    match o {
        Some(s) => Some(s.clone()),
        None => None,
    }
}

/// Whether two optional names are the same.
pub fn same_name(a: &Option<String>, b: &Option<String>) -> (r: bool)
    ensures
        r == (name_view(*a) == name_view(*b)),
{
    match a {
        Some(x) => match b {
            Some(y) => *x == *y,
            None => false,
        },
        None => match b {
            Some(_) => false,
            None => true,
        },
    }
}

impl Clone for Record {
    fn clone(&self) -> (r: Record)
        ensures
            r@ == self@,
    {
        Record {
            ns: clone_name(&self.ns),
            db: clone_name(&self.db),
            tb: self.tb.clone(),
            id: self.id.clone(),
            doc: self.doc.clone(),
        }
    }
}

/// What a scope is configured with.
#[derive(Debug, PartialEq, Eq)]
pub struct ScopeDefinition {
    pub ns: String,
    pub db: String,
    pub name: String,
    /// The secret that the scope's tokens are signed with.
    pub code: String,
    /// What signing up evaluates. Without it nobody can sign up.
    pub signup: Option<Expression>,
    pub signin: Option<Expression>,
    /// How long a token is good for. Without it, one hour.
    pub session: Option<Duration>,
}

pub struct ScopeDefinitionView {
    pub ns: Seq<char>,
    pub db: Seq<char>,
    pub name: Seq<char>,
    pub code: Seq<char>,
    pub signup: Option<ExpressionView>,
    pub signin: Option<ExpressionView>,
    pub session: Option<Duration>,
}

/// What an optional expression stands for.
pub open spec fn expression_view(o: Option<Expression>) -> Option<ExpressionView> {
    match o {
        Some(e) => Some(e@),
        None => None,
    }
}

impl View for ScopeDefinition {
    type V = ScopeDefinitionView;

    open spec fn view(&self) -> ScopeDefinitionView {
        ScopeDefinitionView {
            ns: self.ns@,
            db: self.db@,
            name: self.name@,
            code: self.code@,
            signup: expression_view(self.signup),
            signin: expression_view(self.signin),
            session: self.session,
        }
    }
}

impl Clone for ScopeDefinition {
    fn clone(&self) -> (r: ScopeDefinition)
        ensures
            r@ == self@,
    {
        ScopeDefinition {
            ns: self.ns.clone(),
            db: self.db.clone(),
            name: self.name.clone(),
            code: self.code.clone(),
            signup: match &self.signup {
                Some(e) => Some(e.clone()),
                None => None,
            },
            signin: match &self.signin {
                Some(e) => Some(e.clone()),
                None => None,
            },
            session: self.session,
        }
    }
}

/// The views of the first `n` records of a list.
pub open spec fn records_to(s: Seq<Record>, n: nat) -> Seq<RecordView>
    decreases n,
{
    if n == 0 || n > s.len() {
        Seq::empty()
    } else {
        records_to(s, (n - 1) as nat).push(s[n - 1]@)
    }
}

/// The views of a list of records, item by item.
pub open spec fn records_view(s: Seq<Record>) -> Seq<RecordView> {
    records_to(s, s.len())
}

/// The views of the first `n` scopes of a list.
pub open spec fn scopes_to(s: Seq<ScopeDefinition>, n: nat) -> Seq<ScopeDefinitionView>
    decreases n,
{
    if n == 0 || n > s.len() {
        Seq::empty()
    } else {
        scopes_to(s, (n - 1) as nat).push(s[n - 1]@)
    }
}

/// The views of a list of scopes, item by item.
pub open spec fn scopes_view(s: Seq<ScopeDefinition>) -> Seq<ScopeDefinitionView> {
    scopes_to(s, s.len())
}

pub proof fn lemma_records_to(s: Seq<Record>, n: nat)
    requires
        n <= s.len(),
    ensures
        records_to(s, n).len() == n,
        forall|i: int| 0 <= i < n ==> #[trigger] records_to(s, n)[i] == s[i]@,
    decreases n,
{
    if n > 0 {
        lemma_records_to(s, (n - 1) as nat);
    }
}

/// A list's view has the list's length and holds the view of each record.
pub proof fn lemma_records_view(s: Seq<Record>)
    ensures
        records_view(s).len() == s.len(),
        forall|i: int| 0 <= i < s.len() ==> #[trigger] records_view(s)[i] == s[i]@,
{
    lemma_records_to(s, s.len());
}

pub proof fn lemma_scopes_to(s: Seq<ScopeDefinition>, n: nat)
    requires
        n <= s.len(),
    ensures
        scopes_to(s, n).len() == n,
        forall|i: int| 0 <= i < n ==> #[trigger] scopes_to(s, n)[i] == s[i]@,
    decreases n,
{
    if n > 0 {
        lemma_scopes_to(s, (n - 1) as nat);
    }
}

/// A list's view has the list's length and holds the view of each scope.
pub proof fn lemma_scopes_view(s: Seq<ScopeDefinition>)
    ensures
        scopes_view(s).len() == s.len(),
        forall|i: int| 0 <= i < s.len() ==> #[trigger] scopes_view(s)[i] == s[i]@,
{
    lemma_scopes_to(s, s.len());
}

/// No two records have one key.
#[verifier::opaque]
pub open spec fn unique(recs: Seq<RecordView>) -> bool {
    forall|i: int, j: int|
        0 <= i < j < recs.len() ==> (#[trigger] recs[i]).key != (#[trigger] recs[j]).key
}

/// Where the record of that key is, if there is one.
#[verifier::opaque]
pub open spec fn index_of(recs: Seq<RecordView>, k: KeyView) -> Option<int> {
    if exists|i: int| 0 <= i < recs.len() && (#[trigger] recs[i]).key == k {
        Some(choose|i: int| 0 <= i < recs.len() && (#[trigger] recs[i]).key == k)
    } else {
        None
    }
}

/// Among records with no key twice, a record is where its key is found.
pub proof fn lemma_index_of(recs: Seq<RecordView>, k: KeyView, i: int)
    requires
        unique(recs),
        0 <= i < recs.len(),
        recs[i].key == k,
    ensures
        index_of(recs, k) == Some(i),
{
    reveal(unique);
    reveal(index_of);
    let c = choose|c: int| 0 <= c < recs.len() && (#[trigger] recs[c]).key == k;
    if c < i {
        assert(recs[c].key != recs[i].key);
    }
    if i < c {
        assert(recs[i].key != recs[c].key);
    }
}

/// Where the latest definition of that scope is, if there is one: the
/// first in the list.
pub open spec fn scope_index(
    scopes: Seq<ScopeDefinitionView>,
    ns: Seq<char>,
    db: Seq<char>,
    sc: Seq<char>,
    n: nat,
) -> Option<int>
    decreases scopes.len() - n,
{
    if n >= scopes.len() {
        None
    } else if scopes[n as int].ns == ns && scopes[n as int].db == db && scopes[n as int].name
        == sc {
        Some(n as int)
    } else {
        scope_index(scopes, ns, db, sc, n + 1)
    }
}

/// The definition of that scope that is in force, if there is one.
pub open spec fn scope_of(
    scopes: Seq<ScopeDefinitionView>,
    ns: Seq<char>,
    db: Seq<char>,
    sc: Seq<char>,
) -> Option<ScopeDefinitionView> {
    match scope_index(scopes, ns, db, sc, 0) {
        Some(i) => Some(scopes[i]),
        None => None,
    }
}

/// The content of a store, as a transaction sees it.
pub struct ContentView {
    pub scopes: Seq<ScopeDefinitionView>,
    pub records: Seq<RecordView>,
}

/// A transaction: a copy of the store's content, and whether it may be
/// changed.
pub struct Transaction {
    write: bool,
    scopes: Vec<ScopeDefinition>,
    records: Vec<Record>,
}

impl View for Transaction {
    type V = ContentView;

    closed spec fn view(&self) -> ContentView {
        ContentView { scopes: scopes_view(self.scopes@), records: records_view(self.records@) }
    }
}

impl Transaction {
    /// Whether the transaction may change what it holds.
    pub closed spec fn writes(&self) -> bool {
        self.write
    }

    /// No two records of the transaction have one key.
    pub open spec fn wf(&self) -> bool {
        unique(self@.records)
    }

    /// A transaction on the given content.
    pub fn new(write: bool, scopes: Vec<ScopeDefinition>, records: Vec<Record>) -> (r: Transaction)
        ensures
            r.writes() == write,
            r@.scopes == scopes_view(scopes@),
            r@.records == records_view(records@),
    {
        Transaction { write, scopes, records }
    }

    /// Ends the transaction and hands out the records as it leaves them.
    pub fn into_records(self) -> (r: Vec<Record>)
        ensures
            records_view(r@) == self@.records,
    {
        self.records
    }

    pub fn writeable(&self) -> (r: bool)
        ensures
            r == self.writes(),
    {
        self.write
    }

    /// Whether no two records of the transaction have one key.
    pub fn is_valid(&self) -> (r: bool)
        ensures
            r == self.wf(),
    {
        distinct(&self.records)
    }

    /// The number of records.
    pub fn len(&self) -> (r: usize)
        ensures
            r == self@.records.len(),
    {
        proof {
            lemma_records_view(self.records@);
        }
        self.records.len()
    }

    /// The record at a position.
    pub fn at(&self, i: usize) -> (r: &Record)
        requires
            i < self@.records.len(),
        ensures
            r@ == self@.records[i as int],
    {
        proof {
            lemma_records_view(self.records@);
        }
        &self.records[i]
    }

    /// The definition of a scope that is in force.
    pub fn get_sc(&self, ns: &str, db: &str, sc: &str) -> (r: Result<ScopeDefinition, Error>)
        ensures
            match r {
                Ok(d) => scope_of(self@.scopes, ns@, db@, sc@) == Some(d@),
                Err(e) => scope_of(self@.scopes, ns@, db@, sc@) is None && e@
                    == ErrorView::ScopeNotFound,
            },
    {
        let want_ns = ns.to_owned();
        let want_db = db.to_owned();
        let want_sc = sc.to_owned();
        let ghost v = self@.scopes;
        proof {
            lemma_scopes_view(self.scopes@);
        }
        let mut i: usize = 0;
        while i < self.scopes.len()
            invariant
                i <= self.scopes.len(),
                v == self@.scopes,
                v.len() == self.scopes.len(),
                want_ns@ == ns@,
                want_db@ == db@,
                want_sc@ == sc@,
                forall|j: int| 0 <= j < v.len() ==> #[trigger] v[j] == self.scopes@[j]@,
                scope_index(v, ns@, db@, sc@, 0) == scope_index(v, ns@, db@, sc@, i as nat),
            decreases self.scopes.len() - i,
        {
            let d = &self.scopes[i];
            if d.ns == want_ns && d.db == want_db && d.name == want_sc {
                return Ok(d.clone());
            }
            i += 1;
        }
        Err(Error::ScopeNotFound)
    }

    /// Where the record of that key is, if there is one.
    pub fn find(&self, ns: &Option<String>, db: &Option<String>, thing: &Thing) -> (r: Option<
        usize,
    >)
        requires
            self.wf(),
        ensures
            match r {
                Some(i) => index_of(
                    self@.records,
                    KeyView { ns: name_view(*ns), db: name_view(*db), tb: thing@.tb, id: thing@.id },
                ) == Some(i as int) && i < self@.records.len(),
                None => index_of(
                    self@.records,
                    KeyView { ns: name_view(*ns), db: name_view(*db), tb: thing@.tb, id: thing@.id },
                ) is None,
            },
    {
        let ghost v = self@.records;
        let ghost k = KeyView {
            ns: name_view(*ns),
            db: name_view(*db),
            tb: thing@.tb,
            id: thing@.id,
        };
        proof {
            lemma_records_view(self.records@);
        }
        let mut i: usize = 0;
        while i < self.records.len()
            invariant
                i <= self.records.len(),
                v == self@.records,
                unique(v),
                v.len() == self.records.len(),
                k == (KeyView {
                    ns: name_view(*ns),
                    db: name_view(*db),
                    tb: thing@.tb,
                    id: thing@.id,
                }),
                forall|j: int| 0 <= j < v.len() ==> #[trigger] v[j] == self.records@[j]@,
                forall|j: int| 0 <= j < i ==> (#[trigger] v[j]).key != k,
            decreases self.records.len() - i,
        {
            let r = &self.records[i];
            if same_name(&r.ns, ns) && same_name(&r.db, db) && r.tb == thing.tb && same_id(
                &r.id,
                &thing.id,
            ) {
                proof {
                    lemma_index_of(v, k, i as int);
                }
                return Some(i);
            }
            i += 1;
        }
        proof {
            reveal(index_of);
        }
        None
    }

    /// Takes the record at a position out of the transaction.
    pub fn del(&mut self, i: usize) -> (r: Record)
        requires
            old(self).wf(),
            old(self).writes(),
            i < old(self)@.records.len(),
        ensures
            final(self).wf(),
            final(self).writes(),
            final(self)@.scopes == old(self)@.scopes,
            final(self)@.records == old(self)@.records.remove(i as int),
            r@ == old(self)@.records[i as int],
    {
        proof {
            lemma_records_view(self.records@);
        }
        let r = self.records.remove(i);
        proof {
            lemma_records_view(self.records@);
            assert(self@.records =~= old(self)@.records.remove(i as int));
            lemma_remove_unique(old(self)@.records, i as int);
        }
        r
    }

    /// Puts a record into the transaction: in the place of the one of its
    /// key, if there is one, else behind the others.
    pub fn set(&mut self, rec: Record)
        requires
            old(self).wf(),
            old(self).writes(),
        ensures
            final(self).wf(),
            final(self).writes(),
            final(self)@.scopes == old(self)@.scopes,
            final(self)@.records == put(old(self)@.records, rec@),
    {
        let found = self.find(
            &rec.ns,
            &rec.db,
            &Thing { tb: rec.tb.clone(), id: rec.id.clone() },
        );
        proof {
            lemma_records_view(self.records@);
            lemma_put_unique(self@.records, rec@);
        }
        match found {
            Some(i) => {
                self.records.set(i, rec);
                proof {
                    lemma_records_view(self.records@);
                    assert(self@.records =~= put(old(self)@.records, rec@));
                }
            },
            None => {
                self.records.push(rec);
                proof {
                    lemma_records_view(self.records@);
                    assert(self@.records =~= put(old(self)@.records, rec@));
                }
            },
        }
    }
}

/// Whether two records have one key.
fn same_key(a: &Record, b: &Record) -> (r: bool)
    ensures
        r == (a@.key == b@.key),
{
    same_name(&a.ns, &b.ns) && same_name(&a.db, &b.db) && a.tb == b.tb && same_id(&a.id, &b.id)
}

/// Whether no two records of a list have one key.
pub fn distinct(records: &Vec<Record>) -> (r: bool)
    ensures
        r == unique(records_view(records@)),
{
    let ghost v = records_view(records@);
    proof {
        reveal(unique);
        lemma_records_view(records@);
    }
    let n = records.len();
    let mut i: usize = 0;
    while i < n
        invariant
            i <= n,
            n == records.len(),
            v == records_view(records@),
            v.len() == n,
            forall|k: int| 0 <= k < n ==> #[trigger] v[k] == records@[k]@,
            forall|a: int, b: int|
                0 <= a < i && a < b < n ==> (#[trigger] v[a]).key != (#[trigger] v[b]).key,
        decreases n - i,
    {
        let mut j: usize = i + 1;
        while j < n
            invariant
                i < j <= n,
                n == records.len(),
                v == records_view(records@),
                v.len() == n,
                forall|k: int| 0 <= k < n ==> #[trigger] v[k] == records@[k]@,
                forall|b: int| i < b < j ==> v[i as int].key != (#[trigger] v[b]).key,
            decreases n - j,
        {
            if same_key(&records[i], &records[j]) {
                proof {
                    reveal(unique);
                    assert(v[i as int].key == v[j as int].key);
                }
                return false;
            }
            j += 1;
        }
        i += 1;
    }
    proof {
        reveal(unique);
    }
    true
}

/// The records with one more: in the place of the one of its key, if there
/// is one, else behind the others.
pub open spec fn put(recs: Seq<RecordView>, rec: RecordView) -> Seq<RecordView> {
    match index_of(recs, rec.key) {
        Some(i) => recs.update(i, rec),
        None => recs.push(rec),
    }
}

/// Taking a record out leaves no key twice.
pub proof fn lemma_remove_unique(recs: Seq<RecordView>, i: int)
    requires
        unique(recs),
        0 <= i < recs.len(),
    ensures
        unique(recs.remove(i)),
        index_of(recs.remove(i), recs[i].key) is None,
{
    reveal(unique);
    reveal(index_of);
    let out = recs.remove(i);
    assert forall|a: int, b: int| 0 <= a < b < out.len() implies (#[trigger] out[a]).key != (
    #[trigger] out[b]).key by {
        let x = if a < i {
            a
        } else {
            a + 1
        };
        let y = if b < i {
            b
        } else {
            b + 1
        };
        assert(out[a] == recs[x]);
        assert(out[b] == recs[y]);
        assert(recs[x].key != recs[y].key);
    }
    assert forall|a: int| 0 <= a < out.len() implies (#[trigger] out[a]).key != recs[i].key by {
        let x = if a < i {
            a
        } else {
            a + 1
        };
        assert(out[a] == recs[x]);
        if x < i {
            assert(recs[x].key != recs[i].key);
        } else {
            assert(recs[i].key != recs[x].key);
        }
    }
}

/// Putting a record in leaves no key twice, and the record is then the one
/// of its key.
pub proof fn lemma_put_unique(recs: Seq<RecordView>, rec: RecordView)
    requires
        unique(recs),
    ensures
        unique(put(recs, rec)),
        index_of(put(recs, rec), rec.key) matches Some(i) && put(recs, rec)[i] == rec,
{
    reveal(unique);
    let out = put(recs, rec);
    assert(index_of(recs, rec.key) matches Some(i) ==> 0 <= i < recs.len() && recs[i].key
        == rec.key) by {
        reveal(index_of);
    }
    assert(index_of(recs, rec.key) is None ==> forall|a: int|
        0 <= a < recs.len() ==> (#[trigger] recs[a]).key != rec.key) by {
        reveal(index_of);
    }
    match index_of(recs, rec.key) {
        Some(i) => {
            assert forall|a: int, b: int| 0 <= a < b < out.len() implies (#[trigger] out[a]).key
                != (#[trigger] out[b]).key by {
                assert(out[a].key == recs[a].key);
                assert(out[b].key == recs[b].key);
                assert(recs[a].key != recs[b].key);
            }
            assert(out[i] == rec);
            lemma_index_of(out, rec.key, i);
        },
        None => {
            assert forall|a: int, b: int| 0 <= a < b < out.len() implies (#[trigger] out[a]).key
                != (#[trigger] out[b]).key by {
                if b < recs.len() {
                    assert(out[a] == recs[a]);
                    assert(out[b] == recs[b]);
                    assert(recs[a].key != recs[b].key);
                } else {
                    assert(out[a] == recs[a]);
                    assert(recs[a].key != rec.key);
                }
            }
            assert(out[recs.len() as int] == rec);
            lemma_index_of(out, rec.key, recs.len() as int);
        },
    }
}

} // verus!
