//! Signing up to a scope: the scope's signup expression makes the record
//! of the new user, and a token that names the record is issued.

use crate::clock::unix_now;
use crate::cnf::SERVER_NAME;
use crate::dbs::session::{Session, SessionView};
use crate::err::{Error, ErrorView};
use crate::iam::auth::{is_level, Actor, ActorView, Level, LevelView};
use crate::iam::token::{token_of, Claims, ClaimsView};
use crate::kvs::ds::Datastore;
use crate::kvs::tx::{scope_of, ContentView, ScopeDefinitionView};
use crate::sql::expression::{outcome, timed};
use crate::sql::timeout::{seconds, Duration};
use crate::sql::value::{
    field_of, raw_string, record_of, render_thing, Object, Thing, ThingView, Value, ValueView,
};
use vstd::prelude::*;

verus! {

/// How long a token of a scope is good for, in seconds: the scope's session
/// duration, or one hour where it has none.
pub open spec fn lifetime(session: Option<Duration>) -> int {
    match session {
        Some(d) => seconds(d),
        None => 3600,
    }
}

/// The claims of a token that is issued at `now` to the record `rid`, for
/// a scope with the given session duration.
pub open spec fn claims_at(
    session: Option<Duration>,
    ns: Seq<char>,
    db: Seq<char>,
    sc: Seq<char>,
    rid: ThingView,
    now: i64,
) -> ClaimsView {
    ClaimsView {
        iss: Some(SERVER_NAME@),
        iat: Some(now),
        nbf: Some(now),
        exp: Some((now + lifetime(session)) as i64),
        ns: Some(ns),
        db: Some(db),
        sc: Some(sc),
        id: Some(render_thing(rid)),
    }
}

/// The session of a user who has signed up: it holds the claims, has the
/// scope's namespace and database selected, and acts as the record, at the
/// level of the scope.
pub open spec fn signed_in(
    claims: ClaimsView,
    ns: Seq<char>,
    db: Seq<char>,
    sc: Seq<char>,
    rid: ThingView,
) -> SessionView {
    SessionView {
        ns: Some(ns),
        db: Some(db),
        sc: Some(sc),
        tk: Some(claims),
        sd: Some(ValueView::Thing(rid)),
        au: ActorView { id: render_thing(rid), level: LevelView::Scope(ns, db, sc) },
    }
}

/// Signing up failed. The error never says at which step.
pub open spec fn denied(r: Result<Option<String>, Error>) -> bool {
    r matches Err(e) && e@ == ErrorView::InvalidAuth
}

/// Signing up gave the token, or failed where there is none.
pub open spec fn granted(r: Result<Option<String>, Error>, token: Option<Seq<char>>) -> bool {
    match token {
        Some(t) => r matches Ok(Some(x)) && x@ == t,
        None => denied(r),
    }
}

/// What is given under one of two names: under the first, else under the second.
pub open spec fn named_var(
    vars: Seq<(Seq<char>, ValueView)>,
    upper: Seq<char>,
    lower: Seq<char>,
) -> Option<ValueView> {
    match field_of(vars, upper) {
        Some(v) => Some(v),
        None => field_of(vars, lower),
    }
}

/// What issuing a token to a record at the moment `now` does. Where the
/// token's expiry lies beyond what a timestamp holds, or the claims cannot
/// be signed, signing up fails and the session is as it was. Else the
/// token of the claims is given and the session is signed in with them.
pub open spec fn issued_at(
    lifespan: Option<Duration>,
    code: Seq<char>,
    ns: Seq<char>,
    db: Seq<char>,
    sc: Seq<char>,
    rid: ThingView,
    now: i64,
    before: SessionView,
    after: SessionView,
    r: Result<Option<String>, Error>,
) -> bool {
    if now + lifetime(lifespan) > i64::MAX {
        denied(r) && after == before
    } else {
        let c = claims_at(lifespan, ns, db, sc, rid, now);
        match token_of(c, code) {
            Some(t) => r matches Ok(Some(x)) && x@ == t && after == signed_in(c, ns, db, sc, rid),
            None => denied(r) && after == before,
        }
    }
}

/// What holds when a record has been made and its token is issued: there
/// is a moment at which it was issued.
pub open spec fn issued(
    sv: ScopeDefinitionView,
    rid: ThingView,
    before: SessionView,
    after: SessionView,
    r: Result<Option<String>, Error>,
) -> bool {
    exists|now: i64| #[trigger]
        issued_at(sv.session, sv.code, sv.ns, sv.db, sv.name, rid, now, before, after, r)
}

/// What signing up to a scope does. Where a name is empty, or the scope is
/// not defined or has no signup expression, it fails and nothing changes.
/// Else the expression
/// is evaluated, with the given parameters, on the scope's namespace and
/// database. Where that fails, signing up fails and nothing changes. Where
/// it succeeds, what it did to the store stays; where its value names no
/// record, signing up fails and the session is as it was; where it names
/// one, a token is issued to it.
pub open spec fn sc_post(
    store: ContentView,
    store_after: ContentView,
    before: SessionView,
    after: SessionView,
    ns: Seq<char>,
    db: Seq<char>,
    sc: Seq<char>,
    vars: Seq<(Seq<char>, ValueView)>,
    r: Result<Option<String>, Error>,
) -> bool {
    if ns.len() == 0 || db.len() == 0 || sc.len() == 0 {
        denied(r) && store_after == store && after == before
    } else {
        sc_named(store, store_after, before, after, ns, db, sc, vars, r)
    }
}

/// What signing up to a scope does where no name is empty.
pub open spec fn sc_named(
    store: ContentView,
    store_after: ContentView,
    before: SessionView,
    after: SessionView,
    ns: Seq<char>,
    db: Seq<char>,
    sc: Seq<char>,
    vars: Seq<(Seq<char>, ValueView)>,
    r: Result<Option<String>, Error>,
) -> bool {
    match scope_of(store.scopes, ns, db, sc) {
        Some(sv) => match sv.signup {
            Some(expr) => {
                let out = outcome(expr, store.records, Some(ns), Some(db), vars, None);
                match out.result {
                    Ok(v) => {
                        ||| (timed(expr) && denied(r) && store_after == store && after == before)
                        ||| (store_after.scopes == store.scopes && store_after.records
                            == out.records && match record_of(v) {
                            Some(rid) => issued(sv, rid, before, after, r),
                            None => denied(r) && after == before,
                        })
                    },
                    Err(_) => denied(r) && store_after == store && after == before,
                }
            },
            None => denied(r) && store_after == store && after == before,
        },
        None => denied(r) && store_after == store && after == before,
    }
}

/// The level of a session that has signed up to a scope with no empty
/// name names no part of the store by an empty name.
pub proof fn lemma_signed_in_level(
    claims: ClaimsView,
    ns: Seq<char>,
    db: Seq<char>,
    sc: Seq<char>,
    rid: ThingView,
)
    requires
        ns.len() > 0,
        db.len() > 0,
        sc.len() > 0,
    ensures
        is_level(signed_in(claims, ns, db, sc, rid).au.level),
{
}

/// The claims of a token that is issued at `now` to the record `rid`.
/// There are none where the expiry lies beyond what a timestamp holds.
pub fn claims_for(
    session: Option<Duration>,
    ns: &str,
    db: &str,
    sc: &str,
    rid: &Thing,
    now: i64,
) -> (r: Option<Claims>)
    ensures
        match r {
            Some(c) => now + lifetime(session) <= i64::MAX && c@ == claims_at(
                session,
                ns@,
                db@,
                sc@,
                rid@,
                now,
            ),
            None => now + lifetime(session) > i64::MAX,
        },
{
    let secs: u128 = match session {
        Some(d) => d.as_secs(),
        None => 3600,
    };
    assert(secs <= 0xffff_ffff_ffff_ffff * 604_800_000_000_000) by {
        if let Some(d) = session {
            assert(d.value * crate::sql::timeout::unit_nanos(d.unit) <= 0xffff_ffff_ffff_ffff
                * 604_800_000_000_000) by (nonlinear_arith)
                requires
                    0 <= d.value <= 0xffff_ffff_ffff_ffff,
                    0 <= crate::sql::timeout::unit_nanos(d.unit) <= 604_800_000_000_000,
            ;
        }
    }
    let end: i128 = now as i128 + secs as i128;
    if end > i64::MAX as i128 {
        return None;
    }
    Some(
        Claims {
            iss: Some(SERVER_NAME.to_owned()),
            iat: Some(now),
            nbf: Some(now),
            exp: Some(end as i64),
            ns: Some(ns.to_owned()),
            db: Some(db.to_owned()),
            sc: Some(sc.to_owned()),
            id: Some(rid.to_raw()),
        },
    )
}

/// Signs a session in: it holds the claims from now on, has the scope's
/// namespace and database selected, and acts as the record, at the level of
/// the scope. The actor is put in the old one's place as a whole.
pub fn sign_in(session: &mut Session, claims: Claims, ns: String, db: String, sc: String, rid: Thing)
    ensures
        final(session)@ == signed_in(claims@, ns@, db@, sc@, rid@),
{
    let actor = Actor::new(rid.to_raw(), Level::Scope(ns.clone(), db.clone(), sc.clone()));
    session.tk = Some(claims);
    session.ns = Some(ns);
    session.db = Some(db);
    session.sc = Some(sc);
    session.sd = Some(Value::Thing(rid));
    session.au = actor;
}

/// Issues a token to a record at the moment `now`: builds the claims,
/// signs them with the scope's secret, and, where that gave a token, signs
/// the session in.
pub fn issue_at(
    session: &mut Session,
    lifespan: Option<Duration>,
    code: &str,
    ns: String,
    db: String,
    sc: String,
    rid: Thing,
    now: i64,
) -> (r: Result<Option<String>, Error>)
    ensures
        issued_at(lifespan, code@, ns@, db@, sc@, rid@, now, old(session)@, final(session)@, r),
{
    let claims = match claims_for(lifespan, ns.as_str(), db.as_str(), sc.as_str(), &rid, now) {
        Some(c) => c,
        None => {
            return Err(Error::InvalidAuth);
        },
    };
    match claims.encode(code) {
        Ok(tk) => {
            sign_in(session, claims, ns, db, sc, rid);
            Ok(Some(tk))
        },
        Err(_) => Err(Error::InvalidAuth),
    }
}

/// Issues a token to a record that signing up has made, at the present
/// moment.
fn issue(
    session: &mut Session,
    lifespan: Option<Duration>,
    code: &str,
    ns: String,
    db: String,
    sc: String,
    rid: Thing,
) -> (r: Result<Option<String>, Error>)
    ensures
        exists|now: i64| #[trigger]
            issued_at(lifespan, code@, ns@, db@, sc@, rid@, now, old(session)@, final(session)@, r),
{
    let now = unix_now();
    let r = issue_at(session, lifespan, code, ns, db, sc, rid, now);
    assert(issued_at(lifespan, code@, ns@, db@, sc@, rid@, now, old(session)@, session@, r));
    r
}

/// Signs up to the scope `scope` of the namespace `ns` and the database
/// `db`, with `vars` as the parameters of the scope's signup expression.
pub fn sc(
    kvs: &mut Datastore,
    session: &mut Session,
    ns: String,
    db: String,
    scope: String,
    vars: Object,
) -> (r: Result<Option<String>, Error>)
    requires
        old(kvs).wf(),
    ensures
        final(kvs).wf(),
        sc_post(
            old(kvs)@,
            final(kvs)@,
            old(session)@,
            final(session)@,
            ns@,
            db@,
            scope@,
            vars@,
            r,
        ),
{
    if ns.as_str().unicode_len() == 0 || db.as_str().unicode_len() == 0
        || scope.as_str().unicode_len() == 0 {
        return Err(Error::InvalidAuth);
    }
    let tx = kvs.transaction(false);
    let sv = match tx.get_sc(ns.as_str(), db.as_str(), scope.as_str()) {
        Ok(sv) => sv,
        Err(_) => {
            return Err(Error::InvalidAuth);
        },
    };
    let ghost def = sv@;
    proof {
        lemma_scope_found(kvs@.scopes, ns@, db@, scope@);
    }
    let lifespan = sv.session;
    let code = sv.code;
    let expr = match sv.signup {
        Some(e) => e,
        None => {
            return Err(Error::InvalidAuth);
        },
    };
    let sess = Session::editor().with_ns(ns.as_str()).with_db(db.as_str());
    let val = match kvs.compute(expr, &sess, Some(vars)) {
        Ok(v) => v,
        Err(_) => {
            return Err(Error::InvalidAuth);
        },
    };
    let rid = match val.record() {
        Some(r) => r,
        None => {
            return Err(Error::InvalidAuth);
        },
    };
    let ghost who = rid@;
    let r = issue(session, lifespan, code.as_str(), ns, db, scope, rid);
    proof {
        let now = choose|now: i64| #[trigger]
            issued_at(
                def.session,
                def.code,
                def.ns,
                def.db,
                def.name,
                who,
                now,
                old(session)@,
                session@,
                r,
            );
        assert(issued_at(
            def.session,
            def.code,
            def.ns,
            def.db,
            def.name,
            who,
            now,
            old(session)@,
            session@,
            r,
        ));
        assert(issued(def, who, old(session)@, session@, r));
    }
    r
}

/// The definition of a scope that is found is of that namespace, database
/// and name.
pub proof fn lemma_scope_found(
    scopes: Seq<ScopeDefinitionView>,
    ns: Seq<char>,
    db: Seq<char>,
    sc: Seq<char>,
)
    ensures
        scope_of(scopes, ns, db, sc) matches Some(d) ==> d.ns == ns && d.db == db && d.name == sc,
{
    lemma_scope_index(scopes, ns, db, sc, 0);
}

proof fn lemma_scope_index(
    scopes: Seq<ScopeDefinitionView>,
    ns: Seq<char>,
    db: Seq<char>,
    sc: Seq<char>,
    n: nat,
)
    ensures
        crate::kvs::tx::scope_index(scopes, ns, db, sc, n) matches Some(i) ==> 0 <= i
            < scopes.len() && scopes[i].ns == ns && scopes[i].db == db && scopes[i].name == sc,
    decreases scopes.len() - n,
{
    if n < scopes.len() {
        lemma_scope_index(scopes, ns, db, sc, n + 1);
    }
}

/// Signs up with the variables of a request. The namespace, database and
/// scope are read from the variables `NS`, `DB` and `SC`, or `ns`, `db` and
/// `sc` where those are not given; each is taken as text. Where one of
/// them is missing, signing up fails, and neither the store nor the session
/// is touched. Else the outcome is that of signing up to that scope; an
/// empty name is as good as none.
pub fn signup(kvs: &mut Datastore, session: &mut Session, vars: Object) -> (r: Result<
    Option<String>,
    Error,
>)
    requires
        old(kvs).wf(),
    ensures
        final(kvs).wf(),
        match (
            named_var(vars@, "NS"@, "ns"@),
            named_var(vars@, "DB"@, "db"@),
            named_var(vars@, "SC"@, "sc"@),
        ) {
            (Some(ns), Some(db), Some(sc)) => sc_post(
                old(kvs)@,
                final(kvs)@,
                old(session)@,
                final(session)@,
                raw_string(ns),
                raw_string(db),
                raw_string(sc),
                vars@,
                r,
            ),
            _ => denied(r) && final(kvs)@ == old(kvs)@ && final(session)@ == old(session)@,
        },
{
    let ns = match vars.get("NS") {
        Some(v) => Some(v),
        None => vars.get("ns"),
    };
    let db = match vars.get("DB") {
        Some(v) => Some(v),
        None => vars.get("db"),
    };
    let sc = match vars.get("SC") {
        Some(v) => Some(v),
        None => vars.get("sc"),
    };
    match (ns, db, sc) {
        (Some(ns), Some(db), Some(sc)) => {
            let ns = ns.to_raw_string();
            let db = db.to_raw_string();
            let scope = sc.to_raw_string();
            self::sc(kvs, session, ns, db, scope, vars)
        },
        _ => Err(Error::InvalidAuth),
    }
}

} // verus!
