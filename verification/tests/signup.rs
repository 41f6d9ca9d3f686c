use jsonwebtoken::{decode, Algorithm, DecodingKey, Validation};
use surreal_core::cnf::SERVER_NAME;
use surreal_core::dbs::Session;
use surreal_core::err::Error;
use surreal_core::iam::signup::{claims_for, issue_at, sc, sign_in, signup};
use surreal_core::iam::{Actor, Claims, Level};
use surreal_core::kvs::{Datastore, Record, ScopeDefinition};
use surreal_core::sql::expression::Expression;
use surreal_core::sql::statements::create::CreateStatement;
use surreal_core::sql::statements::delete::delete;
use surreal_core::sql::timeout::{Duration, Unit};
use surreal_core::sql::value::{Id, Object, Thing, Value};

fn tobie() -> Thing {
    Thing { tb: "user".to_string(), id: Id::String("tobie".to_string()) }
}

fn creating() -> Expression {
    Expression::Create(CreateStatement {
        what: Value::Param("id".to_string()),
        data: Object(vec![("email".to_string(), Value::Param("email".to_string()))]),
    })
}

fn scope(signup: Option<Expression>, session: Option<Duration>) -> ScopeDefinition {
    ScopeDefinition {
        ns: "test".to_string(),
        db: "test".to_string(),
        name: "user".to_string(),
        code: "a secret".to_string(),
        signup,
        signin: None,
        session,
    }
}

fn store(signup: Option<Expression>, session: Option<Duration>) -> Datastore {
    let mut ds = Datastore::new();
    ds.define_scope(scope(signup, session));
    ds
}

fn request(ns: &str, db: &str, sc: &str) -> Object {
    Object(vec![
        (ns.to_string(), Value::Strand("test".to_string())),
        (db.to_string(), Value::Strand("test".to_string())),
        (sc.to_string(), Value::Strand("user".to_string())),
        ("id".to_string(), Value::Thing(tobie())),
        ("email".to_string(), Value::Strand("tobie@example.com".to_string())),
    ])
}

fn claims_of(token: &str, secret: &str) -> serde_json::Value {
    decode::<serde_json::Value>(
        token,
        &DecodingKey::from_secret(secret.as_bytes()),
        &Validation::new(Algorithm::HS512),
    )
    .unwrap()
    .claims
}

#[test]
fn signup_issues_a_token_and_signs_the_session_in() {
    let mut ds = store(Some(creating()), Some(Duration { value: 15, unit: Unit::Mins }));
    let mut session = Session::default();
    let token = signup(&mut ds, &mut session, request("NS", "DB", "SC")).unwrap().unwrap();
    let claims = claims_of(&token, "a secret");
    let iat = claims["iat"].as_i64().unwrap();
    assert_eq!(claims["exp"].as_i64().unwrap(), iat + 900);
    assert_eq!(claims["nbf"].as_i64().unwrap(), iat);
    assert_eq!(claims["iss"].as_str().unwrap(), "SurrealDB");
    assert_eq!(claims["ns"].as_str().unwrap(), "test");
    assert_eq!(claims["db"].as_str().unwrap(), "test");
    assert_eq!(claims["sc"].as_str().unwrap(), "user");
    assert_eq!(claims["id"].as_str().unwrap(), "user:tobie");
    assert_eq!(claims.as_object().unwrap().len(), 8);
    assert_eq!(
        session.au,
        Actor::new(
            "user:tobie".to_string(),
            Level::Scope("test".to_string(), "test".to_string(), "user".to_string())
        )
    );
    assert_eq!(session.ns, Some("test".to_string()));
    assert_eq!(session.db, Some("test".to_string()));
    assert_eq!(session.sc, Some("user".to_string()));
    assert_eq!(session.sd, Some(Value::Thing(tobie())));
    assert_eq!(
        session.tk,
        Some(Claims {
            iss: Some(SERVER_NAME.to_string()),
            iat: Some(iat),
            nbf: Some(iat),
            exp: Some(iat + 900),
            ns: Some("test".to_string()),
            db: Some("test".to_string()),
            sc: Some("user".to_string()),
            id: Some("user:tobie".to_string()),
        })
    );
    assert_eq!(
        ds.records(),
        &vec![Record {
            ns: Some("test".to_string()),
            db: Some("test".to_string()),
            tb: "user".to_string(),
            id: Id::String("tobie".to_string()),
            doc: Object(vec![
                ("id".to_string(), Value::Thing(tobie())),
                ("email".to_string(), Value::Strand("tobie@example.com".to_string())),
            ]),
        }]
    );
}

#[test]
fn signup_reads_lower_case_names_too() {
    let mut ds = store(Some(creating()), None);
    let mut session = Session::default();
    let token = signup(&mut ds, &mut session, request("ns", "db", "sc")).unwrap().unwrap();
    let claims = claims_of(&token, "a secret");
    assert_eq!(claims["exp"].as_i64().unwrap(), claims["iat"].as_i64().unwrap() + 3600);
    let mut vars = request("NS", "DB", "SC");
    vars.0.push(("sc".to_string(), Value::Strand("other".to_string())));
    assert!(signup(&mut ds, &mut Session::default(), vars).is_ok());
    let mut vars = request("ns", "db", "sc");
    vars.0.push(("SC".to_string(), Value::Strand("other".to_string())));
    assert_eq!(signup(&mut ds, &mut Session::default(), vars), Err(Error::InvalidAuth));
}

#[test]
fn signup_without_a_scope_name_fails_and_touches_nothing() {
    for missing in ["NS", "DB", "SC"] {
        let mut ds = store(Some(creating()), None);
        let mut session = Session::default();
        let mut vars = request("NS", "DB", "SC");
        vars.0.retain(|f| f.0 != missing);
        assert_eq!(signup(&mut ds, &mut session, vars), Err(Error::InvalidAuth));
        assert_eq!(ds.records().len(), 0);
        assert_eq!(session, Session::default());
    }
}

#[test]
fn signup_to_an_unknown_scope_fails() {
    let mut ds = store(Some(creating()), None);
    let mut session = Session::default();
    let mut vars = request("NS", "DB", "SC");
    vars.0[2].1 = Value::Strand("admin".to_string());
    assert_eq!(signup(&mut ds, &mut session, vars), Err(Error::InvalidAuth));
    assert_eq!(ds.records().len(), 0);
    assert_eq!(session, Session::default());
    assert_eq!(
        ds.transaction(false).get_sc("test", "test", "admin"),
        Err(Error::ScopeNotFound)
    );
    assert_eq!(
        ds.transaction(false).get_sc("test", "test", "user"),
        Ok(scope(Some(creating()), None))
    );
}

#[test]
fn signup_to_a_scope_without_signup_fails() {
    let mut ds = store(None, None);
    let mut session = Session::default();
    assert_eq!(signup(&mut ds, &mut session, request("NS", "DB", "SC")), Err(Error::InvalidAuth));
    assert_eq!(session, Session::default());
}

#[test]
fn signup_fails_where_the_expression_fails() {
    let mut ds = store(Some(creating()), None);
    let mut session = Session::default();
    let mut vars = request("NS", "DB", "SC");
    vars.0[3].1 = Value::Number(1);
    assert_eq!(signup(&mut ds, &mut session, vars), Err(Error::InvalidAuth));
    assert_eq!(ds.records().len(), 0);
    assert_eq!(session, Session::default());
    let (_, stmt) = delete("DELETE user TIMEOUT 0s").unwrap();
    let mut ds = store(Some(Expression::Delete(stmt)), None);
    assert_eq!(signup(&mut ds, &mut session, request("NS", "DB", "SC")), Err(Error::InvalidAuth));
    assert_eq!(session, Session::default());
}

#[test]
fn signup_fails_where_no_record_comes_back() {
    let mut ds = store(Some(Expression::Value(Value::Number(1))), None);
    let mut session = Session::default();
    assert_eq!(signup(&mut ds, &mut session, request("NS", "DB", "SC")), Err(Error::InvalidAuth));
    assert_eq!(session, Session::default());
    let (_, stmt) = delete("DELETE user").unwrap();
    let mut ds = store(Some(Expression::Delete(stmt)), None);
    assert_eq!(signup(&mut ds, &mut session, request("NS", "DB", "SC")), Err(Error::InvalidAuth));
    assert_eq!(session, Session::default());
}

#[test]
fn signup_fails_where_the_token_would_never_expire_in_time() {
    let mut ds = store(Some(creating()), Some(Duration { value: u64::MAX, unit: Unit::Weeks }));
    let mut session = Session::default();
    assert_eq!(signup(&mut ds, &mut session, request("NS", "DB", "SC")), Err(Error::InvalidAuth));
    assert_eq!(session, Session::default());
    assert_eq!(ds.records().len(), 1);
}

#[test]
fn the_latest_definition_of_a_scope_is_in_force() {
    let mut ds = store(None, None);
    ds.define_scope(scope(Some(creating()), Some(Duration { value: 2, unit: Unit::Secs })));
    let mut session = Session::default();
    let token = sc(
        &mut ds,
        &mut session,
        "test".to_string(),
        "test".to_string(),
        "user".to_string(),
        request("NS", "DB", "SC"),
    )
    .unwrap()
    .unwrap();
    let claims = claims_of(&token, "a secret");
    assert_eq!(claims["exp"].as_i64().unwrap(), claims["iat"].as_i64().unwrap() + 2);
}

#[test]
fn claims_expire_a_lifetime_after_they_are_issued() {
    let c = claims_for(Some(Duration { value: 15, unit: Unit::Mins }), "n", "d", "s", &tobie(), 1000)
        .unwrap();
    assert_eq!(c.iat, Some(1000));
    assert_eq!(c.nbf, Some(1000));
    assert_eq!(c.exp, Some(1900));
    assert_eq!(c.iss, Some("SurrealDB".to_string()));
    assert_eq!(c.id, Some("user:tobie".to_string()));
    assert_eq!(claims_for(None, "n", "d", "s", &tobie(), -5).unwrap().exp, Some(3595));
    assert_eq!(
        claims_for(Some(Duration { value: 1, unit: Unit::Secs }), "n", "d", "s", &tobie(), i64::MAX),
        None
    );
    assert_eq!(
        claims_for(Some(Duration { value: 999, unit: Unit::Millis }), "n", "d", "s", &tobie(), i64::MAX)
            .unwrap()
            .exp,
        Some(i64::MAX)
    );
    assert_eq!(
        claims_for(Some(Duration { value: 1 << 63, unit: Unit::Secs }), "n", "d", "s", &tobie(), -1)
            .unwrap()
            .exp,
        Some(i64::MAX)
    );
}

#[test]
fn tokens_hold_the_claims_that_are_there() {
    let c = Claims { sc: Some("user".to_string()), exp: Some(i64::MAX), ..Claims::default() };
    let token = c.encode("key").unwrap();
    assert_eq!(token.split('.').count(), 3);
    assert_ne!(token, "key");
    let claims = claims_of(&token, "key");
    assert_eq!(claims.as_object().unwrap().len(), 2);
    assert_eq!(claims["sc"].as_str().unwrap(), "user");
    assert_eq!(claims["exp"].as_i64().unwrap(), i64::MAX);
    assert_eq!(c.encode("key").unwrap(), token);
    assert_ne!(c.encode("other key").unwrap(), token);
    assert!(decode::<serde_json::Value>(
        &token,
        &DecodingKey::from_secret(b"other key"),
        &Validation::new(Algorithm::HS512)
    )
    .is_err());
}

#[test]
fn signing_in_replaces_the_actor() {
    let mut session = Session::editor().with_ns("a").with_db("b");
    assert_eq!(session.au, Actor::new("editor".to_string(), Level::Root));
    sign_in(
        &mut session,
        Claims::default(),
        "n".to_string(),
        "d".to_string(),
        "s".to_string(),
        tobie(),
    );
    assert_eq!(
        session.au,
        Actor::new(
            "user:tobie".to_string(),
            Level::Scope("n".to_string(), "d".to_string(), "s".to_string())
        )
    );
    assert_eq!(session.ns, Some("n".to_string()));
    assert_eq!(session.tk, Some(Claims::default()));
}

#[test]
fn signup_with_an_empty_name_fails() {
    let mut ds = Datastore::new();
    ds.define_scope(ScopeDefinition { name: String::new(), ..scope(Some(creating()), None) });
    let mut session = Session::default();
    let mut vars = request("NS", "DB", "SC");
    vars.0[2].1 = Value::Strand(String::new());
    assert_eq!(signup(&mut ds, &mut session, vars), Err(Error::InvalidAuth));
    assert_eq!(ds.records().len(), 0);
    assert_eq!(session, Session::default());
}

#[test]
fn a_token_is_issued_at_a_moment() {
    let mut session = Session::default();
    let token = issue_at(
        &mut session,
        Some(Duration { value: 15, unit: Unit::Mins }),
        "a secret",
        "n".to_string(),
        "d".to_string(),
        "s".to_string(),
        tobie(),
        4_000_000_000,
    )
    .unwrap()
    .unwrap();
    let claims = claims_of(&token, "a secret");
    assert_eq!(claims["iat"].as_i64().unwrap(), 4_000_000_000);
    assert_eq!(claims["exp"].as_i64().unwrap(), 4_000_000_900);
    assert_eq!(session.tk.unwrap().exp, Some(4_000_000_900));
    assert_eq!(
        session.au.level,
        Level::Scope("n".to_string(), "d".to_string(), "s".to_string())
    );
    let mut session = Session::editor();
    assert_eq!(
        issue_at(
            &mut session,
            Some(Duration { value: 1, unit: Unit::Secs }),
            "a secret",
            "n".to_string(),
            "d".to_string(),
            "s".to_string(),
            tobie(),
            i64::MAX,
        ),
        Err(Error::InvalidAuth)
    );
    assert_eq!(session, Session::editor());
}
