use surreal_core::dbs::{Executor, Options};
use surreal_core::err::Error;
use surreal_core::iam::{Actor, Level};
use surreal_core::kvs::Datastore;

fn scope(ns: &str, db: &str, sc: &str) -> Level {
    Level::Scope(ns.to_string(), db.to_string(), sc.to_string())
}

fn database(ns: &str, db: &str) -> Level {
    Level::Database(ns.to_string(), db.to_string())
}

fn namespace(ns: &str) -> Level {
    Level::Namespace(ns.to_string())
}

fn all() -> Vec<Level> {
    vec![
        Level::No,
        scope("n", "d", "s"),
        scope("n", "d", "t"),
        scope("n", "e", "s"),
        database("n", "d"),
        database("n", "e"),
        database("m", "d"),
        namespace("n"),
        namespace("m"),
        Level::Root,
    ]
}

fn rank(l: &Level) -> u8 {
    match l {
        Level::No => 0,
        Level::Scope(..) => 1,
        Level::Database(..) => 2,
        Level::Namespace(..) => 3,
        Level::Root => 4,
    }
}

fn names(l: &Level) -> Vec<String> {
    match l {
        Level::No | Level::Root => vec![],
        Level::Namespace(n) => vec![n.clone()],
        Level::Database(n, d) => vec![n.clone(), d.clone()],
        Level::Scope(n, d, s) => vec![n.clone(), d.clone(), s.clone()],
    }
}

#[test]
fn a_level_reaches_what_it_holds() {
    assert!(Level::Root.reaches(&Level::Root));
    assert!(Level::Root.reaches(&scope("n", "d", "s")));
    assert!(namespace("n").reaches(&database("n", "d")));
    assert!(namespace("n").reaches(&scope("n", "d", "s")));
    assert!(database("n", "d").reaches(&scope("n", "d", "s")));
    assert!(scope("n", "d", "s").reaches(&scope("n", "d", "s")));
    assert!(scope("n", "d", "s").reaches(&Level::No));
    assert!(Level::No.reaches(&Level::No));
}

#[test]
fn a_level_does_not_reach_beyond_itself() {
    assert!(!Level::No.reaches(&scope("n", "d", "s")));
    assert!(!Level::No.reaches(&Level::Root));
    assert!(!scope("n", "d", "s").reaches(&scope("n", "d", "t")));
    assert!(!scope("n", "d", "s").reaches(&database("n", "d")));
    assert!(!database("n", "d").reaches(&scope("n", "e", "s")));
    assert!(!database("n", "d").reaches(&namespace("n")));
    assert!(!namespace("m").reaches(&database("n", "d")));
    assert!(!namespace("n").reaches(&Level::Root));
}

#[test]
fn reaching_is_being_equal_or_stronger_with_the_same_names() {
    for g in all() {
        for r in all() {
            let prefix = names(&g).len() <= names(&r).len()
                && names(&r)[..names(&g).len()] == names(&g)[..];
            let expected = g == r || (rank(&g) > rank(&r) && (r == Level::No || prefix));
            assert_eq!(g.reaches(&r), expected, "{:?} {:?}", g, r);
        }
    }
}

#[test]
fn reaching_is_an_order() {
    for a in all() {
        assert!(a.reaches(&a));
        for b in all() {
            if a.reaches(&b) && b.reaches(&a) {
                assert_eq!(a, b);
            }
            for c in all() {
                if a.reaches(&b) && b.reaches(&c) {
                    assert!(a.reaches(&c));
                }
            }
        }
    }
}

#[test]
fn the_executor_allows_exactly_what_reaches() {
    let exe = Executor::new(None, None, Datastore::new().transaction(false));
    for g in all() {
        for r in all() {
            let expected = g.reaches(&r);
            let got = exe.check(&Options::new(g.clone()), r.clone());
            if expected {
                assert_eq!(got, Ok(()));
            } else {
                assert_eq!(got, Err(Error::PermissionDenied));
            }
        }
    }
}

#[test]
fn levels_with_empty_names_are_not_valid() {
    assert!(Level::No.is_valid());
    assert!(Level::Root.is_valid());
    assert!(scope("n", "d", "s").is_valid());
    assert!(!scope("n", "", "s").is_valid());
    assert!(!scope("n", "d", "").is_valid());
    assert!(!database("", "d").is_valid());
    assert!(!namespace("").is_valid());
}

#[test]
fn nobody_is_the_default_actor() {
    assert_eq!(Actor::default(), Actor::new(String::new(), Level::No));
}
