use surreal_core::err::Error;
use surreal_core::sql::common::{class_of, letters_match, starts_word, Class};
use surreal_core::sql::cond::{Cond, Operator};
use surreal_core::sql::output::Output;
use surreal_core::sql::statements::delete::{delete, DeleteStatement};
use surreal_core::sql::timeout::{Duration, Timeout, Unit};
use surreal_core::sql::value::{Id, Model, Object, Thing, Value};
use surreal_core::sql::what::Values;

fn table(name: &str) -> Value {
    Value::Table(name.to_string())
}

fn parsed(text: &str) -> DeleteStatement {
    let (rest, stmt) = delete(text).unwrap();
    assert_eq!(rest, "");
    stmt
}

#[test]
fn delete_statement() {
    let sql = "DELETE test";
    let res = delete(sql);
    assert!(res.is_ok());
    let out = res.unwrap().1;
    assert_eq!("DELETE test", out.to_string())
}

#[test]
fn delete_reads_a_bare_table() {
    let stmt = parsed("DELETE test");
    assert_eq!(
        stmt,
        DeleteStatement { what: Values(vec![table("test")]), cond: None, output: None, timeout: None }
    );
}

#[test]
fn delete_takes_the_optional_from() {
    assert_eq!(parsed("DELETE FROM test"), parsed("DELETE test"));
    assert_eq!(parsed("delete from test"), parsed("DELETE test"));
    assert_eq!(parsed("DeLeTe \t\n FrOm \r test"), parsed("DELETE test"));
}

#[test]
fn delete_reads_every_kind_of_target() {
    let stmt = parsed("DELETE person, person:tobie , person:7,|person:1..10|,$who");
    assert_eq!(
        stmt.what,
        Values(vec![
            table("person"),
            Value::Thing(Thing { tb: "person".to_string(), id: Id::String("tobie".to_string()) }),
            Value::Thing(Thing { tb: "person".to_string(), id: Id::Number(7) }),
            Value::Model(Model { table: "person".to_string(), from: 1, to: 10 }),
            Value::Param("who".to_string()),
        ])
    );
    assert_eq!(
        stmt.to_string(),
        "DELETE person, person:tobie, person:7, |person:1..10|, $who"
    );
}

#[test]
fn delete_reads_all_clauses_in_order() {
    let stmt = parsed("DELETE test WHERE age >= 18 RETURN BEFORE TIMEOUT 15m");
    assert_eq!(
        stmt,
        DeleteStatement {
            what: Values(vec![table("test")]),
            cond: Some(Cond {
                l: "age".to_string(),
                o: Operator::MoreThanOrEqual,
                r: Value::Number(18)
            }),
            output: Some(Output::Before),
            timeout: Some(Timeout(Duration { value: 15, unit: Unit::Mins })),
        }
    );
    assert_eq!(stmt.to_string(), "DELETE test WHERE age >= 18 RETURN BEFORE TIMEOUT 15m");
}

#[test]
fn delete_reads_each_operator() {
    let cases = [
        ("=", Operator::Equal),
        ("!=", Operator::NotEqual),
        ("<", Operator::LessThan),
        ("<=", Operator::LessThanOrEqual),
        (">", Operator::MoreThan),
        (">=", Operator::MoreThanOrEqual),
    ];
    for (text, op) in cases {
        let stmt = parsed(&format!("DELETE t WHERE a{}$b", text));
        assert_eq!(
            stmt.cond,
            Some(Cond { l: "a".to_string(), o: op, r: Value::Param("b".to_string()) })
        );
        assert_eq!(stmt.to_string(), format!("DELETE t WHERE a {} $b", text));
    }
}

#[test]
fn delete_reads_each_output_mode() {
    assert_eq!(parsed("DELETE t RETURN NONE").output, Some(Output::Nothing));
    assert_eq!(parsed("DELETE t return diff").output, Some(Output::Diff));
    assert_eq!(parsed("DELETE t RETURN AFTER").output, Some(Output::After));
    assert_eq!(parsed("DELETE t RETURN BEFORE").output, Some(Output::Before));
    assert_eq!(parsed("DELETE t RETURN NONE").to_string(), "DELETE t RETURN NONE");
    assert_eq!(parsed("DELETE t return diff").to_string(), "DELETE t RETURN DIFF");
    assert_eq!(parsed("DELETE t RETURN AFTER").to_string(), "DELETE t RETURN AFTER");
}

#[test]
fn delete_reads_each_unit() {
    let cases = [
        ("ns", Unit::Nanos),
        ("us", Unit::Micros),
        ("ms", Unit::Millis),
        ("s", Unit::Secs),
        ("m", Unit::Mins),
        ("h", Unit::Hours),
        ("d", Unit::Days),
        ("w", Unit::Weeks),
    ];
    for (text, unit) in cases {
        let stmt = parsed(&format!("DELETE t TIMEOUT 003{}", text));
        assert_eq!(stmt.timeout, Some(Timeout(Duration { value: 3, unit })));
        assert_eq!(stmt.to_string(), format!("DELETE t TIMEOUT 3{}", text));
    }
}

#[test]
fn delete_leaves_what_it_cannot_read() {
    let (rest, stmt) = delete("DELETE test WHEREVER").unwrap();
    assert_eq!(rest, " WHEREVER");
    assert_eq!(stmt.what, Values(vec![table("test")]));
    assert_eq!(stmt.cond, None);
    let (rest, stmt) = delete("DELETE a, b ; DELETE c").unwrap();
    assert_eq!(rest, " ; DELETE c");
    assert_eq!(stmt.what, Values(vec![table("a"), table("b")]));
    let (rest, stmt) = delete("DELETE a RETURN BEFORE WHERE x = 1").unwrap();
    assert_eq!(rest, " WHERE x = 1");
    assert_eq!(stmt.output, Some(Output::Before));
    assert_eq!(stmt.cond, None);
}

#[test]
fn delete_refuses_what_is_no_statement() {
    for text in ["", "DELETE", "DELETE ", "DELETEtest", "DROP test", "DELETE FROM", "DELETE ,a", "DELETE 5"] {
        assert_eq!(delete(text), Err(Error::SyntaxError), "{}", text);
    }
}

#[test]
fn delete_refuses_a_number_that_does_not_fit() {
    let (rest, stmt) = delete("DELETE t:18446744073709551615").unwrap();
    assert_eq!(rest, "");
    assert_eq!(
        stmt.what,
        Values(vec![Value::Thing(Thing { tb: "t".to_string(), id: Id::Number(u64::MAX) })])
    );
    let (rest, stmt) = delete("DELETE t:18446744073709551616").unwrap();
    assert_eq!(rest, ":18446744073709551616");
    assert_eq!(stmt.what, Values(vec![table("t")]));
}

#[test]
fn written_statements_read_back() {
    let texts = [
        "DELETE test",
        "DELETE FROM a,b , c WHERE x != $y RETURN DIFF TIMEOUT 1ms",
        "delete |t:0..0|, t:x WHERE n<5",
        "DELETE $from TIMEOUT 2w",
        "DELETE where",
        "DELETE FROM fromage",
        "DELETE fromage WHERE a = 1",
        "DELETE from:x RETURN NONE",
        "DELETE FROM frOm_ TIMEOUT 1s",
        "DELETE a, from TIMEOUT 1s",
    ];
    for text in texts {
        let first = parsed(text);
        let written = first.to_string();
        let second = parsed(&written);
        assert_eq!(first, second, "{}", text);
        assert_eq!(second.to_string(), written);
    }
}

#[test]
fn from_is_the_keyword_only_as_a_word_before_targets() {
    let fromage = DeleteStatement {
        what: Values(vec![table("fromage")]),
        cond: None,
        output: None,
        timeout: None,
    };
    assert_eq!(parsed("DELETE fromage"), fromage);
    assert_eq!(parsed("DELETE FROM fromage"), fromage);
    assert_eq!(fromage.to_string(), "DELETE fromage");
    assert_eq!(parsed("DELETE from:1").to_string(), "DELETE from:1");
    assert_eq!(parsed("DELETE from_x, from").to_string(), "DELETE from_x, from");
    assert_eq!(parsed("DELETE from x"), parsed("DELETE x"));
    assert_eq!(parsed("DELETE from TIMEOUT TIMEOUT 1s"), parsed("DELETE TIMEOUT TIMEOUT 1s"));
    let (rest, stmt) = delete("DELETE from TIMEOUT 1s").unwrap();
    assert_eq!(rest, " 1s");
    assert_eq!(stmt.what, Values(vec![table("TIMEOUT")]));
    assert_eq!(parsed(&stmt.to_string()), stmt);
}

#[test]
fn the_bare_word_from_is_no_first_target() {
    for text in [
        "DELETE from",
        "DELETE FROM",
        "DELETE FROM from",
        "DELETE From, a",
        "DELETE FROM from TIMEOUT 1s",
        "DELETE FROM from WHERE a = 1",
    ] {
        assert_eq!(delete(text), Err(Error::SyntaxError), "{}", text);
    }
}

#[test]
fn a_statement_by_default_has_no_target() {
    assert_eq!(
        DeleteStatement::default(),
        DeleteStatement { what: Values(vec![]), cond: None, output: None, timeout: None }
    );
}

#[test]
fn values_are_written_as_text() {
    assert_eq!(Value::Null.to_string(), "NULL");
    assert_eq!(Value::Bool(true).to_string(), "true");
    assert_eq!(Value::Bool(false).to_string(), "false");
    assert_eq!(Value::Number(0).to_string(), "0");
    assert_eq!(Value::Number(1234567890).to_string(), "1234567890");
    assert_eq!(Value::Number(u64::MAX).to_string(), "18446744073709551615");
    assert_eq!(Value::Strand("a b".to_string()).to_string(), "'a b'");
    assert_eq!(Value::Strand("a b".to_string()).to_raw_string(), "a b");
    assert_eq!(Value::Number(12).to_raw_string(), "12");
    assert_eq!(
        Value::Array(vec![Value::Number(1), Value::Array(vec![]), table("t")]).to_string(),
        "[1, [], t]"
    );
    assert_eq!(
        Value::Object(Object(vec![
            ("a".to_string(), Value::Number(1)),
            ("b".to_string(), Value::Object(Object(vec![]))),
        ]))
        .to_string(),
        "{a: 1, b: {}}"
    );
    assert_eq!(Thing { tb: "user".to_string(), id: Id::Number(9) }.to_raw(), "user:9");
}

#[test]
fn durations_are_counted_in_nanoseconds() {
    assert_eq!(Duration { value: 1, unit: Unit::Millis }.as_nanos(), 1_000_000);
    assert_eq!(Duration { value: 15, unit: Unit::Mins }.as_nanos(), 900_000_000_000);
    assert_eq!(Duration { value: 15, unit: Unit::Mins }.as_secs(), 900);
    assert_eq!(Duration { value: 1999, unit: Unit::Millis }.as_secs(), 1);
    assert_eq!(Duration { value: 2, unit: Unit::Weeks }.as_secs(), 1_209_600);
    assert_eq!(
        Duration { value: u64::MAX, unit: Unit::Weeks }.as_nanos(),
        18446744073709551615u128 * 604_800_000_000_000u128
    );
    assert!(Timeout(Duration { value: 0, unit: Unit::Secs }).expired(0));
    assert!(!Timeout(Duration { value: 1, unit: Unit::Micros }).expired(999));
    assert!(Timeout(Duration { value: 1, unit: Unit::Micros }).expired(1000));
}

#[test]
fn character_classes() {
    assert!(class_of(Class::Space, '\t'));
    assert!(!class_of(Class::Space, 'x'));
    assert!(class_of(Class::Digit, '7'));
    assert!(!class_of(Class::Digit, 'a'));
    assert!(class_of(Class::Word, '_'));
    assert!(class_of(Class::Word, 'Z'));
    assert!(!class_of(Class::Word, '-'));
    assert!(starts_word('a'));
    assert!(!starts_word('1'));
    assert!(letters_match('a', 'A'));
    assert!(letters_match('Q', 'q'));
    assert!(!letters_match('a', 'b'));
    assert!(!letters_match('@', '`'));
    assert!(!letters_match('[', '{'));
}
