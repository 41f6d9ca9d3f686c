use surreal_core::dbs::iterator::{refusal, stands};
use surreal_core::dbs::{Executor, Iterator, Options, Runtime, Session};
use surreal_core::err::Error;
use surreal_core::iam::Level;
use surreal_core::kvs::{Datastore, Record};
use surreal_core::sql::cond::{Cond, Operator};
use surreal_core::sql::expression::Expression;
use surreal_core::sql::statements::create::CreateStatement;
use surreal_core::sql::statements::delete::{delete, DeleteStatement};
use surreal_core::sql::value::{Id, Model, Object, Thing, Value};
use surreal_core::sql::what::Values;

fn thing(tb: &str, id: u64) -> Thing {
    Thing { tb: tb.to_string(), id: Id::Number(id) }
}

fn session() -> Session {
    Session::default().with_ns("test").with_db("test")
}

fn create(ds: &mut Datastore, sess: &Session, tb: &str, id: u64, age: u64) -> Value {
    let stmt = CreateStatement {
        what: Value::Thing(thing(tb, id)),
        data: Object(vec![("age".to_string(), Value::Param("age".to_string()))]),
    };
    let vars = Object(vec![("age".to_string(), Value::Number(age))]);
    ds.compute(Expression::Create(stmt), sess, Some(vars)).unwrap()
}

fn doc(tb: &str, id: u64, age: u64) -> Object {
    Object(vec![
        ("id".to_string(), Value::Thing(thing(tb, id))),
        ("age".to_string(), Value::Number(age)),
    ])
}

fn record(tb: &str, id: u64, age: u64) -> Record {
    Record {
        ns: Some("test".to_string()),
        db: Some("test".to_string()),
        tb: tb.to_string(),
        id: Id::Number(id),
        doc: doc(tb, id, age),
    }
}

fn filled() -> Datastore {
    let mut ds = Datastore::new();
    let sess = session();
    create(&mut ds, &sess, "person", 1, 10);
    create(&mut ds, &sess, "person", 2, 20);
    create(&mut ds, &sess, "animal", 1, 3);
    create(&mut ds, &sess, "person", 3, 30);
    ds
}

fn run(ds: &mut Datastore, text: &str, vars: Vec<(String, Value)>) -> Result<Value, Error> {
    let (rest, stmt) = delete(text).unwrap();
    assert_eq!(rest, "");
    ds.compute(Expression::Delete(stmt), &session(), Some(Object(vars)))
}

#[test]
fn create_puts_a_record_and_hands_back_its_document() {
    let mut ds = Datastore::new();
    let out = create(&mut ds, &session(), "person", 1, 10);
    assert_eq!(out, Value::Object(doc("person", 1, 10)));
    assert_eq!(ds.records(), &vec![record("person", 1, 10)]);
    assert_eq!(out.record(), Some(thing("person", 1)));
}

#[test]
fn create_replaces_the_record_of_the_same_key() {
    let mut ds = filled();
    create(&mut ds, &session(), "person", 2, 99);
    assert_eq!(
        ds.records(),
        &vec![
            record("person", 1, 10),
            record("person", 2, 99),
            record("animal", 1, 3),
            record("person", 3, 30)
        ]
    );
}

#[test]
fn create_refuses_a_target_that_is_no_record() {
    let mut ds = filled();
    let stmt = CreateStatement { what: Value::Table("person".to_string()), data: Object(vec![]) };
    let r = ds.compute(Expression::Create(stmt), &session(), None);
    assert_eq!(r, Err(Error::StatementTargetError { value: Value::Table("person".to_string()) }));
    assert_eq!(ds.records().len(), 4);
}

#[test]
fn a_value_evaluates_to_what_it_is_bound_to() {
    let mut ds = Datastore::new();
    let vars = Object(vec![
        ("a".to_string(), Value::Number(1)),
        ("a".to_string(), Value::Number(2)),
    ]);
    assert_eq!(
        ds.compute(Expression::Value(Value::Param("a".to_string())), &session(), Some(vars)),
        Ok(Value::Number(1))
    );
    assert_eq!(
        ds.compute(Expression::Value(Value::Param("b".to_string())), &session(), None),
        Ok(Value::Null)
    );
    assert_eq!(
        ds.compute(Expression::Value(Value::Number(7)), &session(), None),
        Ok(Value::Number(7))
    );
    let v = Value::Param("this".to_string());
    assert_eq!(v.compute(&Object(vec![]), Some(&Value::Bool(true))), Value::Bool(true));
    assert_eq!(v.compute(&Object(vec![]), None), Value::Null);
}

#[test]
fn delete_of_a_table_removes_its_records() {
    let mut ds = filled();
    assert_eq!(run(&mut ds, "DELETE person", vec![]), Ok(Value::Array(vec![])));
    assert_eq!(ds.records(), &vec![record("animal", 1, 3)]);
}

#[test]
fn delete_of_a_record_removes_it_alone() {
    let mut ds = filled();
    assert_eq!(run(&mut ds, "DELETE person:2, person:9", vec![]), Ok(Value::Array(vec![])));
    assert_eq!(
        ds.records(),
        &vec![record("person", 1, 10), record("animal", 1, 3), record("person", 3, 30)]
    );
}

#[test]
fn delete_of_a_range_removes_the_records_it_numbers() {
    let mut ds = filled();
    assert_eq!(
        run(&mut ds, "DELETE |person:2..7| RETURN BEFORE", vec![]),
        Ok(Value::Array(vec![
            Value::Object(doc("person", 2, 20)),
            Value::Object(doc("person", 3, 30))
        ]))
    );
    assert_eq!(ds.records(), &vec![record("person", 1, 10), record("animal", 1, 3)]);
    assert_eq!(run(&mut ds, "DELETE |person:2..1|", vec![]), Ok(Value::Array(vec![])));
    assert_eq!(ds.records().len(), 2);
}

#[test]
fn delete_of_a_list_removes_what_its_items_stand_for() {
    let mut ds = filled();
    let list = Value::Array(vec![
        Value::Thing(thing("person", 3)),
        Value::Table("animal".to_string()),
        Value::Model(Model { table: "person".to_string(), from: 1, to: 1 }),
        Value::Object(doc("person", 2, 0)),
        Value::Object(Object(vec![])),
    ]);
    assert_eq!(
        run(&mut ds, "DELETE $list RETURN BEFORE", vec![("list".to_string(), list)]),
        Ok(Value::Array(vec![
            Value::Object(doc("person", 3, 30)),
            Value::Object(doc("animal", 1, 3)),
            Value::Object(doc("person", 1, 10)),
            Value::Object(doc("person", 2, 20)),
        ]))
    );
    assert_eq!(ds.records(), &Vec::<Record>::new());
}

#[test]
fn delete_of_a_document_removes_the_record_it_names() {
    let mut ds = filled();
    let vars = vec![("doc".to_string(), Value::Object(doc("animal", 1, 0)))];
    assert_eq!(run(&mut ds, "DELETE $doc RETURN AFTER", vars), Ok(Value::Array(vec![Value::Null])));
    assert_eq!(ds.records().len(), 3);
}

#[test]
fn delete_refuses_a_target_of_another_kind() {
    for bad in [
        Value::Number(5),
        Value::Null,
        Value::Bool(true),
        Value::Strand("person".to_string()),
        Value::Param("x".to_string()),
    ] {
        let mut ds = filled();
        let vars = vec![("bad".to_string(), bad.clone())];
        assert_eq!(
            run(&mut ds, "DELETE person:1, $bad, animal", vars),
            Err(Error::StatementTargetError { value: bad })
        );
        assert_eq!(ds.records().len(), 4);
    }
    let mut ds = filled();
    assert_eq!(
        run(&mut ds, "DELETE person, $nothing", vec![]),
        Err(Error::StatementTargetError { value: Value::Null })
    );
    assert_eq!(ds.records().len(), 4);
}

#[test]
fn delete_refuses_a_list_with_an_item_of_another_kind() {
    let mut ds = filled();
    let list = Value::Array(vec![
        Value::Table("person".to_string()),
        Value::Array(vec![Value::Table("animal".to_string())]),
        Value::Number(1),
    ]);
    assert_eq!(
        run(&mut ds, "DELETE $list", vec![("list".to_string(), list)]),
        Err(Error::StatementTargetError {
            value: Value::Array(vec![Value::Table("animal".to_string())])
        })
    );
    assert_eq!(ds.records().len(), 4);
}

#[test]
fn delete_removes_only_what_passes_the_condition() {
    let mut ds = filled();
    assert_eq!(
        run(&mut ds, "DELETE person WHERE age > 15 RETURN DIFF", vec![]),
        Ok(Value::Array(vec![
            Value::Object(Object(vec![
                ("op".to_string(), Value::Strand("remove".to_string())),
                ("path".to_string(), Value::Strand("/".to_string())),
            ])),
            Value::Object(Object(vec![
                ("op".to_string(), Value::Strand("remove".to_string())),
                ("path".to_string(), Value::Strand("/".to_string())),
            ])),
        ]))
    );
    assert_eq!(ds.records(), &vec![record("person", 1, 10), record("animal", 1, 3)]);
    let vars = vec![("x".to_string(), Value::Number(3))];
    assert_eq!(
        run(&mut ds, "DELETE person, animal WHERE age = $x RETURN NONE", vars),
        Ok(Value::Array(vec![]))
    );
    assert_eq!(ds.records(), &vec![record("person", 1, 10)]);
    assert_eq!(run(&mut ds, "DELETE person WHERE name = 1", vec![]), Ok(Value::Array(vec![])));
    assert_eq!(run(&mut ds, "DELETE person WHERE age < $none", vec![]), Ok(Value::Array(vec![])));
    assert_eq!(ds.records().len(), 1);
    assert_eq!(run(&mut ds, "DELETE person WHERE name = $none", vec![]), Ok(Value::Array(vec![])));
    assert_eq!(ds.records().len(), 0);
}

#[test]
fn conditions_compare_values() {
    let d = doc("person", 1, 10);
    let none = Object(vec![]);
    let cases = [
        (Operator::Equal, 10, true),
        (Operator::Equal, 11, false),
        (Operator::NotEqual, 11, true),
        (Operator::LessThan, 11, true),
        (Operator::LessThan, 10, false),
        (Operator::LessThanOrEqual, 10, true),
        (Operator::MoreThan, 9, true),
        (Operator::MoreThan, 10, false),
        (Operator::MoreThanOrEqual, 10, true),
        (Operator::MoreThanOrEqual, 11, false),
    ];
    for (o, n, expected) in cases {
        let c = Cond { l: "age".to_string(), o, r: Value::Number(n) };
        assert_eq!(c.test(&d, &none), expected, "{:?} {}", o, n);
    }
    assert!(Operator::Equal.compare(
        &Value::Array(vec![Value::Object(doc("a", 1, 2))]),
        &Value::Array(vec![Value::Object(doc("a", 1, 2))])
    ));
    assert!(!Operator::Equal.compare(
        &Value::Array(vec![Value::Object(doc("a", 1, 2))]),
        &Value::Array(vec![Value::Object(doc("a", 1, 3))])
    ));
    assert!(!Operator::LessThan.compare(&Value::Null, &Value::Number(1)));
}

#[test]
fn delete_sees_only_the_selected_part_of_the_store() {
    let mut ds = filled();
    let other = Session::default().with_ns("test").with_db("other");
    create(&mut ds, &other, "person", 1, 77);
    let (_, stmt) = delete("DELETE person RETURN BEFORE").unwrap();
    assert_eq!(
        ds.compute(Expression::Delete(stmt), &other, None),
        Ok(Value::Array(vec![Value::Object(doc("person", 1, 77))]))
    );
    assert_eq!(ds.records().len(), 4);
    let (_, stmt) = delete("DELETE person, animal").unwrap();
    assert_eq!(ds.compute(Expression::Delete(stmt), &Session::default(), None), Ok(Value::Array(vec![])));
    assert_eq!(ds.records().len(), 4);
}

#[test]
fn a_statement_out_of_time_leaves_the_store_as_it_was() {
    let mut ds = filled();
    assert_eq!(run(&mut ds, "DELETE person TIMEOUT 0s", vec![]), Err(Error::Timeout));
    assert_eq!(ds.records().len(), 4);
    assert_eq!(run(&mut ds, "DELETE |person:1..3| TIMEOUT 0ns", vec![]), Err(Error::Timeout));
    assert_eq!(
        ds.records(),
        &vec![
            record("person", 1, 10),
            record("person", 2, 20),
            record("animal", 1, 3),
            record("person", 3, 30)
        ]
    );
    assert_eq!(run(&mut ds, "DELETE person TIMEOUT 1w", vec![]), Ok(Value::Array(vec![])));
    assert_eq!(ds.records().len(), 1);
}

#[test]
fn the_iterator_queues_and_works_off() {
    let ds = filled();
    let ctx = Runtime::new(Object(vec![]));
    let mut exe = Executor::new(
        Some("test".to_string()),
        Some("test".to_string()),
        ds.transaction(true),
    );
    let mut i = Iterator::new();
    i.process_table(&ctx, &exe, "person".to_string());
    i.process_thing(&ctx, &exe, thing("animal", 1));
    assert_eq!(i.process_model(&ctx, &exe, Model { table: "x".to_string(), from: 4, to: 5 }), Ok(()));
    i.process_object(&ctx, &exe, doc("person", 1, 0));
    assert_eq!(
        i.queue,
        vec![
            Value::Thing(thing("person", 1)),
            Value::Thing(thing("person", 2)),
            Value::Thing(thing("person", 3)),
            Value::Thing(thing("animal", 1)),
            Value::Thing(thing("x", 4)),
            Value::Thing(thing("x", 5)),
            Value::Object(doc("person", 1, 0)),
        ]
    );
    assert_eq!(
        i.process_array(&ctx, &exe, vec![Value::Number(3)]),
        Err(Error::StatementTargetError { value: Value::Number(3) })
    );
    assert!(!i.timedout());
    assert_eq!(i.output(&ctx, &mut exe), Ok(Value::Array(vec![])));
    assert_eq!(exe.txn.len(), 0);
    assert_eq!(ds.records().len(), 4);
}

#[test]
fn a_delete_statement_runs_in_a_transaction() {
    let ds = filled();
    let ctx = Runtime::new(Object(vec![]));
    let opt = Options::new(Level::No);
    let mut exe = Executor::new(
        Some("test".to_string()),
        Some("test".to_string()),
        ds.transaction(true),
    );
    let stmt = DeleteStatement {
        what: Values(vec![Value::Param("this".to_string())]),
        cond: None,
        output: None,
        timeout: None,
    };
    let this = Value::Thing(thing("person", 1));
    assert_eq!(stmt.compute(&ctx, &opt, &mut exe, Some(&this)), Ok(Value::Array(vec![])));
    assert_eq!(exe.txn.len(), 3);
    assert!(exe.txn.writeable());
    assert_eq!(exe.txn.at(0), &record("person", 2, 20));
    assert_eq!(exe.txn.find(&exe.ns, &exe.db, &thing("person", 1)), None);
    assert_eq!(exe.txn.find(&exe.ns, &exe.db, &thing("person", 3)), Some(2));
}

#[test]
fn values_name_records() {
    assert_eq!(Value::Thing(thing("a", 1)).record(), Some(thing("a", 1)));
    assert_eq!(Value::Object(doc("a", 1, 0)).record(), Some(thing("a", 1)));
    assert_eq!(Value::Array(vec![Value::Object(doc("a", 1, 0))]).record(), Some(thing("a", 1)));
    assert_eq!(Value::Array(vec![]).record(), None);
    assert_eq!(
        Value::Array(vec![Value::Thing(thing("a", 1)), Value::Thing(thing("a", 2))]).record(),
        None
    );
    assert_eq!(Value::Table("a".to_string()).record(), None);
    assert_eq!(
        Value::Object(Object(vec![("id".to_string(), Value::Number(1))])).record(),
        None
    );
}

#[test]
fn the_first_field_of_a_name_is_read() {
    let o = Object(vec![
        ("a".to_string(), Value::Number(1)),
        ("b".to_string(), Value::Number(2)),
        ("a".to_string(), Value::Number(3)),
    ]);
    assert_eq!(o.get("a"), Some(&Value::Number(1)));
    assert_eq!(o.get("b"), Some(&Value::Number(2)));
    assert_eq!(o.get("c"), None);
    assert!(o.same(&o.clone()));
    assert!(!o.same(&Object(vec![])));
}

#[test]
fn a_store_holds_no_key_twice() {
    let mut ds = filled();
    assert!(ds.is_valid());
    create(&mut ds, &session(), "person", 1, 5);
    assert!(ds.is_valid());
    assert!(ds.transaction(true).is_valid());
    assert!(surreal_core::kvs::tx::distinct(&vec![record("a", 1, 1), record("a", 2, 1)]));
    assert!(!surreal_core::kvs::tx::distinct(&vec![
        record("a", 1, 1),
        record("a", 2, 1),
        record("a", 1, 9)
    ]));
}

#[test]
fn a_refused_target_fails_the_statement_whatever_the_time_limit() {
    let mut ds = filled();
    let vars = vec![("bad".to_string(), Value::Number(1))];
    assert_eq!(
        run(&mut ds, "DELETE |person:1..3|, person, $bad TIMEOUT 0s", vars),
        Err(Error::StatementTargetError { value: Value::Number(1) })
    );
    assert_eq!(ds.records().len(), 4);
    let list = Value::Array(vec![Value::Table("person".to_string()), Value::Bool(false)]);
    assert_eq!(
        run(&mut ds, "DELETE animal, $list TIMEOUT 1ns", vec![("list".to_string(), list)]),
        Err(Error::StatementTargetError { value: Value::Bool(false) })
    );
    assert_eq!(ds.records().len(), 4);
}

#[test]
fn values_are_refused_by_their_kind() {
    assert_eq!(refusal(&Value::Table("a".to_string())), None);
    assert_eq!(refusal(&Value::Thing(thing("a", 1))), None);
    assert_eq!(refusal(&Value::Model(Model { table: "a".to_string(), from: 3, to: 1 })), None);
    assert_eq!(refusal(&Value::Object(Object(vec![]))), None);
    assert_eq!(refusal(&Value::Array(vec![])), None);
    assert_eq!(refusal(&Value::Number(2)), Some(Value::Number(2)));
    assert_eq!(refusal(&Value::Null), Some(Value::Null));
    assert_eq!(
        refusal(&Value::Array(vec![
            Value::Table("a".to_string()),
            Value::Strand("x".to_string()),
            Value::Number(1)
        ])),
        Some(Value::Strand("x".to_string()))
    );
    assert!(stands(&Value::Table("a".to_string())));
    assert!(!stands(&Value::Array(vec![])));
}
