use rsql::btree::RedBlackBST;
use rsql::catalog::{Catalog, Command, Database, Step};
use rsql::error::DbError;
use rsql::parser::{parse_script, tokenize, Token};
use rsql::table::{CmpOp, Predicate, Table, TableOp};
use rsql::value::{parse_float, parse_value, push_value_text, ColumnDef, ColumnType, Value};

fn run_all(c: &mut Catalog, text: &str) -> Vec<Result<Option<String>, DbError>> {
    let cmds = parse_script(&text.to_string()).expect("script parses");
    let mut out = Vec::new();
    for cmd in cmds {
        out.push(c.run(cmd));
    }
    out
}

fn last_text(c: &mut Catalog, text: &str) -> String {
    let rs = run_all(c, text);
    match rs.last() {
        Some(Ok(Some(s))) => s.clone(),
        other => panic!("unexpected result {:?}", other),
    }
}

fn shop() -> Catalog {
    let mut c = Catalog::new(None);
    let rs = run_all(
        &mut c,
        "CREATE DATABASE shop; USE shop; CREATE TABLE items (name VARCHAR(20), price FLOAT); INSERT INTO items VALUES ('Widget', 9.99);",
    );
    assert!(rs.iter().all(|r| r.is_ok()));
    c
}

fn text_of(v: &Value) -> String {
    let mut out = Vec::new();
    push_value_text(&mut out, v);
    out.iter().collect()
}

#[test]
fn tree_insert_and_get() {
    let a = 10;
    let b = 20;
    let c = 30;
    let mut t: RedBlackBST<i32> = RedBlackBST::new();
    assert_eq!(t.size(), 0);
    assert!(t.get(5).is_err());
    assert!(t.insert(5, &a).is_ok());
    assert!(t.insert(2, &b).is_ok());
    assert!(t.insert(9, &c).is_ok());
    assert_eq!(t.size(), 3);
    assert_eq!(*t.get(5).unwrap(), 10);
    assert_eq!(*t.get(2).unwrap(), 20);
    assert_eq!(*t.get(9).unwrap(), 30);
    assert!(t.get(7).is_err());
}

#[test]
fn tree_refuses_present_key() {
    let a = 1;
    let b = 2;
    let mut t: RedBlackBST<i32> = RedBlackBST::new();
    assert!(t.insert(4, &a).is_ok());
    assert!(t.insert(4, &b).is_err());
    assert_eq!(t.size(), 1);
    assert_eq!(*t.get(4).unwrap(), 1);
}

#[test]
fn shop_scenario_select() {
    let mut c = shop();
    let s = last_text(&mut c, "SELECT * FROM items;");
    assert_eq!(s, "name varchar(20) | price float\nWidget | 9.99");
}

#[test]
fn alter_adds_zero_column() {
    let mut c = shop();
    let rs = run_all(&mut c, "ALTER TABLE items ADD (qty INT);");
    assert_eq!(rs[0], Ok(Some("Table items modified".to_string())));
    let s = last_text(&mut c, "SELECT * FROM items;");
    assert_eq!(s, "name varchar(20) | price float | qty int\nWidget | 9.99 | 0");
}

#[test]
fn insert_then_select_round_trip() {
    let mut c = Catalog::new(None);
    run_all(&mut c, "CREATE DATABASE d; USE d; CREATE TABLE t (a INT, b CHAR(3), f FLOAT);");
    let rs = run_all(&mut c, "INSERT INTO t VALUES (-42, 'abc', 2.5);");
    assert_eq!(rs[0], Ok(Some("1 new record inserted".to_string())));
    let s = last_text(&mut c, "SELECT * FROM t;");
    assert_eq!(s, "a int | b char(3) | f float\n-42 | abc | 2.5");
}

#[test]
fn delete_undoes_insert() {
    let mut c = shop();
    let rs = run_all(&mut c, "DELETE FROM items WHERE name = 'Widget';");
    assert_eq!(rs[0], Ok(Some("1 record deleted".to_string())));
    let s = last_text(&mut c, "SELECT * FROM items;");
    assert_eq!(s, "name varchar(20) | price float");
}

#[test]
fn update_touches_only_chosen_rows() {
    let mut c = shop();
    run_all(&mut c, "INSERT INTO items VALUES ('Gadget', 20);");
    let rs = run_all(&mut c, "UPDATE items SET price = 14.99 WHERE name = 'Gadget';");
    assert_eq!(rs[0], Ok(Some("1 record modified".to_string())));
    let s = last_text(&mut c, "SELECT * FROM items;");
    assert_eq!(s, "name varchar(20) | price float\nWidget | 9.99\nGadget | 14.99");
}

#[test]
fn update_without_predicate_and_last_assignment_wins() {
    let mut c = shop();
    run_all(&mut c, "INSERT INTO items VALUES ('Gadget', 20);");
    let rs = run_all(&mut c, "UPDATE items SET price = 1, price = 3;");
    assert_eq!(rs[0], Ok(Some("2 record modified".to_string())));
    let s = last_text(&mut c, "SELECT price FROM items;");
    assert_eq!(s, "price float\n3\n3");
}

#[test]
fn create_database_twice_and_use_missing() {
    let mut c = Catalog::new(None);
    let rs = run_all(&mut c, "CREATE DATABASE d; CREATE DATABASE d; USE d2;");
    assert_eq!(rs[0], Ok(Some("Database d created.".to_string())));
    assert_eq!(rs[1], Err(DbError::AlreadyExists));
    assert_eq!(rs[2], Err(DbError::NotFound));
}

#[test]
fn no_active_database() {
    let mut c = Catalog::new(None);
    let rs = run_all(&mut c, "CREATE TABLE t (a INT); SELECT * FROM t;");
    assert_eq!(rs[0], Err(DbError::NoActiveDatabase));
    assert_eq!(rs[1], Err(DbError::NoActiveDatabase));
}

#[test]
fn dropped_active_database() {
    let mut c = Catalog::new(None);
    let rs = run_all(&mut c, "CREATE DATABASE d; USE d; DROP DATABASE d; CREATE TABLE t (a INT);");
    assert_eq!(rs[1], Ok(Some("Using database d.".to_string())));
    assert_eq!(rs[2], Ok(Some("Database d deleted.".to_string())));
    assert_eq!(rs[3], Err(DbError::ActiveDatabaseMissing));
}

#[test]
fn table_errors() {
    let mut c = shop();
    let rs = run_all(
        &mut c,
        "CREATE TABLE items (x INT); DROP TABLE nothing; SELECT * FROM nothing; SELECT cost FROM items; INSERT INTO items VALUES ('a'); INSERT INTO items VALUES ('a', 'b'); UPDATE items SET cost = 1; DELETE FROM items WHERE price = 'x';",
    );
    assert_eq!(rs[0], Err(DbError::AlreadyExists));
    assert_eq!(rs[1], Err(DbError::NotFound));
    assert_eq!(rs[2], Err(DbError::NotFound));
    assert_eq!(rs[3], Err(DbError::UnknownColumn));
    assert_eq!(rs[4], Err(DbError::Arity));
    assert_eq!(rs[5], Err(DbError::TypeMismatch));
    assert_eq!(rs[6], Err(DbError::UnknownColumn));
    assert_eq!(rs[7], Err(DbError::TypeMismatch));
    let s = last_text(&mut c, "SELECT * FROM items;");
    assert_eq!(s, "name varchar(20) | price float\nWidget | 9.99");
}

#[test]
fn varchar_length_is_enforced() {
    let mut c = Catalog::new(None);
    let rs = run_all(&mut c, "CREATE DATABASE d; USE d; CREATE TABLE t (s VARCHAR(3)); INSERT INTO t VALUES ('abcd');");
    assert_eq!(rs[3], Err(DbError::TypeMismatch));
}

#[test]
fn duplicate_column_names_refused() {
    let mut c = Catalog::new(None);
    let rs = run_all(&mut c, "CREATE DATABASE d; USE d; CREATE TABLE t (a INT, a FLOAT); CREATE TABLE u (a INT); ALTER TABLE u ADD (a INT);");
    assert_eq!(rs[2], Err(DbError::AlreadyExists));
    assert!(rs[3].is_ok());
    assert_eq!(rs[4], Err(DbError::AlreadyExists));
}

#[test]
fn drop_table_then_gone() {
    let mut c = shop();
    let rs = run_all(&mut c, "DROP TABLE items; SELECT * FROM items;");
    assert_eq!(rs[0], Ok(Some("Table items deleted.".to_string())));
    assert_eq!(rs[1], Err(DbError::NotFound));
}

#[test]
fn predicates_combine() {
    let mut c = shop();
    run_all(&mut c, "INSERT INTO items VALUES ('Gadget', 20); INSERT INTO items VALUES ('Bolt', 0.5);");
    let s = last_text(&mut c, "SELECT name FROM items WHERE price >= 9.99 AND NOT name = 'Gadget';");
    assert_eq!(s, "name varchar(20)\nWidget");
    let s = last_text(&mut c, "SELECT name, price FROM items WHERE price < 1 OR name > 'H';");
    assert_eq!(s, "name varchar(20) | price float\nWidget | 9.99\nBolt | 0.5");
    let s = last_text(&mut c, "SELECT price, name FROM items WHERE (name <> 'Bolt');");
    assert_eq!(s, "price float | name varchar(20)\n9.99 | Widget\n20 | Gadget");
}

#[test]
fn delete_all_rows_without_predicate() {
    let mut c = shop();
    run_all(&mut c, "INSERT INTO items VALUES ('Gadget', 20);");
    let rs = run_all(&mut c, "DELETE FROM items;");
    assert_eq!(rs[0], Ok(Some("2 record deleted".to_string())));
    let s = last_text(&mut c, "SELECT * FROM items;");
    assert_eq!(s, "name varchar(20) | price float");
}

#[test]
fn row_count_matches_every_column() {
    let mut c = shop();
    run_all(&mut c, "INSERT INTO items VALUES ('Gadget', 20); ALTER TABLE items ADD (qty INT); DELETE FROM items WHERE price < 10;");
    let db = &c.databases()[0].1;
    let t = &db.tables()[0].1;
    assert_eq!(t.len(), 1);
    for col in t.column_data() {
        assert_eq!(col.len(), t.len());
    }
}

#[test]
fn empty_and_exit_commands() {
    let mut c = Catalog::new(None);
    let cmds = parse_script(&"; .EXIT".to_string()).unwrap();
    assert_eq!(cmds.len(), 2);
    assert!(matches!(cmds[0], Command::Empty));
    assert!(matches!(cmds[1], Command::Exit));
    for cmd in cmds {
        assert_eq!(c.run(cmd), Ok(None));
    }
}

#[test]
fn parse_errors() {
    assert_eq!(parse_script(&"SELEKT * FROM t;".to_string()).err(), Some(DbError::ParseError));
    assert_eq!(parse_script(&"INSERT INTO t VALUES ('a);".to_string()).err(), Some(DbError::ParseError));
    assert_eq!(parse_script(&"CREATE TABLE t (a TEXT);".to_string()).err(), Some(DbError::ParseError));
    assert!(parse_script(&"-- a comment\nCREATE DATABASE x;".to_string()).is_ok());
}

#[test]
fn snapshot_parts_round_trip() {
    let mut c = shop();
    run_all(&mut c, "INSERT INTO items VALUES ('Gadget', 20);");
    let mut dbs = Vec::new();
    for (dname, db) in c.databases() {
        let mut tables = Vec::new();
        for (tname, t) in db.tables() {
            let t2 = Table::from_parts(t.header_defs(), t.column_data().clone(), t.len()).expect("valid parts");
            tables.push((tname.clone(), t2));
        }
        dbs.push((dname.clone(), Database::from_tables(tables).expect("unique tables")));
    }
    let mut c2 = Catalog::from_parts(dbs, c.current_name().clone(), None).expect("unique databases");
    let a = last_text(&mut c, "SELECT * FROM items;");
    let b = last_text(&mut c2, "SELECT * FROM items;");
    assert_eq!(a, b);
    assert_eq!(b, "name varchar(20) | price float\nWidget | 9.99\nGadget | 20");
}

#[test]
fn snapshot_parts_rejected() {
    let header = vec![ColumnDef { name: "a".to_string(), kind: ColumnType::Integer }];
    assert!(Table::from_parts(header.clone(), vec![vec![Value::Int(1)]], 2).is_none());
    assert!(Table::from_parts(header.clone(), vec![vec![Value::Text("x".to_string())]], 1).is_none());
    assert!(Table::from_parts(header.clone(), vec![vec![Value::Int(1)]], 1).is_some());
    let dup = vec![
        ColumnDef { name: "a".to_string(), kind: ColumnType::Integer },
        ColumnDef { name: "a".to_string(), kind: ColumnType::Integer },
    ];
    assert!(Table::from_parts(dup, vec![vec![], vec![]], 0).is_none());
    let t1 = Table::new(header.clone()).unwrap();
    let t2 = Table::new(header).unwrap();
    assert!(Database::from_tables(vec![("t".to_string(), t1), ("t".to_string(), t2)]).is_none());
}

#[test]
fn float_literals_and_text() {
    assert_eq!(parse_float(&"9.99".chars().collect()), Some(9990000));
    assert_eq!(parse_float(&"-0.5".chars().collect()), Some(-500000));
    assert_eq!(parse_float(&"20".chars().collect()), Some(20000000));
    assert_eq!(parse_float(&"1.2345678".chars().collect()), None);
    assert_eq!(parse_float(&"1.".chars().collect()), None);
    assert_eq!(text_of(&Value::Float(9990000)), "9.99");
    assert_eq!(text_of(&Value::Float(-500000)), "-0.5");
    assert_eq!(text_of(&Value::Float(10000000)), "10");
    assert_eq!(text_of(&Value::Float(1)), "0.000001");
    assert_eq!(text_of(&Value::Int(-9223372036854775808)), "-9223372036854775808");
    assert_eq!(text_of(&Value::Text("hi".to_string())), "hi");
}

#[test]
fn literal_reading_by_type() {
    assert!(matches!(parse_value(ColumnType::Integer, &"12".to_string()), Some(Value::Int(12))));
    assert!(parse_value(ColumnType::Integer, &"1.5".to_string()).is_none());
    assert!(parse_value(ColumnType::Integer, &"9223372036854775808".to_string()).is_none());
    assert!(matches!(parse_value(ColumnType::Integer, &"-9223372036854775808".to_string()), Some(Value::Int(i64::MIN))));
    assert!(matches!(parse_value(ColumnType::FixedChar(2), &"ab".to_string()), Some(Value::Text(_))));
    assert!(parse_value(ColumnType::FixedChar(2), &"abc".to_string()).is_none());
}

#[test]
fn table_apply_direct() {
    let header = vec![
        ColumnDef { name: "k".to_string(), kind: ColumnType::Integer },
        ColumnDef { name: "v".to_string(), kind: ColumnType::VarChar(8) },
    ];
    let mut t = Table::new(header).unwrap();
    let name = "t".to_string();
    assert!(t.apply(&name, TableOp::Insert(vec!["1".to_string(), "one".to_string()])).is_ok());
    assert!(t.apply(&name, TableOp::Insert(vec!["2".to_string(), "two".to_string()])).is_ok());
    let pred = Predicate::Compare("k".to_string(), CmpOp::Gt, "1".to_string());
    let r = t.apply(&name, TableOp::Select(Some(vec!["v".to_string()]), Some(pred)));
    assert_eq!(r, Ok(Some("v varchar(8)\ntwo".to_string())));
    assert_eq!(t.len(), 2);
}

#[test]
fn tree_error_values() {
    let a = 1;
    let b = 2;
    let mut t: RedBlackBST<i32> = RedBlackBST::new();
    assert_eq!(t.get(3).err(), Some("Tree is empty"));
    assert!(t.insert(3, &a).is_ok());
    assert_eq!(t.insert(3, &b).err(), Some("Key already present"));
    assert_eq!(t.get(8).err(), Some("Key: not found"));
    assert_eq!(t.size(), 1);
}

#[test]
fn tokens_of_a_command() {
    let toks = tokenize(&"select a,b FROM t where x <= -1.5 and y <> 'q r';".to_string()).unwrap();
    assert_eq!(toks.len(), 15);
    assert!(matches!(&toks[0], Token::Word(w) if w.iter().collect::<String>() == "select"));
    assert!(matches!(&toks[2], Token::Sym(',')));
    assert!(matches!(&toks[8], Token::Op(CmpOp::Le)));
    assert!(matches!(&toks[9], Token::Number(w) if w.iter().collect::<String>() == "-1.5"));
    assert!(matches!(&toks[12], Token::Op(CmpOp::Ne)));
    assert!(matches!(&toks[13], Token::Quoted(w) if w.iter().collect::<String>() == "q r"));
    assert!(matches!(&toks[14], Token::Sym(';')));
    assert!(tokenize(&"a # b".to_string()).is_err());
}

#[test]
fn commands_read_from_text() {
    let cmds = parse_script(&"create table t (a int, b varchar(4)); insert into t values (1, 'x'); update t set a = 2 where b = 'x'; select b from t; drop database d".to_string()).unwrap();
    assert_eq!(cmds.len(), 5);
    match &cmds[0] {
        Command::CreateTable(n, defs) => {
            assert_eq!(n, "t");
            assert_eq!(defs.len(), 2);
            assert_eq!(defs[1].name, "b");
            assert_eq!(defs[1].kind, ColumnType::VarChar(4));
        }
        _ => panic!("expected a create table"),
    }
    match &cmds[1] {
        Command::Insert(n, vals) => {
            assert_eq!(n, "t");
            assert_eq!(vals, &vec!["1".to_string(), "x".to_string()]);
        }
        _ => panic!("expected an insert"),
    }
    match &cmds[2] {
        Command::Update(n, a, Some(Predicate::Compare(c, CmpOp::Eq, l))) => {
            assert_eq!(n, "t");
            assert_eq!(a, &vec![("a".to_string(), "2".to_string())]);
            assert_eq!(c, "b");
            assert_eq!(l, "x");
        }
        _ => panic!("expected an update with a predicate"),
    }
    assert!(matches!(&cmds[3], Command::Select(n, Some(p), None) if n == "t" && p == &vec!["b".to_string()]));
    assert!(matches!(&cmds[4], Command::DropDatabase(n) if n == "d"));
    assert!(parse_script(&"select * from t drop table u;".to_string()).is_err());
}

#[test]
fn session_steps() {
    let mut c = Catalog::new(None);
    let (r, s) = c.run_step(Command::CreateDatabase("d".to_string()));
    assert!(r.is_ok());
    assert_eq!(s, Step { save: true, exit: false });
    let (r, s) = c.run_step(Command::CreateDatabase("d".to_string()));
    assert_eq!(r, Err(DbError::AlreadyExists));
    assert_eq!(s, Step { save: false, exit: false });
    let (_, s) = c.run_step(Command::Empty);
    assert_eq!(s, Step { save: false, exit: false });
    let (r, s) = c.run_step(Command::Exit);
    assert_eq!(r, Ok(None));
    assert_eq!(s, Step { save: true, exit: true });
}
