use std::cell::RefCell;
use std::collections::BTreeMap;
use std::rc::Rc;

use sqlez::connection::memory_uri;
use sqlez::engine::{OPEN_FLAGS, SQLITE_DONE, SQLITE_MISUSE, SQLITE_ROW};
use sqlez::result::SQLITE_OK;
use sqlez::statement::{blob_or_empty, sql_type_from_code, text_from_bytes};
use sqlez::transaction::{release_sql, rollback_sql, savepoint_sql};
use sqlez::{
    Connection, Double, Engine, Error, SqlType, Statement, StepResult, Transaction,
};

#[derive(Clone, Debug, PartialEq)]
enum Cell {
    Blob(Option<Vec<u8>>),
    Double(u64),
    Int(i32),
    Int64(i64),
    Null,
    Text(Option<String>),
    BadText,
}

#[derive(Default)]
struct State {
    uri: String,
    flags: i32,
    code: i32,
    executed: Vec<String>,
    fail_exec_with: Option<i32>,
    steps: Vec<i32>,
    resets: usize,
    bound: BTreeMap<i32, Cell>,
    rows: Vec<Vec<Cell>>,
    row: Option<usize>,
    column_type: i32,
}

/// An engine that answers from a script: steps come from `steps`, rows from `rows`,
/// and a column of no scripted row echoes what was bound one position further on.
struct Fake {
    state: Rc<RefCell<State>>,
}

struct Guard {
    state: Rc<RefCell<State>>,
    sql: String,
    armed: bool,
}

impl Drop for Guard {
    fn drop(&mut self) {
        if self.armed {
            self.state.borrow_mut().executed.push(self.sql.clone());
        }
    }
}

impl Fake {
    fn cell(&self, index: i32) -> Cell {
        let s = self.state.borrow();
        match s.row {
            Some(r) if r < s.rows.len() => s.rows[r][index as usize].clone(),
            _ => s.bound.get(&(index + 1)).cloned().unwrap_or(Cell::Null),
        }
    }
}

impl Engine for Fake {
    type Handle = ();
    type RollbackGuard = Guard;

    fn open(uri: &str, flags: i32) -> Self {
        let state = State { uri: uri.to_string(), flags, ..Default::default() };
        Fake { state: Rc::new(RefCell::new(state)) }
    }
    fn exec(&self, sql: &str) {
        let mut s = self.state.borrow_mut();
        s.executed.push(sql.to_string());
        s.code = s.fail_exec_with.unwrap_or(SQLITE_OK);
    }
    fn error_code(&self) -> i32 {
        self.state.borrow().code
    }
    fn error_message(&self) -> Option<String> {
        let code = self.state.borrow().code;
        if code == SQLITE_OK {
            None
        } else {
            Some(format!("failure {}", code))
        }
    }
    fn rollback_guard(&self, sql: &str) -> Guard {
        Guard { state: self.state.clone(), sql: sql.to_string(), armed: true }
    }
    fn disarm(&self, guard: &mut Guard) {
        guard.armed = false;
    }
    fn prepare(&self, _sql: &str) {}
    fn step(&self, _handle: &mut ()) -> i32 {
        let mut s = self.state.borrow_mut();
        let code = if s.steps.is_empty() { SQLITE_DONE } else { s.steps.remove(0) };
        if code == SQLITE_ROW {
            s.row = Some(s.row.map_or(0, |r| r + 1));
        }
        code
    }
    fn reset(&self, _handle: &mut ()) {
        let mut s = self.state.borrow_mut();
        s.resets += 1;
        s.row = None;
    }
    fn bind_blob(&self, _h: &mut (), index: i32, blob: &[u8]) {
        self.state.borrow_mut().bound.insert(index, Cell::Blob(Some(blob.to_vec())));
    }
    fn bind_double(&self, _h: &mut (), index: i32, bits: u64) {
        self.state.borrow_mut().bound.insert(index, Cell::Double(bits));
    }
    fn bind_int(&self, _h: &mut (), index: i32, value: i32) {
        self.state.borrow_mut().bound.insert(index, Cell::Int(value));
    }
    fn bind_int64(&self, _h: &mut (), index: i32, value: i64) {
        self.state.borrow_mut().bound.insert(index, Cell::Int64(value));
    }
    fn bind_null(&self, _h: &mut (), index: i32) {
        self.state.borrow_mut().bound.insert(index, Cell::Null);
    }
    fn bind_text(&self, _h: &mut (), index: i32, text: &str) {
        self.state.borrow_mut().bound.insert(index, Cell::Text(Some(text.to_string())));
    }
    fn column_blob(&self, _h: &(), index: i32) -> Option<Vec<u8>> {
        match self.cell(index) {
            Cell::Blob(b) => b,
            _ => None,
        }
    }
    fn column_double(&self, _h: &(), index: i32) -> u64 {
        match self.cell(index) {
            Cell::Double(d) => d,
            _ => 0,
        }
    }
    fn column_int(&self, _h: &(), index: i32) -> i32 {
        match self.cell(index) {
            Cell::Int(v) => v,
            _ => 0,
        }
    }
    fn column_int64(&self, _h: &(), index: i32) -> i64 {
        match self.cell(index) {
            Cell::Int64(v) => v,
            _ => 0,
        }
    }
    fn column_text(&self, _h: &(), index: i32) -> Option<Vec<u8>> {
        match self.cell(index) {
            Cell::Text(Some(t)) => Some(t.into_bytes()),
            Cell::BadText => Some(vec![0x66, 0xff]),
            _ => None,
        }
    }
    fn column_type(&self, _h: &(), _index: i32) -> i32 {
        self.state.borrow().column_type
    }
}

fn open() -> Connection<Fake> {
    match Connection::<Fake>::open("test.db") {
        Ok(c) => c,
        Err(e) => panic!("open failed: {:?}", e),
    }
}

fn prepare<'a>(c: &'a Connection<Fake>, sql: &str) -> Statement<'a, Fake> {
    c.prepare(sql).expect("prepare")
}

#[test]
fn scalars_round_trip_through_bind_and_column() {
    let c = open();
    let mut s = prepare(&c, "SELECT ?");
    s.bind(42i32).unwrap();
    assert_eq!(s.column::<i32>().unwrap(), 42);
    s.bind(-7_000_000_000i64).unwrap();
    assert_eq!(s.column::<i64>().unwrap(), -7_000_000_000);
    s.bind(Double { bits: 2.5f64.to_bits() }).unwrap();
    assert_eq!(f64::from_bits(s.column::<Double>().unwrap().bits), 2.5);
    s.bind("hello".to_string()).unwrap();
    assert_eq!(s.column::<String>().unwrap(), "hello");
    s.bind(String::new()).unwrap();
    assert_eq!(s.column::<String>().unwrap(), "");
    s.bind(vec![0u8, 1, 255]).unwrap();
    assert_eq!(s.column::<Vec<u8>>().unwrap(), vec![0u8, 1, 255]);
    s.bind(Vec::<u8>::new()).unwrap();
    assert_eq!(s.column::<Vec<u8>>().unwrap(), Vec::<u8>::new());
}

#[test]
fn borrowed_and_unit_binds_go_to_position_one() {
    let c = open();
    let mut s = prepare(&c, "SELECT ?");
    s.bind("abc").unwrap();
    assert_eq!(c.engine().state.borrow().bound.get(&1), Some(&Cell::Text(Some("abc".into()))));
    s.bind(&[9u8, 8][..]).unwrap();
    assert_eq!(c.engine().state.borrow().bound.get(&1), Some(&Cell::Blob(Some(vec![9, 8]))));
    s.bind(()).unwrap();
    assert_eq!(c.engine().state.borrow().bound.get(&1), Some(&Cell::Null));
    s.bind(5usize).unwrap();
    assert_eq!(c.engine().state.borrow().bound.get(&1), Some(&Cell::Int64(5)));
}

#[test]
fn tuples_round_trip_field_by_field() {
    let c = open();
    let mut s = prepare(&c, "SELECT ?, ?, ?, ?");
    s.bind((1i64, "a".to_string())).unwrap();
    assert_eq!(s.column::<(i64, String)>().unwrap(), (1, "a".to_string()));
    s.bind((3i32, vec![7u8], 9i64)).unwrap();
    assert_eq!(s.column::<(i32, Vec<u8>, i64)>().unwrap(), (3, vec![7u8], 9));
    s.bind((1i32, 2i32, 3i32, "four".to_string())).unwrap();
    assert_eq!(
        s.column::<(i32, i32, i32, String)>().unwrap(),
        (1, 2, 3, "four".to_string())
    );
}

#[test]
fn tuple_positions_are_threaded_left_to_right() {
    let c = open();
    let mut s = prepare(&c, "SELECT ?, ?, ?");
    s.bind((10i32, (20i64, 30i32))).unwrap();
    let st = c.engine().state.borrow();
    assert_eq!(st.bound.get(&1), Some(&Cell::Int(10)));
    assert_eq!(st.bound.get(&2), Some(&Cell::Int64(20)));
    assert_eq!(st.bound.get(&3), Some(&Cell::Int(30)));
}

#[test]
fn reset_twice_makes_one_native_call() {
    let c = open();
    let mut s = prepare(&c, "SELECT 1");
    s.reset().unwrap();
    assert_eq!(c.engine().state.borrow().resets, 0);
    s.step().unwrap();
    s.reset().unwrap();
    s.reset().unwrap();
    assert_eq!(c.engine().state.borrow().resets, 1);
}

#[test]
fn step_classifies_engine_codes() {
    let c = open();
    let mut s = prepare(&c, "SELECT 1");
    c.engine().state.borrow_mut().steps = vec![SQLITE_ROW, SQLITE_DONE, SQLITE_MISUSE, 7];
    assert_eq!(s.step().unwrap(), StepResult::Row);
    assert_eq!(s.step().unwrap(), StepResult::Done);
    assert_eq!(s.step().unwrap(), StepResult::Misuse);
    assert_eq!(s.step().unwrap(), StepResult::Other(7));
    c.engine().state.borrow_mut().steps = vec![1];
    c.engine().state.borrow_mut().code = 1;
    match s.step() {
        Err(Error::Sqlite { code: Some(1), message: Some(m) }) => assert_eq!(m, "failure 1"),
        other => panic!("unexpected {:?}", other.is_ok()),
    }
}

#[test]
fn run_on_zero_rows_succeeds() {
    let c = open();
    let mut s = prepare(&c, "DELETE FROM kv");
    c.engine().state.borrow_mut().steps = vec![SQLITE_DONE];
    assert!(s.run().is_ok());
    let mut calls = 0;
    c.engine().state.borrow_mut().steps = vec![SQLITE_DONE];
    let out = s.map(|_| {
        calls += 1;
        Ok(())
    });
    assert_eq!(out.unwrap().len(), 0);
    assert_eq!(calls, 0);
}

#[test]
fn run_steps_through_all_rows() {
    let c = open();
    let mut s = prepare(&c, "SELECT 1");
    c.engine().state.borrow_mut().steps = vec![SQLITE_ROW, SQLITE_ROW, SQLITE_DONE, SQLITE_ROW];
    c.engine().state.borrow_mut().rows = vec![vec![Cell::Int(1)], vec![Cell::Int(2)]];
    s.run().unwrap();
    assert_eq!(c.engine().state.borrow().steps, vec![SQLITE_ROW]);
}

#[test]
fn single_and_row_on_no_rows_fail() {
    let c = open();
    let mut s = prepare(&c, "SELECT v FROM kv WHERE 0");
    c.engine().state.borrow_mut().steps = vec![SQLITE_DONE];
    assert!(matches!(s.row::<String>(), Err(Error::NoRows)));
    c.engine().state.borrow_mut().steps = vec![SQLITE_DONE];
    let mut called = false;
    assert!(matches!(
        s.single(|_| {
            called = true;
            Ok(1)
        }),
        Err(Error::NoRows)
    ));
    assert!(!called);
}

#[test]
fn maybe_and_maybe_row_on_no_rows_give_none() {
    let c = open();
    let mut s = prepare(&c, "SELECT v FROM kv WHERE 0");
    c.engine().state.borrow_mut().steps = vec![SQLITE_DONE];
    assert!(matches!(s.maybe_row::<String>(), Ok(None)));
    c.engine().state.borrow_mut().steps = vec![SQLITE_DONE];
    assert!(matches!(s.maybe(|st| st.column::<i64>()), Ok(None)));
}

#[test]
fn row_decodes_the_first_row_only() {
    let c = open();
    let mut s = prepare(&c, "SELECT v FROM kv");
    c.engine().state.borrow_mut().steps = vec![SQLITE_ROW, SQLITE_ROW, SQLITE_DONE];
    c.engine().state.borrow_mut().rows =
        vec![vec![Cell::Text(Some("hello".into()))], vec![Cell::Text(Some("world".into()))]];
    assert_eq!(s.row::<String>().unwrap(), "hello");
    c.engine().state.borrow_mut().steps = vec![SQLITE_ROW];
    assert_eq!(s.maybe_row::<String>().unwrap(), Some("hello".to_string()));
    c.engine().state.borrow_mut().steps = vec![SQLITE_ROW];
    assert_eq!(s.single(|st| st.column::<String>()).unwrap(), "hello");
}

#[test]
fn rows_come_back_in_engine_order() {
    let c = open();
    let mut s = prepare(&c, "SELECT k, v FROM kv");
    c.engine().state.borrow_mut().steps = vec![SQLITE_ROW, SQLITE_ROW, SQLITE_ROW, SQLITE_DONE];
    c.engine().state.borrow_mut().rows = vec![
        vec![Cell::Int64(3), Cell::Text(Some("c".into()))],
        vec![Cell::Int64(1), Cell::Text(Some("a".into()))],
        vec![Cell::Int64(2), Cell::Text(Some("b".into()))],
    ];
    let rows = s.rows::<(i64, String)>().unwrap();
    assert_eq!(rows, vec![(3, "c".to_string()), (1, "a".to_string()), (2, "b".to_string())]);
    c.engine().state.borrow_mut().steps = vec![SQLITE_ROW, SQLITE_ROW, SQLITE_DONE];
    let keys = s.map(|st| st.column::<i64>()).unwrap();
    assert_eq!(keys, vec![3, 1]);
}

#[test]
fn null_blob_and_text_read_as_empty() {
    let c = open();
    let mut s = prepare(&c, "SELECT NULL, NULL");
    c.engine().state.borrow_mut().steps = vec![SQLITE_ROW];
    c.engine().state.borrow_mut().rows = vec![vec![Cell::Blob(None), Cell::Text(None)]];
    let row = s.row::<(Vec<u8>, String)>().unwrap();
    assert_eq!(row, (Vec::new(), String::new()));
    assert_eq!(blob_or_empty(None), Vec::<u8>::new());
    assert_eq!(blob_or_empty(Some(vec![4])), vec![4]);
}

#[test]
fn invalid_text_is_refused() {
    let c = open();
    let mut s = prepare(&c, "SELECT x");
    c.engine().state.borrow_mut().steps = vec![SQLITE_ROW];
    c.engine().state.borrow_mut().rows = vec![vec![Cell::BadText]];
    assert!(matches!(s.row::<String>(), Err(Error::InvalidText)));
    assert!(matches!(text_from_bytes(Some(vec![0xc3])), Err(Error::InvalidText)));
    assert_eq!(text_from_bytes(None).unwrap(), "");
    assert_eq!(text_from_bytes(Some(vec![0xc3, 0xa9, 0x74])).unwrap(), "\u{e9}t");
}

#[test]
fn column_type_maps_storage_classes() {
    assert_eq!(sql_type_from_code(1).unwrap(), SqlType::Integer);
    assert_eq!(sql_type_from_code(2).unwrap(), SqlType::Float);
    assert_eq!(sql_type_from_code(3).unwrap(), SqlType::Text);
    assert_eq!(sql_type_from_code(4).unwrap(), SqlType::Blob);
    assert_eq!(sql_type_from_code(5).unwrap(), SqlType::Null);
    assert!(matches!(sql_type_from_code(9), Err(Error::UnknownColumnType { type_code: 9 })));
    let c = open();
    let mut s = prepare(&c, "SELECT 1");
    c.engine().state.borrow_mut().column_type = 3;
    assert_eq!(s.column_type(0).unwrap(), SqlType::Text);
    c.engine().state.borrow_mut().column_type = 0;
    assert!(matches!(s.column_type(0), Err(Error::UnknownColumnType { type_code: 0 })));
}

#[test]
fn embedded_nul_is_a_malformed_input() {
    let c = open();
    assert!(matches!(c.exec("SELECT 1;\0"), Err(Error::NulError { position: 9 })));
    assert!(matches!(c.prepare("\0"), Err(Error::NulError { position: 0 })));
    assert!(matches!(Connection::<Fake>::open("a\0b"), Err(Error::NulError { position: 1 })));
    assert!(c.engine().state.borrow().executed.is_empty());
}

#[test]
fn engine_errors_carry_code_and_message() {
    let c = open();
    c.engine().state.borrow_mut().fail_exec_with = Some(19);
    match c.exec("INSERT INTO kv VALUES (1, 'x')") {
        Err(Error::Sqlite { code: Some(19), message: Some(m) }) => assert_eq!(m, "failure 19"),
        _ => panic!("expected an engine error"),
    }
    assert!(matches!(c.last_error(), Err(Error::Sqlite { code: Some(19), .. })));
    assert!(matches!(sqlez::result::status_result(0, None), Ok(())));
}

#[test]
fn open_uses_the_safe_flags() {
    let c = open();
    assert_eq!(c.engine().state.borrow().flags, OPEN_FLAGS);
    assert_eq!(OPEN_FLAGS, 0x2 | 0x4 | 0x8000);
    assert_eq!(c.engine().state.borrow().uri, "test.db");
}

#[test]
fn memory_uri_names_the_shared_store() {
    assert_eq!(memory_uri("t1"), "file:t1?mode=memory&cache=shared");
    let c = Connection::<Fake>::open_memory("t1").unwrap();
    assert_eq!(c.engine().state.borrow().uri, "file:t1?mode=memory&cache=shared");
}

#[test]
fn savepoint_commands() {
    assert_eq!(savepoint_sql("sp1"), "SAVEPOINT sp1");
    assert_eq!(rollback_sql("sp1"), "ROLLBACK TO SAVEPOINT sp1; RELEASE SAVEPOINT sp1");
    assert_eq!(release_sql("sp1"), "RELEASE SAVEPOINT sp1");
}

#[test]
fn dropped_transaction_rolls_back() {
    let c = open();
    {
        let t = Transaction::save_point(&c, "sp1").unwrap();
        t.connection().exec("INSERT INTO kv VALUES (2, 'world')").unwrap();
    }
    let executed = c.engine().state.borrow().executed.clone();
    assert_eq!(
        executed,
        vec![
            "SAVEPOINT sp1".to_string(),
            "INSERT INTO kv VALUES (2, 'world')".to_string(),
            "ROLLBACK TO SAVEPOINT sp1; RELEASE SAVEPOINT sp1".to_string(),
        ]
    );
}

#[test]
fn released_transaction_keeps_its_effects() {
    let c = open();
    let t = Transaction::save_point(&c, "sp2").unwrap();
    t.release().unwrap();
    let executed = c.engine().state.borrow().executed.clone();
    assert_eq!(executed, vec!["SAVEPOINT sp2".to_string(), "RELEASE SAVEPOINT sp2".to_string()]);
}

#[test]
fn explicit_rollback_runs_once() {
    let c = open();
    let t = Transaction::save_point(&c, "sp3").unwrap();
    t.rollback().unwrap();
    let executed = c.engine().state.borrow().executed.clone();
    assert_eq!(
        executed,
        vec![
            "SAVEPOINT sp3".to_string(),
            "ROLLBACK TO SAVEPOINT sp3; RELEASE SAVEPOINT sp3".to_string(),
        ]
    );
}

#[test]
fn failed_savepoint_gives_no_guard() {
    let c = open();
    c.engine().state.borrow_mut().fail_exec_with = Some(1);
    assert!(Transaction::save_point(&c, "sp4").is_err());
    assert_eq!(c.engine().state.borrow().executed, vec!["SAVEPOINT sp4".to_string()]);
}

#[test]
fn bound_resets_then_binds_for_chaining() {
    let c = open();
    let mut s = prepare(&c, "INSERT INTO kv VALUES (?, ?)");
    c.engine().state.borrow_mut().steps = vec![SQLITE_ROW];
    s.step().unwrap();
    c.engine().state.borrow_mut().steps = vec![SQLITE_DONE];
    s.bound((1i64, "hello")).unwrap().run().unwrap();
    let st = c.engine().state.borrow();
    assert_eq!(st.resets, 1);
    assert_eq!(st.bound.get(&1), Some(&Cell::Int64(1)));
    assert_eq!(st.bound.get(&2), Some(&Cell::Text(Some("hello".into()))));
}

#[test]
fn key_value_scenario() {
    let c = Connection::<Fake>::open_memory("t1").unwrap();
    c.exec("CREATE TABLE kv(k INTEGER PRIMARY KEY, v TEXT)").unwrap();
    let mut insert = prepare(&c, "INSERT INTO kv VALUES (?, ?)");
    insert.bind((1i64, "hello")).unwrap();
    insert.run().unwrap();
    let mut select = prepare(&c, "SELECT v FROM kv WHERE k = ?");
    select.bind(1i64).unwrap();
    c.engine().state.borrow_mut().steps = vec![SQLITE_ROW];
    c.engine().state.borrow_mut().rows = vec![vec![Cell::Text(Some("hello".into()))]];
    assert_eq!(select.row::<String>().unwrap(), "hello");
    {
        let t = Transaction::save_point(&c, "sp1").unwrap();
        let mut again = prepare(t.connection(), "INSERT INTO kv VALUES (?, ?)");
        again.bind((2i64, "world")).unwrap();
        again.run().unwrap();
        t.rollback().unwrap();
    }
    let executed = c.engine().state.borrow().executed.clone();
    assert_eq!(executed.last().unwrap(), "ROLLBACK TO SAVEPOINT sp1; RELEASE SAVEPOINT sp1");
    assert_eq!(executed.len(), 3);
}

#[test]
fn db_marker_columns_exist() {
    let _ = sqlez::TextColumn {};
    let _ = sqlez::IntegerColumn {};
}

#[test]
fn usize_columns_decode_in_range_values_only() {
    let c = open();
    let mut s = prepare(&c, "SELECT ?");
    s.bind(7usize).unwrap();
    assert_eq!(s.column::<usize>().unwrap(), 7);
    s.bind(-1i64).unwrap();
    assert!(matches!(s.column::<usize>(), Err(Error::OutOfRange)));
}

#[test]
fn map_stops_at_the_first_callback_error() {
    let c = open();
    let mut s = prepare(&c, "SELECT k FROM kv");
    c.engine().state.borrow_mut().steps = vec![SQLITE_ROW, SQLITE_ROW, SQLITE_ROW, SQLITE_DONE];
    c.engine().state.borrow_mut().rows = vec![vec![Cell::Int64(1)], vec![Cell::Int64(2)], vec![Cell::Int64(3)]];
    let mut seen = Vec::new();
    let out = s.map(|st| {
        let k = st.column::<i64>()?;
        seen.push(k);
        if k == 2 {
            Err(Error::NoRows)
        } else {
            Ok(k)
        }
    });
    assert!(matches!(out, Err(Error::NoRows)));
    assert_eq!(seen, vec![1, 2]);
    assert_eq!(c.engine().state.borrow().steps, vec![SQLITE_ROW, SQLITE_DONE]);
}

#[test]
fn usize_beyond_i64_is_refused_not_wrapped() {
    let c = open();
    let mut s = prepare(&c, "SELECT ?");
    assert!(matches!(s.bind(usize::MAX), Err(Error::OutOfRange)));
    assert!(c.engine().state.borrow().bound.get(&1).is_none());
    assert!(matches!(s.bind((1i64, usize::MAX)), Err(Error::OutOfRange)));
    assert_eq!(c.engine().state.borrow().bound.get(&1), Some(&Cell::Int64(1)));
    assert!(c.engine().state.borrow().bound.get(&2).is_none());
}
