use sqlez::result::SQLITE_OK;
use sqlez::{Db, Engine, ThreadSafeConnection};

/// An engine that only records how it was opened.
struct Opened {
    uri: String,
    fail: bool,
}

impl Engine for Opened {
    type Handle = ();
    type RollbackGuard = ();

    fn open(uri: &str, _flags: i32) -> Self {
        Opened { uri: uri.to_string(), fail: uri.contains("missing") }
    }
    fn exec(&self, _sql: &str) {}
    fn error_code(&self) -> i32 {
        if self.fail {
            14
        } else {
            SQLITE_OK
        }
    }
    fn error_message(&self) -> Option<String> {
        None
    }
    fn rollback_guard(&self, _sql: &str) {}
    fn disarm(&self, _guard: &mut ()) {}
    fn prepare(&self, _sql: &str) {}
    fn step(&self, _h: &mut ()) -> i32 {
        101
    }
    fn reset(&self, _h: &mut ()) {}
    fn bind_blob(&self, _h: &mut (), _i: i32, _b: &[u8]) {}
    fn bind_double(&self, _h: &mut (), _i: i32, _b: u64) {}
    fn bind_int(&self, _h: &mut (), _i: i32, _v: i32) {}
    fn bind_int64(&self, _h: &mut (), _i: i32, _v: i64) {}
    fn bind_null(&self, _h: &mut (), _i: i32) {}
    fn bind_text(&self, _h: &mut (), _i: i32, _t: &str) {}
    fn column_blob(&self, _h: &(), _i: i32) -> Option<Vec<u8>> {
        None
    }
    fn column_double(&self, _h: &(), _i: i32) -> u64 {
        0
    }
    fn column_int(&self, _h: &(), _i: i32) -> i32 {
        0
    }
    fn column_int64(&self, _h: &(), _i: i32) -> i64 {
        0
    }
    fn column_text(&self, _h: &(), _i: i32) -> Option<Vec<u8>> {
        None
    }
    fn column_type(&self, _h: &(), _i: i32) -> i32 {
        5
    }
}

#[test]
fn clones_on_one_thread_share_one_connection() {
    let a = ThreadSafeConnection::<Opened>::new("shared-id", false);
    let b = a.clone();
    let ca = a.connection().as_ref().unwrap();
    let cb = b.connection().as_ref().unwrap();
    assert!(std::ptr::eq(ca, cb));
    assert_eq!(ca.engine().uri, "file:shared-id?mode=memory&cache=shared");
}

#[test]
fn persistent_policy_opens_the_file() {
    let a = ThreadSafeConnection::<Opened>::new("data.db", true);
    assert_eq!(a.connection().as_ref().unwrap().engine().uri, "data.db");
}

#[test]
fn persistent_open_failure_is_reported_not_replaced() {
    let a = ThreadSafeConnection::<Opened>::new("missing/data.db", true);
    assert!(matches!(a.connection(), Err(sqlez::Error::Sqlite { code: Some(14), .. })));
}

#[test]
fn db_opens_its_store_persistently() {
    let db = Db::<Opened>::new("contacts.db");
    let conn = db.contacts.connection().connection().as_ref().unwrap();
    assert_eq!(conn.engine().uri, "contacts.db");
}
