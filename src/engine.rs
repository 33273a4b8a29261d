use vstd::prelude::*;

verus! {

/// Result code of a step that produced a row.
pub const SQLITE_ROW: i32 = 100;
/// Result code of a step that ran the statement to completion.
pub const SQLITE_DONE: i32 = 101;
/// Result code of a call made against the engine's rules of use.
pub const SQLITE_MISUSE: i32 = 21;

/// Storage class codes that the engine reports for a column.
pub const SQLITE_INTEGER: i32 = 1;
pub const SQLITE_FLOAT: i32 = 2;
pub const SQLITE_TEXT: i32 = 3;
pub const SQLITE_BLOB: i32 = 4;
pub const SQLITE_NULL: i32 = 5;

/// Open flags: read and write, create the store if absent, and no mutex inside the
/// engine (each handle is used by one thread at a time).
pub const SQLITE_OPEN_READWRITE: i32 = 0x2;
pub const SQLITE_OPEN_CREATE: i32 = 0x4;
pub const SQLITE_OPEN_NOMUTEX: i32 = 0x8000;
pub const OPEN_FLAGS: i32 = SQLITE_OPEN_READWRITE | SQLITE_OPEN_CREATE | SQLITE_OPEN_NOMUTEX;

/// A value crossing the bind/column boundary, as the library's contracts see it.
/// A double travels as its IEEE-754 bit pattern.
pub enum Param {
    Blob(Seq<u8>),
    Double(u64),
    Int(i32),
    Int64(i64),
    Null,
    Text(Seq<char>),
}

/// One native interaction of a prepared statement, as recorded in its log.
pub enum Event {
    /// The native statement was re-armed.
    Reset,
    /// The cursor was advanced and the engine answered with this code.
    Step { code: i32 },
    /// This value was bound at this 1-based position.
    Bind { index: i32, param: Param },
    /// The column at this 0-based position was read and decoded to this value.
    Read { index: i32, param: Param },
}

/// The narrow native call interface of the embedded engine. An implementation
/// forwards each method to the one native call it names; the library assumes
/// nothing of their answers.
pub trait Engine: Sized {
    /// A compiled native statement, finalized when dropped.
    type Handle;

    /// Runs its rollback command when dropped, unless disarmed first. A failure of
    /// that command leaves the connection in an unknown transaction state, and is
    /// fatal.
    type RollbackGuard;

    /// Opens (or creates) the store addressed by `uri` with the given open flags.
    /// Whether this failed is read back through `error_code`.
    fn open(uri: &str, flags: i32) -> Self;

    /// Runs SQL text that binds no parameters.
    fn exec(&self, sql: &str);

    /// The status code of the most recent native call on this connection.
    fn error_code(&self) -> i32;

    /// The message of the most recent failure, if the engine gives one.
    fn error_message(&self) -> Option<String>;

    /// An armed guard that runs `sql` on this connection when dropped.
    fn rollback_guard(&self, sql: &str) -> Self::RollbackGuard;

    /// Disarms `guard`: dropping it then does nothing.
    fn disarm(&self, guard: &mut Self::RollbackGuard);

    /// Compiles `sql` into a native statement.
    fn prepare(&self, sql: &str) -> Self::Handle;

    /// Advances the cursor once and returns the engine's result code.
    fn step(&self, handle: &mut Self::Handle) -> i32;

    /// Re-arms the statement for a fresh execution.
    fn reset(&self, handle: &mut Self::Handle);

    /// Binds a copy of `blob` (the engine keeps no reference to it).
    fn bind_blob(&self, handle: &mut Self::Handle, index: i32, blob: &[u8]);

    /// Binds the double whose bit pattern is `bits`.
    fn bind_double(&self, handle: &mut Self::Handle, index: i32, bits: u64);

    fn bind_int(&self, handle: &mut Self::Handle, index: i32, value: i32);

    fn bind_int64(&self, handle: &mut Self::Handle, index: i32, value: i64);

    fn bind_null(&self, handle: &mut Self::Handle, index: i32);

    /// Binds a copy of the bytes of `text`.
    fn bind_text(&self, handle: &mut Self::Handle, index: i32, text: &str);

    /// The column's bytes, or `None` where the engine returned a null pointer.
    fn column_blob(&self, handle: &Self::Handle, index: i32) -> Option<Vec<u8>>;

    /// The bit pattern of the column read as a double.
    fn column_double(&self, handle: &Self::Handle, index: i32) -> u64;

    fn column_int(&self, handle: &Self::Handle, index: i32) -> i32;

    fn column_int64(&self, handle: &Self::Handle, index: i32) -> i64;

    /// The column's bytes read as text, or `None` where the engine returned a null
    /// pointer.
    fn column_text(&self, handle: &Self::Handle, index: i32) -> Option<Vec<u8>>;

    /// The storage class code of the column.
    fn column_type(&self, handle: &Self::Handle, index: i32) -> i32;
}

} // verus!
