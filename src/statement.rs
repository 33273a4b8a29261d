use vstd::prelude::*;
use vstd::utf8::{decode_utf8, valid_utf8};

use crate::connection::{text_call_outcome, Connection};
use crate::engine::{
    Engine, Event, Param, SQLITE_BLOB, SQLITE_DONE, SQLITE_FLOAT, SQLITE_INTEGER,
    SQLITE_MISUSE, SQLITE_NULL, SQLITE_ROW, SQLITE_TEXT,
};
use crate::bindable::{bind_outcome, column_err, column_ok, read_events, Bind, Column};
use crate::result::{check_text, decode_failure, engine_failure, Error, Result};

verus! {

/// What one step of a statement's cursor produced.
#[derive(Clone, Copy, PartialEq, Eq, Debug, Structural)]
pub enum StepResult {
    Row,
    Done,
    Misuse,
    Other(i32),
}

/// The five storage classes of the engine.
#[derive(Clone, Copy, PartialEq, Eq, Debug, Structural)]
pub enum SqlType {
    Text,
    Integer,
    Blob,
    Float,
    Null,
}

/// The storage class that a column type code stands for.
pub open spec fn sql_type_of(code: i32) -> Option<SqlType> {
    if code == SQLITE_INTEGER {
        Some(SqlType::Integer)
    } else if code == SQLITE_FLOAT {
        Some(SqlType::Float)
    } else if code == SQLITE_TEXT {
        Some(SqlType::Text)
    } else if code == SQLITE_BLOB {
        Some(SqlType::Blob)
    } else if code == SQLITE_NULL {
        Some(SqlType::Null)
    } else {
        None
    }
}

/// Maps a column type code to its storage class, refusing unknown codes.
pub fn sql_type_from_code(code: i32) -> (r: Result<SqlType>)
    ensures
        match sql_type_of(code) {
            Some(t) => r == Ok::<SqlType, Error>(t),
            None => r == Err::<SqlType, Error>(Error::UnknownColumnType { type_code: code }),
        },
{
    if code == SQLITE_INTEGER {
        Ok(SqlType::Integer)
    } else if code == SQLITE_FLOAT {
        Ok(SqlType::Float)
    } else if code == SQLITE_TEXT {
        Ok(SqlType::Text)
    } else if code == SQLITE_BLOB {
        Ok(SqlType::Blob)
    } else if code == SQLITE_NULL {
        Ok(SqlType::Null)
    } else {
        Err(Error::UnknownColumnType { type_code: code })
    }
}

/// The native interaction that a reset makes: none when the statement is ready.
pub open spec fn reset_events(ready: bool) -> Seq<Event> {
    if ready {
        Seq::empty()
    } else {
        seq![Event::Reset]
    }
}

/// What a step returns when the engine answers `code`: the three known codes map to
/// their results; any other is reported as such, unless the engine's status shows a
/// failure.
pub open spec fn step_outcome(code: i32, r: Result<StepResult>) -> bool {
    if code == SQLITE_ROW {
        r == Ok::<StepResult, Error>(StepResult::Row)
    } else if code == SQLITE_DONE {
        r == Ok::<StepResult, Error>(StepResult::Done)
    } else if code == SQLITE_MISUSE {
        r == Ok::<StepResult, Error>(StepResult::Misuse)
    } else {
        r == Ok::<StepResult, Error>(StepResult::Other(code)) || (r is Err && engine_failure(
            r->Err_0,
        ))
    }
}

/// `k` steps that each produced a row.
pub open spec fn row_steps(k: nat) -> Seq<Event> {
    Seq::new(k, |i: int| Event::Step { code: SQLITE_ROW })
}

/// A run from `base` that stepped over `k` rows and stopped at a step answered `code`.
pub open spec fn completed(base: Seq<Event>, k: nat, code: i32) -> Seq<Event> {
    base + row_steps(k) + seq![Event::Step { code }]
}

/// The steps and column reads of an execution that decoded `rows`, one row after another.
pub open spec fn rows_events<R: Column>(rows: Seq<R>) -> Seq<Event>
    decreases rows.len(),
{
    if rows.len() == 0 {
        Seq::empty()
    } else {
        rows_events(rows.drop_last()) + seq![Event::Step { code: SQLITE_ROW }] + read_events(
            0,
            rows.last().column_params(),
        )
    }
}

/// Whether, from `base`, the log holds exactly one step, which reported that the
/// query is done (or misused) without producing a row.
pub open spec fn ended_without_rows(base: Seq<Event>, log: Seq<Event>) -> bool {
    &&& log.len() == base.len() + 1
    &&& log.subrange(0, base.len() as int) == base
    &&& (log.last() == Event::Step { code: SQLITE_DONE } || log.last() == Event::Step {
        code: SQLITE_MISUSE,
    })
}

/// Whether the first interaction after `base` is a step that produced a row.
pub open spec fn opened_with_row(base: Seq<Event>, log: Seq<Event>) -> bool {
    &&& log.len() > base.len()
    &&& log.subrange(0, base.len() as int) == base
    &&& log[base.len() as int] == Event::Step { code: SQLITE_ROW }
}

/// Whether the last recorded interaction is a step that ended the query: done, or
/// misused.
pub open spec fn ends_without_row(log: Seq<Event>) -> bool {
    log.len() > 0 && (log.last() == Event::Step { code: SQLITE_DONE } || log.last() == Event::Step {
        code: SQLITE_MISUSE,
    })
}

/// Whether `after` continues `before`: it holds `before` as a prefix.
pub open spec fn extends(before: Seq<Event>, after: Seq<Event>) -> bool {
    before.len() <= after.len() && after.subrange(0, before.len() as int) == before
}

/// Whether `f`, called on the statement positioned at the first row after `base`,
/// gave `x`.
pub open spec fn callback_called<'a, E: Engine, R, F: FnOnce(&mut Statement<'a, E>) -> Result<R>>(
    base: Seq<Event>,
    f: F,
    x: Result<R>,
) -> bool {
    exists|t: &mut Statement<'a, E>|
        #[trigger] f.ensures((t,), x) && t.log() == base.push(Event::Step { code: SQLITE_ROW })
            && !t.is_ready()
}

/// Whether some state of a callback of type `F`, called on the statement whose log was
/// `at`, gave `x`.
pub open spec fn callback_gave<'a, E: Engine, R, F: FnOnce(&mut Statement<'a, E>) -> Result<R>>(
    at: Seq<Event>,
    x: Result<R>,
) -> bool {
    exists|f: F, t: &mut Statement<'a, E>|
        #[trigger] f.ensures((t,), x) && t.log() == at && !t.is_ready()
}

/// The log at which the callback of the `i`-th row of a mapping from `base` was
/// called: after the previous callback (or the reset), one step that produced a row.
pub open spec fn map_mark(base: Seq<Event>, ends: Seq<Seq<Event>>, i: int) -> Seq<Event> {
    (if i == 0 {
        base
    } else {
        ends[i - 1]
    }).push(Event::Step { code: SQLITE_ROW })
}

/// The first rows of a mapping from `base`: the `i`-th value of `vals` is what the
/// callback gave at the `i`-th row step, which left the log at `ends[i]`, a
/// continuation of the log it was called at; the log is now at `fin`.
pub open spec fn mapped_upto<'a, E: Engine, R, F: FnOnce(&mut Statement<'a, E>) -> Result<R>>(
    base: Seq<Event>,
    ends: Seq<Seq<Event>>,
    vals: Seq<R>,
    fin: Seq<Event>,
) -> bool {
    &&& ends.len() == vals.len()
    &&& forall|i: int|
        0 <= i < vals.len() ==> #[trigger] callback_gave::<'a, E, R, F>(
            map_mark(base, ends, i),
            Ok::<R, Error>(vals[i]),
        ) && extends(map_mark(base, ends, i), ends[i])
    &&& fin == if vals.len() == 0 {
        base
    } else {
        ends.last()
    }
}

/// A whole mapping from `base` that produced `vals`, after which one more step,
/// answered `code`, produced no row and left the log at `fin`.
pub open spec fn mapped<'a, E: Engine, R, F: FnOnce(&mut Statement<'a, E>) -> Result<R>>(
    base: Seq<Event>,
    ends: Seq<Seq<Event>>,
    vals: Seq<R>,
    fin: Seq<Event>,
    code: i32,
) -> bool {
    &&& fin.len() > 0
    &&& mapped_upto::<'a, E, R, F>(base, ends, vals, fin.drop_last())
    &&& fin.last() == (Event::Step { code })
}

/// Some first `n` rows of a mapping from `base`, which left the log at `fin`.
pub open spec fn mapped_rows_upto<'a, E: Engine, R, F: FnOnce(&mut Statement<'a, E>) -> Result<R>>(
    base: Seq<Event>,
    n: nat,
    fin: Seq<Event>,
) -> bool {
    exists|ends: Seq<Seq<Event>>, vals: Seq<R>|
        vals.len() == n && #[trigger] mapped_upto::<'a, E, R, F>(base, ends, vals, fin)
}

/// A mapping from `base` that produced `vals`, one per row step, and ended with a
/// step that produced no row, leaving the log at `fin`.
pub open spec fn mapped_rows<'a, E: Engine, R, F: FnOnce(&mut Statement<'a, E>) -> Result<R>>(
    base: Seq<Event>,
    vals: Seq<R>,
    fin: Seq<Event>,
) -> bool {
    exists|ends: Seq<Seq<Event>>, c: i32|
        c != SQLITE_ROW && #[trigger] mapped::<'a, E, R, F>(base, ends, vals, fin, c)
}

proof fn lemma_extends_opened(base: Seq<Event>, stepped: Seq<Event>, after: Seq<Event>)
    requires
        stepped == base.push(Event::Step { code: SQLITE_ROW }),
        extends(stepped, after),
    ensures
        opened_with_row(base, after),
{
    assert(after[base.len() as int] == stepped[base.len() as int]);
    assert(after.subrange(0, base.len() as int) =~= stepped.subrange(0, base.len() as int));
    assert(stepped.subrange(0, base.len() as int) =~= base);
}

proof fn lemma_reads_keep_end(stepped: Seq<Event>, params: Seq<Param>)
    requires
        stepped.len() > 0,
        stepped.last() == (Event::Step { code: SQLITE_ROW }),
    ensures
        !ends_without_row(stepped + read_events(0, params)),
{
    if params.len() > 0 {
        assert((stepped + read_events(0, params)).last() == read_events(0, params).last());
    } else {
        assert(stepped + read_events(0, params) =~= stepped);
    }
}

/// The bytes a blob column yields for the engine's answer: none reads as empty.
pub fn blob_or_empty(cell: Option<Vec<u8>>) -> (r: Vec<u8>)
    ensures
        match cell {
            Some(v) => r@ == v@,
            None => r@ == Seq::<u8>::empty(),
        },
{
    match cell {
        Some(v) => v,
        None => Vec::new(),
    }
}

/// Relies on `String::from_utf8`: it accepts exactly the bytes that are valid UTF-8,
/// and gives the text they encode.
#[verifier::external_body]
fn utf8_text(bytes: Vec<u8>) -> (r: Option<String>)
    ensures
        r is Some <==> valid_utf8(bytes@),
        r matches Some(s) ==> s@ == decode_utf8(bytes@),
{
    String::from_utf8(bytes).ok()
}

/// The text a text column yields for the engine's answer: no bytes read as empty,
/// and bytes that are not UTF-8 are refused.
pub fn text_from_bytes(cell: Option<Vec<u8>>) -> (r: Result<String>)
    ensures
        match cell {
            None => r matches Ok(s) && s@ == Seq::<char>::empty(),
            Some(b) => if valid_utf8(b@) {
                r matches Ok(s) && s@ == decode_utf8(b@)
            } else {
                r == Err::<String, Error>(Error::InvalidText)
            },
        },
{
    match cell {
        None => Ok(String::new()),
        Some(bytes) => match utf8_text(bytes) {
            Some(text) => Ok(text),
            None => Err(Error::InvalidText),
        },
    }
}

/// One compiled, parameterized SQL command, borrowing its connection.
///
/// A statement is either ready (fresh, or reset since its last step) or stepping.
/// Its log records every native reset, step and bind it made and every column it
/// decoded, in order.
pub struct Statement<'a, E: Engine> {
    handle: E::Handle,
    connection: &'a Connection<E>,
    ready: bool,
    log: Ghost<Seq<Event>>,
}

impl<'a, E: Engine> Statement<'a, E> {
    /// The native interactions made so far.
    pub closed spec fn log(&self) -> Seq<Event> {
        self.log@
    }

    /// Whether no step has advanced the cursor since the statement was prepared or reset.
    pub closed spec fn is_ready(&self) -> bool {
        self.ready
    }

    /// Compiles `query` against `connection`; the statement starts ready.
    pub fn prepare(connection: &'a Connection<E>, query: &str) -> (r: Result<Self>)
        ensures
            text_call_outcome(query@, r),
            r matches Ok(s) ==> s.is_ready() && s.log() == Seq::<Event>::empty(),
    {
        check_text(query)?;
        let handle = connection.engine().prepare(query);
        connection.last_error()?;
        Ok(Statement { handle, connection, ready: true, log: Ghost(Seq::empty()) })
    }

    /// Advances the cursor once. The statement is stepping afterwards, whatever the
    /// answer.
    pub fn step(&mut self) -> (r: Result<StepResult>)
        ensures
            !final(self).is_ready(),
            exists|c: i32|
                final(self).log() == old(self).log().push(Event::Step { code: c })
                    && #[trigger] step_outcome(c, r),
    {
        self.ready = false;
        let code = self.connection.engine().step(&mut self.handle);
        self.log = Ghost(self.log@.push(Event::Step { code }));
        let r = if code == SQLITE_ROW {
            Ok(StepResult::Row)
        } else if code == SQLITE_DONE {
            Ok(StepResult::Done)
        } else if code == SQLITE_MISUSE {
            Ok(StepResult::Misuse)
        } else {
            match self.connection.last_error() {
                Ok(()) => Ok(StepResult::Other(code)),
                Err(e) => Err(e),
            }
        };
        assert(step_outcome(code, r));
        r
    }

    /// Re-arms the statement. A ready statement is left alone, with no native call.
    pub fn reset(&mut self) -> (r: Result<()>)
        ensures
            final(self).is_ready(),
            final(self).log() == old(self).log() + reset_events(old(self).is_ready()),
            old(self).is_ready() ==> r is Ok,
            r is Err ==> engine_failure(r->Err_0),
    {
        if self.ready {
            return Ok(());
        }
        self.connection.engine().reset(&mut self.handle);
        self.log = Ghost(self.log@.push(Event::Reset));
        self.ready = true;
        self.connection.last_error()
    }
    /// Binds a copy of `blob` at the 1-based position `index`; the engine keeps no
    /// reference to it.
    pub fn bind_blob(&mut self, index: i32, blob: &[u8]) -> (r: Result<()>)
        ensures
            final(self).log() == old(self).log().push(Event::Bind { index, param: Param::Blob(blob@) }),
            final(self).is_ready() == old(self).is_ready(),
            r is Err ==> engine_failure(r->Err_0),
    {
        self.connection.engine().bind_blob(&mut self.handle, index, blob);
        self.log = Ghost(self.log@.push(Event::Bind { index, param: Param::Blob(blob@) }));
        self.connection.last_error()
    }

    /// Binds the double whose IEEE-754 bit pattern is `bits` at position `index`.
    pub fn bind_double(&mut self, index: i32, bits: u64) -> (r: Result<()>)
        ensures
            final(self).log() == old(self).log().push(Event::Bind { index, param: Param::Double(bits) }),
            final(self).is_ready() == old(self).is_ready(),
            r is Err ==> engine_failure(r->Err_0),
    {
        self.connection.engine().bind_double(&mut self.handle, index, bits);
        self.log = Ghost(self.log@.push(Event::Bind { index, param: Param::Double(bits) }));
        self.connection.last_error()
    }

    /// Binds a 32-bit integer at position `index`.
    pub fn bind_int(&mut self, index: i32, value: i32) -> (r: Result<()>)
        ensures
            final(self).log() == old(self).log().push(Event::Bind { index, param: Param::Int(value) }),
            final(self).is_ready() == old(self).is_ready(),
            r is Err ==> engine_failure(r->Err_0),
    {
        self.connection.engine().bind_int(&mut self.handle, index, value);
        self.log = Ghost(self.log@.push(Event::Bind { index, param: Param::Int(value) }));
        self.connection.last_error()
    }

    /// Binds a 64-bit integer at position `index`.
    pub fn bind_int64(&mut self, index: i32, value: i64) -> (r: Result<()>)
        ensures
            final(self).log() == old(self).log().push(Event::Bind { index, param: Param::Int64(value) }),
            final(self).is_ready() == old(self).is_ready(),
            r is Err ==> engine_failure(r->Err_0),
    {
        self.connection.engine().bind_int64(&mut self.handle, index, value);
        self.log = Ghost(self.log@.push(Event::Bind { index, param: Param::Int64(value) }));
        self.connection.last_error()
    }

    /// Binds null at position `index`.
    pub fn bind_null(&mut self, index: i32) -> (r: Result<()>)
        ensures
            final(self).log() == old(self).log().push(Event::Bind { index, param: Param::Null }),
            final(self).is_ready() == old(self).is_ready(),
            r is Err ==> engine_failure(r->Err_0),
    {
        self.connection.engine().bind_null(&mut self.handle, index);
        self.log = Ghost(self.log@.push(Event::Bind { index, param: Param::Null }));
        self.connection.last_error()
    }

    /// Binds a copy of the bytes of `text` at position `index`; the engine keeps no
    /// reference to them.
    pub fn bind_text(&mut self, index: i32, text: &str) -> (r: Result<()>)
        ensures
            final(self).log() == old(self).log().push(Event::Bind { index, param: Param::Text(text@) }),
            final(self).is_ready() == old(self).is_ready(),
            r is Err ==> engine_failure(r->Err_0),
    {
        self.connection.engine().bind_text(&mut self.handle, index, text);
        self.log = Ghost(self.log@.push(Event::Bind { index, param: Param::Text(text@) }));
        self.connection.last_error()
    }

    /// The bytes of the column at the 0-based position `index`; a column that the
    /// engine returns no bytes for reads as empty.
    pub fn column_blob(&mut self, index: i32) -> (r: Result<Vec<u8>>)
        ensures
            final(self).is_ready() == old(self).is_ready(),
            match r {
                Ok(v) => final(self).log() == old(self).log().push(
                    Event::Read { index, param: Param::Blob(v@) },
                ),
                Err(e) => final(self).log() == old(self).log() && engine_failure(e),
            },
    {
        let cell = self.connection.engine().column_blob(&self.handle, index);
        self.connection.last_error()?;
        let v = blob_or_empty(cell);
        self.log = Ghost(self.log@.push(Event::Read { index, param: Param::Blob(v@) }));
        Ok(v)
    }

    /// The bit pattern of the column at `index` read as a double.
    pub fn column_double(&mut self, index: i32) -> (r: Result<u64>)
        ensures
            final(self).is_ready() == old(self).is_ready(),
            match r {
                Ok(v) => final(self).log() == old(self).log().push(
                    Event::Read { index, param: Param::Double(v) },
                ),
                Err(e) => final(self).log() == old(self).log() && engine_failure(e),
            },
    {
        let v = self.connection.engine().column_double(&self.handle, index);
        self.connection.last_error()?;
        self.log = Ghost(self.log@.push(Event::Read { index, param: Param::Double(v) }));
        Ok(v)
    }

    /// The column at `index` read as a 32-bit integer.
    pub fn column_int(&mut self, index: i32) -> (r: Result<i32>)
        ensures
            final(self).is_ready() == old(self).is_ready(),
            match r {
                Ok(v) => final(self).log() == old(self).log().push(
                    Event::Read { index, param: Param::Int(v) },
                ),
                Err(e) => final(self).log() == old(self).log() && engine_failure(e),
            },
    {
        let v = self.connection.engine().column_int(&self.handle, index);
        self.connection.last_error()?;
        self.log = Ghost(self.log@.push(Event::Read { index, param: Param::Int(v) }));
        Ok(v)
    }

    /// The column at `index` read as a 64-bit integer.
    pub fn column_int64(&mut self, index: i32) -> (r: Result<i64>)
        ensures
            final(self).is_ready() == old(self).is_ready(),
            match r {
                Ok(v) => final(self).log() == old(self).log().push(
                    Event::Read { index, param: Param::Int64(v) },
                ),
                Err(e) => final(self).log() == old(self).log() && engine_failure(e),
            },
    {
        let v = self.connection.engine().column_int64(&self.handle, index);
        self.connection.last_error()?;
        self.log = Ghost(self.log@.push(Event::Read { index, param: Param::Int64(v) }));
        Ok(v)
    }

    /// The text of the column at `index`; a column that the engine returns no text
    /// for reads as empty, and bytes that are not UTF-8 are refused.
    pub fn column_text(&mut self, index: i32) -> (r: Result<String>)
        ensures
            final(self).is_ready() == old(self).is_ready(),
            match r {
                Ok(v) => final(self).log() == old(self).log().push(
                    Event::Read { index, param: Param::Text(v@) },
                ),
                Err(e) => final(self).log() == old(self).log() && (engine_failure(e) || e is InvalidText),
            },
    {
        let cell = self.connection.engine().column_text(&self.handle, index);
        self.connection.last_error()?;
        let v = text_from_bytes(cell)?;
        self.log = Ghost(self.log@.push(Event::Read { index, param: Param::Text(v@) }));
        Ok(v)
    }

    /// The storage class of the column at `index`.
    pub fn column_type(&mut self, index: i32) -> (r: Result<SqlType>)
        ensures
            final(self).is_ready() == old(self).is_ready(),
            final(self).log() == old(self).log(),
            r matches Err(e) ==> (engine_failure(e) || e is UnknownColumnType),
    {
        let code = self.connection.engine().column_type(&self.handle, index);
        self.connection.last_error()?;
        sql_type_from_code(code)
    }
    /// Binds `value` from position 1 on, each of its values at its own position, in order.
    pub fn bind<T: Bind>(&mut self, value: T) -> (r: Result<()>)
        requires
            1 + value.bind_params().len() <= i32::MAX,
        ensures
            final(self).is_ready() == old(self).is_ready(),
            match r {
                Ok(_) => bind_outcome(
                    old(self).log(),
                    final(self).log(),
                    1,
                    value.bind_params(),
                    Ok((1 + value.bind_params().len()) as i32),
                ),
                Err(e) => bind_outcome(old(self).log(), final(self).log(), 1, value.bind_params(), Err(e)),
            },
    {
        match value.bind(self, 1) {
            Ok(_) => Ok(()),
            Err(e) => Err(e),
        }
    }

    /// Decodes one value of the current row from column 0 on.
    pub fn column<T: Column>(&mut self) -> (r: Result<T>)
        requires
            T::width() <= i32::MAX,
        ensures
            final(self).is_ready() == old(self).is_ready(),
            match r {
                Ok(v) => column_ok(
                    old(self).log(),
                    final(self).log(),
                    0,
                    T::width(),
                    v.column_params(),
                    T::width() as i32,
                ),
                Err(e) => column_err(old(self).log(), final(self).log(), 0, T::width(), e),
            },
    {
        let (v, _) = T::column(self, 0)?;
        Ok(v)
    }

    /// Resets the statement, then binds `value` from position 1 on.
    pub fn bound<T: Bind>(&mut self, value: T) -> (r: Result<&mut Self>)
        requires
            1 + value.bind_params().len() <= i32::MAX,
        ensures
            r matches Err(e) ==> (engine_failure(e) && final(self).log() == old(self).log()
                + reset_events(old(self).is_ready())) || bind_outcome(
                old(self).log() + reset_events(old(self).is_ready()),
                final(self).log(),
                1,
                value.bind_params(),
                Err(e),
            ),
            r matches Ok(s) ==> s.is_ready() && bind_outcome(
                old(self).log() + reset_events(old(self).is_ready()),
                s.log(),
                1,
                value.bind_params(),
                Ok((1 + value.bind_params().len()) as i32),
            ),
    {
        self.reset()?;
        match self.bind(value) {
            Ok(()) => Ok(self),
            Err(e) => Err(e),
        }
    }

    /// Resets the statement and steps it to completion, discarding its rows.
    pub fn run(&mut self) -> (r: Result<()>)
        ensures
            r is Ok ==> !final(self).is_ready() && exists|k: nat, c: i32|
                c != SQLITE_ROW && final(self).log() == #[trigger] completed(
                    old(self).log() + reset_events(old(self).is_ready()),
                    k,
                    c,
                ),
            ends_without_row(final(self).log()) ==> r is Ok,
            r matches Err(e) ==> engine_failure(e) || e is StepLimit,
            r matches Err(e) ==> e is StepLimit || (!old(self).is_ready() && final(self).log() == old(
                self,
            ).log() + reset_events(old(self).is_ready())) || exists|k: nat, c: i32|
                final(self).log() == #[trigger] completed(
                    old(self).log() + reset_events(old(self).is_ready()),
                    k,
                    c,
                ) && step_outcome(c, Err::<StepResult, Error>(e)),
            r matches Err(Error::StepLimit) ==> !final(self).is_ready() && final(self).log() == old(
                self,
            ).log() + reset_events(old(self).is_ready()) + row_steps(usize::MAX as nat),
    {
        let reset = self.reset();
        if reset.is_err() {
            proof {
                assert(!old(self).is_ready());
                assert(self.log().last() == Event::Reset);
            }
            return reset;
        }
        let ghost base = self.log();
        let mut count: usize = 0;
        loop
            invariant
                base == old(self).log() + reset_events(old(self).is_ready()),
                self.log() == base + row_steps(count as nat),
                count > 0 ==> !self.is_ready() && self.log().last() == (Event::Step { code: SQLITE_ROW }),
            decreases usize::MAX - count,
        {
            if count == usize::MAX {
                return Err(Error::StepLimit);
            }
            let ghost before = self.log();
            let step = self.step();
            match step {
                Ok(StepResult::Row) => {
                    count = count + 1;
                    assert(self.log() =~= base + row_steps(count as nat));
                },
                Ok(_) => {
                    proof {
                        let c = choose|c: i32|
                            self.log() == before.push(Event::Step { code: c }) && #[trigger] step_outcome(c, step);
                        assert(self.log() =~= completed(base, count as nat, c));
                    }
                    return Ok(());
                },
                Err(e) => {
                    proof {
                        let c = choose|c: i32|
                            self.log() == before.push(Event::Step { code: c }) && #[trigger] step_outcome(c, step);
                        assert(self.log().last() == Event::Step { code: c });
                        assert(self.log() =~= completed(base, count as nat, c));
                    }
                    return Err(e);
                },
            }
        }
    }

    /// Resets the statement, steps it while it yields rows and decodes each row as an
    /// `R`, in the order the engine produces them.
    pub fn rows<R: Column>(&mut self) -> (r: Result<Vec<R>>)
        requires
            R::width() <= i32::MAX,
        ensures
            r matches Ok(v) ==> !final(self).is_ready() && exists|c: i32|
                c != SQLITE_ROW && final(self).log() == old(self).log() + reset_events(
                    old(self).is_ready(),
                ) + rows_events(v@) + #[trigger] seq![Event::Step { code: c }],
            ended_without_rows(old(self).log() + reset_events(old(self).is_ready()), final(self).log())
                ==> (r matches Ok(v) && v@.len() == 0),
            ends_without_row(final(self).log()) ==> r is Ok,
            r matches Err(e) ==> decode_failure(e) || e is StepLimit,
            r matches Err(Error::StepLimit) ==> exists|rs: Seq<R>|
                rs.len() == usize::MAX && final(self).log() == old(self).log() + reset_events(
                    old(self).is_ready(),
                ) + #[trigger] rows_events(rs),
    {
        let reset = self.reset();
        if reset.is_err() {
            proof {
                assert(self.log().last() == Event::Reset);
            }
            return Err(reset.unwrap_err());
        }
        let ghost base = self.log();
        let mut results: Vec<R> = Vec::new();
        proof {
            assert(base + rows_events(results@) =~= base);
        }
        loop
            invariant
                base == old(self).log() + reset_events(old(self).is_ready()),
                self.log() == base + rows_events(results@),
                results@.len() == 0 ==> self.log() == base,
                results@.len() > 0 ==> opened_with_row(base, self.log()) && !self.is_ready()
                    && !ends_without_row(self.log()),
                R::width() <= i32::MAX,
            decreases usize::MAX - results.len(),
        {
            if results.len() == usize::MAX {
                return Err(Error::StepLimit);
            }
            let ghost before = self.log();
            let step = self.step();
            match step {
                Ok(StepResult::Row) => {
                    let ghost stepped = self.log();
                    proof {
                        assert(stepped.last() == Event::Step { code: SQLITE_ROW });
                    }
                    let col = self.column::<R>();
                    proof {
                        assert(stepped[base.len() as int] == Event::Step { code: SQLITE_ROW });
                        assert(stepped.subrange(0, base.len() as int) =~= base);
                        assert(self.log().subrange(0, base.len() as int) =~= stepped.subrange(0, base.len() as int));
                        if col is Ok {
                            lemma_reads_keep_end(stepped, col->Ok_0.column_params());
                        } else {
                            let done = choose|done: Seq<Param>|
                                done.len() <= R::width() && self.log() == stepped + read_events(0, done);
                            lemma_reads_keep_end(stepped, done);
                        }
                    }
                    let v = match col {
                        Ok(v) => v,
                        Err(e) => {
                            return Err(e);
                        },
                    };
                    let ghost prev = results@;
                    results.push(v);
                    proof {
                        assert(results@.drop_last() =~= prev);
                        assert(self.log() =~= base + rows_events(results@));
                    }
                },
                Ok(_) => {
                    proof {
                        let c = choose|c: i32|
                            self.log() == before.push(Event::Step { code: c }) && #[trigger] step_outcome(c, step);
                        assert(self.log() =~= base + rows_events(results@) + seq![Event::Step { code: c }]);
                        if results@.len() > 0 {
                            assert(self.log()[base.len() as int] == before[base.len() as int]);
                        }
                    }
                    return Ok(results);
                },
                Err(e) => {
                    proof {
                        let c = choose|c: i32|
                            self.log() == before.push(Event::Step { code: c }) && #[trigger] step_outcome(c, step);
                        assert(self.log().last() == Event::Step { code: c });
                        if results@.len() > 0 {
                            assert(self.log()[base.len() as int] == before[base.len() as int]);
                        }
                    }
                    return Err(e);
                },
            }
        }
    }

    /// Resets the statement, steps it once and decodes that row as an `R`; further
    /// rows are left alone. A query without rows is an error.
    pub fn row<R: Column>(&mut self) -> (r: Result<R>)
        requires
            R::width() <= i32::MAX,
        ensures
            r matches Ok(v) ==> final(self).log() == old(self).log() + reset_events(
                old(self).is_ready(),
            ) + seq![Event::Step { code: SQLITE_ROW }] + read_events(0, v.column_params()),
            ended_without_rows(old(self).log() + reset_events(old(self).is_ready()), final(self).log())
                ==> r == Err::<R, Error>(Error::NoRows),
            r matches Err(Error::NoRows) ==> exists|c: i32|
                c != SQLITE_ROW && final(self).log() == old(self).log() + reset_events(
                    old(self).is_ready(),
                ) + #[trigger] seq![Event::Step { code: c }],
            r matches Err(e) ==> decode_failure(e) || e is NoRows,
    {
        match self.maybe_row::<R>() {
            Ok(Some(v)) => Ok(v),
            Ok(None) => Err(Error::NoRows),
            Err(e) => Err(e),
        }
    }

    /// Like `row`, but a query without rows gives `None`.
    pub fn maybe_row<R: Column>(&mut self) -> (r: Result<Option<R>>)
        requires
            R::width() <= i32::MAX,
        ensures
            r matches Ok(Some(v)) ==> final(self).log() == old(self).log() + reset_events(
                old(self).is_ready(),
            ) + seq![Event::Step { code: SQLITE_ROW }] + read_events(0, v.column_params()),
            ended_without_rows(old(self).log() + reset_events(old(self).is_ready()), final(self).log())
                ==> r == Ok::<Option<R>, Error>(None),
            r matches Ok(None) ==> exists|c: i32|
                c != SQLITE_ROW && final(self).log() == old(self).log() + reset_events(
                    old(self).is_ready(),
                ) + #[trigger] seq![Event::Step { code: c }],
            r matches Err(e) ==> decode_failure(e),
    {
        self.reset()?;
        let ghost base = self.log();
        let step = self.step()?;
        match step {
            StepResult::Row => {
                let ghost stepped = self.log();
                let v = self.column::<R>()?;
                proof {
                    assert(stepped =~= base + seq![Event::Step { code: SQLITE_ROW }]);
                    assert(self.log().len() >= base.len() + 1);
                    assert(self.log()[base.len() as int] == stepped[base.len() as int]);
                }
                Ok(Some(v))
            },
            _ => {
                proof {
                    let c = choose|c: i32|
                        self.log() == base.push(Event::Step { code: c }) && #[trigger] step_outcome(c, Ok(step));
                    assert(self.log() =~= base + seq![Event::Step { code: c }]);
                }
                Ok(None)
            },
        }
    }

    /// Resets the statement, steps it once and, when that step produced a row, hands
    /// the statement to `callback` and returns what it gives; further rows are left
    /// alone. A query without rows is an error, and `callback` is then not called.
    ///
    /// `callback` must only add to the log of the statement it is handed: it may read
    /// and step the statement, but not put another one in its place. Every method of
    /// `Statement` keeps to this; a closure that relies on it states so in its
    /// `ensures`.
    pub fn single<R, F: FnOnce(&mut Statement<'a, E>) -> Result<R>>(&mut self, callback: F) -> (r:
        Result<R>)
        requires
            forall|s: &mut Statement<'a, E>| #[trigger] callback.requires((s,)),
            forall|t: &mut Statement<'a, E>, x: Result<R>| #[trigger] callback.ensures((t,), x) ==> extends(t.log(), final(t).log()),
        ensures
            ended_without_rows(old(self).log() + reset_events(old(self).is_ready()), final(self).log())
                ==> r == Err::<R, Error>(Error::NoRows),
            r is Ok ==> opened_with_row(old(self).log() + reset_events(old(self).is_ready()), final(self).log())
                && callback_called(
                old(self).log() + reset_events(old(self).is_ready()),
                callback,
                r,
            ),
            r matches Err(e) ==> (engine_failure(e) && ((!old(self).is_ready() && final(self).log() == old(self).log()
                + reset_events(old(self).is_ready())) || exists|c: i32|
                final(self).log() == old(self).log() + reset_events(old(self).is_ready()) + seq![
                    Event::Step { code: c },
                ] && #[trigger] step_outcome(c, Err::<StepResult, Error>(e)))) || (e is NoRows && exists|c: i32|
                c != SQLITE_ROW && final(self).log() == old(self).log() + reset_events(
                    old(self).is_ready(),
                ) + #[trigger] seq![Event::Step { code: c }]) || callback_called(
                old(self).log() + reset_events(old(self).is_ready()),
                callback,
                r,
            ),
    {
        match self.maybe(callback) {
            Ok(Some(v)) => Ok(v),
            Ok(None) => Err(Error::NoRows),
            Err(e) => Err(e),
        }
    }

    /// Like `single`, but a query without rows gives `None`.
    ///
    /// `callback` must only add to the log of the statement it is handed: it may read
    /// and step the statement, but not put another one in its place. Every method of
    /// `Statement` keeps to this; a closure that relies on it states so in its
    /// `ensures`.
    pub fn maybe<R, F: FnOnce(&mut Statement<'a, E>) -> Result<R>>(&mut self, callback: F) -> (r:
        Result<Option<R>>)
        requires
            forall|s: &mut Statement<'a, E>| #[trigger] callback.requires((s,)),
            forall|t: &mut Statement<'a, E>, x: Result<R>| #[trigger] callback.ensures((t,), x) ==> extends(t.log(), final(t).log()),
        ensures
            ended_without_rows(old(self).log() + reset_events(old(self).is_ready()), final(self).log())
                ==> r == Ok::<Option<R>, Error>(None),
            r matches Ok(None) ==> exists|c: i32|
                c != SQLITE_ROW && final(self).log() == old(self).log() + reset_events(
                    old(self).is_ready(),
                ) + #[trigger] seq![Event::Step { code: c }],
            r matches Ok(Some(v)) ==> opened_with_row(
                old(self).log() + reset_events(old(self).is_ready()),
                final(self).log(),
            ) && callback_called(
                old(self).log() + reset_events(old(self).is_ready()),
                callback,
                Ok::<R, Error>(v),
            ),
            r matches Err(e) ==> (engine_failure(e) && ((!old(self).is_ready() && final(self).log() == old(self).log()
                + reset_events(old(self).is_ready())) || exists|c: i32|
                final(self).log() == old(self).log() + reset_events(old(self).is_ready()) + seq![
                    Event::Step { code: c },
                ] && #[trigger] step_outcome(c, Err::<StepResult, Error>(e)))) || callback_called(
                old(self).log() + reset_events(old(self).is_ready()),
                callback,
                Err::<R, Error>(e),
            ),
    {
        let reset = self.reset();
        if reset.is_err() {
            return Err(reset.unwrap_err());
        }
        let ghost base = self.log();
        let stepped_or_failed = self.step();
        let step = match stepped_or_failed {
            Ok(step) => step,
            Err(e) => {
                proof {
                    let c = choose|c: i32|
                        self.log() == base.push(Event::Step { code: c }) && #[trigger] step_outcome(c, stepped_or_failed);
                    assert(self.log() =~= base + seq![Event::Step { code: c }]);
                }
                return Err(e);
            },
        };
        match step {
            StepResult::Row => {
                let ghost stepped = self.log();
                let x = callback(self);
                proof {
                    assert(stepped =~= base.push(Event::Step { code: SQLITE_ROW }));
                    lemma_extends_opened(base, stepped, self.log());
                }
                match x {
                    Ok(v) => Ok(Some(v)),
                    Err(e) => Err(e),
                }
            },
            _ => {
                proof {
                    let c = choose|c: i32|
                        self.log() == base.push(Event::Step { code: c }) && #[trigger] step_outcome(c, Ok(step));
                    assert(self.log() =~= base + seq![Event::Step { code: c }]);
                }
                Ok(None)
            },
        }
    }

    /// Resets the statement and steps it while it yields rows, handing it to
    /// `callback` at each row; the callback's results are collected in row order. A
    /// callback error is returned at once, with no further step.
    ///
    /// `callback` must only add to the log of the statement it is handed: it may read
    /// and step the statement, but not put another one in its place. Every method of
    /// `Statement` keeps to this; a closure that relies on it states so in its
    /// `ensures`.
    pub fn map<R, F: FnMut(&mut Statement<'a, E>) -> Result<R>>(&mut self, mut callback: F) -> (r:
        Result<Vec<R>>)
        requires
            forall|f: F, s: &mut Statement<'a, E>| #[trigger] f.requires((s,)),
            forall|f: F, t: &mut Statement<'a, E>, x: Result<R>| #[trigger] f.ensures((t,), x) ==> extends(t.log(), final(t).log()),
        ensures
            r is Ok ==> !final(self).is_ready(),
            r matches Ok(v) ==> mapped_rows::<'a, E, R, F>(
                old(self).log() + reset_events(old(self).is_ready()),
                v@,
                final(self).log(),
            ),
            ended_without_rows(old(self).log() + reset_events(old(self).is_ready()), final(self).log())
                ==> (r matches Ok(v) && v@.len() == 0),
            r matches Err(e) ==> (exists|n: nat, at: Seq<Event>, f: F, t: &mut Statement<'a, E>|
                #[trigger] mapped_rows_upto::<'a, E, R, F>(
                    old(self).log() + reset_events(old(self).is_ready()),
                    n,
                    at,
                ) && #[trigger] f.ensures((t,), Err::<R, Error>(e)) && t.log() == at.push(
                    Event::Step { code: SQLITE_ROW },
                ) && !t.is_ready() && final(t).log() == final(self).log()) || (e is StepLimit
                && mapped_rows_upto::<'a, E, R, F>(
                old(self).log() + reset_events(old(self).is_ready()),
                usize::MAX as nat,
                final(self).log(),
            )) || (engine_failure(e) && ((!old(self).is_ready() && final(self).log() == old(
                self,
            ).log() + reset_events(old(self).is_ready())) || (final(self).log().len() > 0
                && exists|n: nat, c: i32|
                #[trigger] mapped_rows_upto::<'a, E, R, F>(
                    old(self).log() + reset_events(old(self).is_ready()),
                    n,
                    final(self).log().drop_last(),
                ) && final(self).log().last() == (Event::Step { code: c }) && #[trigger] step_outcome(
                    c,
                    Err::<StepResult, Error>(e),
                )))),
    {
        let mut results: Vec<R> = Vec::new();
        let reset = self.reset();
        if reset.is_err() {
            return Err(reset.unwrap_err());
        }
        let ghost base = self.log();
        let ghost mut ends: Seq<Seq<Event>> = Seq::empty();
        loop
            invariant
                base == old(self).log() + reset_events(old(self).is_ready()),
                mapped_upto::<'a, E, R, F>(base, ends, results@, self.log()),
                results@.len() > 0 ==> opened_with_row(base, self.log()),
                forall|f: F, s: &mut Statement<'a, E>| #[trigger] f.requires((s,)),
                forall|f: F, t: &mut Statement<'a, E>, x: Result<R>| #[trigger] f.ensures((t,), x) ==> extends(t.log(), final(t).log()),
            decreases usize::MAX - results.len(),
        {
            if results.len() == usize::MAX {
                proof {
                    assert(mapped_rows_upto::<'a, E, R, F>(base, usize::MAX as nat, self.log()));
                }
                return Err(Error::StepLimit);
            }
            let ghost before = self.log();
            let stepped_or_failed = self.step();
            let step = match stepped_or_failed {
                Ok(step) => step,
                Err(e) => {
                    proof {
                        let c = choose|c: i32|
                            self.log() == before.push(Event::Step { code: c }) && #[trigger] step_outcome(c, stepped_or_failed);
                        assert(self.log().drop_last() =~= before);
                        assert(mapped_rows_upto::<'a, E, R, F>(base, results@.len() as nat, self.log().drop_last()));
                    }
                    return Err(e);
                },
            };
            match step {
                StepResult::Row => {
                    let ghost stepped = self.log();
                    assert(forall|k: int|
                        0 <= k < results@.len() ==> #[trigger] callback_gave::<'a, E, R, F>(
                            map_mark(base, ends, k),
                            Ok::<R, Error>(results@[k]),
                        ) && extends(map_mark(base, ends, k), ends[k]));
                    let x = callback(self);
                    proof {
                        assert(mapped_upto::<'a, E, R, F>(base, ends, results@, before));
                        assert(stepped == map_mark(base, ends, results@.len() as int));
                        assert(callback_gave::<'a, E, R, F>(stepped, x));
                        assert(extends(stepped, self.log()));
                        if results@.len() == 0 {
                            lemma_extends_opened(base, stepped, self.log());
                        } else {
                            assert(extends(stepped, self.log()));
                            assert(self.log()[base.len() as int] == stepped[base.len() as int]);
                            assert(self.log().subrange(0, base.len() as int) =~= stepped.subrange(0, base.len() as int));
                            assert(stepped.subrange(0, base.len() as int) =~= before.subrange(0, base.len() as int));
                        }
                    }
                    match x {
                        Ok(v) => {
                            let ghost old_ends = ends;
                            let ghost prev = results@;
                            results.push(v);
                            proof {
                                ends = ends.push(self.log());
                                assert(ends.last() == self.log());
                                assert forall|k: int| 0 <= k < results@.len() implies #[trigger] callback_gave::<'a, E, R, F>(
                                    map_mark(base, ends, k),
                                    Ok::<R, Error>(results@[k]),
                                ) && extends(map_mark(base, ends, k), ends[k]) by {
                                    if k < prev.len() {
                                        assert(map_mark(base, ends, k) == map_mark(base, old_ends, k));
                                        assert(results@[k] == prev[k]);
                                        assert(ends[k] == old_ends[k]);
                                        assert(callback_gave::<'a, E, R, F>(
                                            map_mark(base, old_ends, k),
                                            Ok::<R, Error>(prev[k]),
                                        ) && extends(map_mark(base, old_ends, k), old_ends[k]));
                                    } else {
                                        assert(map_mark(base, ends, k) == stepped);
                                        assert(results@[k] == v);
                                        assert(x == Ok::<R, Error>(v));
                                        assert(ends[k] == self.log());
                                    }
                                }
                            }
                        },
                        Err(e) => {
                            proof {
                                assert(mapped_rows_upto::<'a, E, R, F>(base, results@.len() as nat, before));
                            }
                            return Err(e);
                        },
                    }
                },
                _ => {
                    proof {
                        let c = choose|c: i32|
                            self.log() == before.push(Event::Step { code: c }) && #[trigger] step_outcome(c, Ok(step));
                        assert(self.log().drop_last() =~= before);
                        assert(mapped::<'a, E, R, F>(base, ends, results@, self.log(), c));
                        assert(c != SQLITE_ROW);
                        assert(mapped_rows::<'a, E, R, F>(base, results@, self.log()));
                        if results@.len() > 0 {
                            assert(self.log()[base.len() as int] == before[base.len() as int]);
                        }
                    }
                    return Ok(results);
                },
            }
        }
    }
}

/// Resetting twice in a row, with no step between, makes no native call the second
/// time and leaves the statement ready: the first reset leaves it ready, and a reset
/// of a ready statement adds nothing to its log.
pub proof fn reset_is_idempotent(ready: bool, log: Seq<Event>)
    ensures
        reset_events(true) == Seq::<Event>::empty(),
        log + reset_events(ready) + reset_events(true) == log + reset_events(ready),
{
    assert(log + reset_events(ready) + reset_events(true) =~= log + reset_events(ready));
}

/// An execution that decoded `rows` stepped once per row, each step producing a row.
pub proof fn one_step_per_row<R: Column>(rows: Seq<R>)
    ensures
        step_count(rows_events(rows)) == rows.len(),
    decreases rows.len(),
{
    if rows.len() > 0 {
        let last = rows.last().column_params();
        one_step_per_row(rows.drop_last());
        lemma_step_count_concat(rows_events(rows.drop_last()), seq![Event::Step { code: SQLITE_ROW }]);
        lemma_step_count_concat(
            rows_events(rows.drop_last()) + seq![Event::Step { code: SQLITE_ROW }],
            read_events(0, last),
        );
        lemma_no_steps_in_reads(0, last);
        let one = seq![Event::Step { code: SQLITE_ROW }];
        assert(one.drop_last() =~= Seq::<Event>::empty());
        assert(step_count(one.drop_last()) == 0);
        assert(step_count(one) == 1);
    }
}

/// The number of steps in a log.
pub open spec fn step_count(log: Seq<Event>) -> nat
    decreases log.len(),
{
    if log.len() == 0 {
        0
    } else {
        step_count(log.drop_last()) + if log.last() is Step {
            1nat
        } else {
            0nat
        }
    }
}

proof fn lemma_step_count_concat(a: Seq<Event>, b: Seq<Event>)
    ensures
        step_count(a + b) == step_count(a) + step_count(b),
    decreases b.len(),
{
    if b.len() > 0 {
        assert((a + b).drop_last() =~= a + b.drop_last());
        lemma_step_count_concat(a, b.drop_last());
    } else {
        assert(a + b =~= a);
    }
}

proof fn lemma_no_steps_in_reads(start: int, params: Seq<Param>)
    ensures
        step_count(read_events(start, params)) == 0,
    decreases params.len(),
{
    if params.len() > 0 {
        assert(read_events(start, params).drop_last() =~= read_events(start, params.drop_last()));
        lemma_no_steps_in_reads(start, params.drop_last());
    }
}

/// Two runs of `rows` from one log that both ended at a step without a row and left
/// the same log decoded the same rows: as many, from the same column reads.
pub proof fn rows_are_those_logged<R: Column>(
    base: Seq<Event>,
    v: Seq<R>,
    rs: Seq<R>,
    c: i32,
    d: i32,
)
    requires
        base + rows_events(v) + seq![Event::Step { code: c }] == base + rows_events(rs) + seq![
            Event::Step { code: d },
        ],
    ensures
        rows_events(v) == rows_events(rs),
        v.len() == rs.len(),
        c == d,
{
    let a = base + rows_events(v) + seq![Event::Step { code: c }];
    let b = base + rows_events(rs) + seq![Event::Step { code: d }];
    assert(a.last() == b.last());
    assert(rows_events(v) =~= a.subrange(base.len() as int, a.len() - 1));
    assert(rows_events(rs) =~= b.subrange(base.len() as int, b.len() - 1));
    one_step_per_row(v);
    one_step_per_row(rs);
}

} // verus!
