use vstd::prelude::*;
use vstd::string::*;

use crate::engine::{Engine, OPEN_FLAGS};
use crate::result::{check_text, engine_failure, has_nul, status_result, Error, Result};
use crate::statement::Statement;

verus! {

/// One live connection to the embedded store. The native connection is closed when
/// the engine value is dropped.
pub struct Connection<E: Engine> {
    engine: E,
    uri: Ghost<Seq<char>>,
}

/// The name under which a shared in-memory store is opened for `identity`.
pub open spec fn memory_uri_of(identity: Seq<char>) -> Seq<char> {
    "file:"@ + identity + "?mode=memory&cache=shared"@
}

/// The result that a failed text check or engine call may give: a NUL error when the
/// text holds a NUL, and otherwise only a failure the engine reported.
pub open spec fn text_call_outcome<T>(text: Seq<char>, r: Result<T>) -> bool {
    &&& has_nul(text) ==> (r is Err && r->Err_0 is NulError)
    &&& (!has_nul(text) && r is Err) ==> engine_failure(r->Err_0)
}

/// The shared-cache in-memory reference named by `identity`.
pub fn memory_uri(identity: &str) -> (r: String)
    ensures
        r@ == memory_uri_of(identity@),
{
    proof {
        reveal_strlit("file:");
        reveal_strlit("?mode=memory&cache=shared");
    }
    let mut uri = String::from_str("file:");
    uri.append(identity);
    uri.append("?mode=memory&cache=shared");
    uri
}

impl<E: Engine> Connection<E> {
    /// The address the connection was opened with.
    pub closed spec fn uri(&self) -> Seq<char> {
        self.uri@
    }

    /// Opens (creating if absent) the persistent store at `uri`.
    pub fn open(uri: &str) -> (r: Result<Self>)
        ensures
            text_call_outcome(uri@, r),
            r matches Ok(c) ==> c.uri() == uri@,
    {
        check_text(uri)?;
        let connection = Connection { engine: E::open(uri, OPEN_FLAGS), uri: Ghost(uri@) };
        connection.last_error()?;
        Ok(connection)
    }

    /// Opens the shared in-memory store named by `identity`: every connection opened
    /// with the same identity sees the same data.
    pub fn open_memory(identity: &str) -> (r: Result<Self>)
        ensures
            text_call_outcome(memory_uri_of(identity@), r),
            r matches Ok(c) ==> c.uri() == memory_uri_of(identity@),
    {
        let uri = memory_uri(identity);
        Self::open(uri.as_str())
    }

    /// Runs SQL text that binds no parameters.
    pub fn exec(&self, query: &str) -> (r: Result<()>)
        ensures
            text_call_outcome(query@, r),
    {
        check_text(query)?;
        self.engine.exec(query);
        self.last_error()
    }

    /// Compiles `query` into a statement that borrows this connection.
    pub fn prepare<'a>(&'a self, query: &str) -> (r: Result<Statement<'a, E>>)
        ensures
            text_call_outcome(query@, r),
            r matches Ok(s) ==> s.is_ready() && s.log() == Seq::<crate::engine::Event>::empty(),
    {
        Statement::prepare(self, query)
    }

    /// The engine's status after the most recent native call: success, or its code
    /// and message.
    pub fn last_error(&self) -> (r: Result<()>)
        ensures
            r is Err ==> engine_failure(r->Err_0),
    {
        let code = self.engine.error_code();
        status_result(code, self.engine.error_message())
    }

    /// The engine behind this connection.
    pub fn engine(&self) -> &E {
        &self.engine
    }
}

} // verus!
