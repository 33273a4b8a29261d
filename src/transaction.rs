use vstd::prelude::*;
use vstd::string::*;

use crate::connection::{text_call_outcome, Connection};
use crate::engine::Engine;
use crate::result::Result;

verus! {

/// The command that opens the savepoint `name`.
pub open spec fn savepoint_sql_of(name: Seq<char>) -> Seq<char> {
    "SAVEPOINT "@ + name
}

/// The command that undoes everything done since the savepoint `name` and closes it.
/// The engine's grammar has no `ROLLBACK <name>`: rolling back to a savepoint is
/// `ROLLBACK TO`, which keeps the savepoint open, so a `RELEASE` follows to close it.
pub open spec fn rollback_sql_of(name: Seq<char>) -> Seq<char> {
    "ROLLBACK TO SAVEPOINT "@ + name + "; RELEASE SAVEPOINT "@ + name
}

/// The command that keeps everything done since the savepoint `name` and closes it.
pub open spec fn release_sql_of(name: Seq<char>) -> Seq<char> {
    "RELEASE SAVEPOINT "@ + name
}

/// The command that opens the savepoint `name`.
pub fn savepoint_sql(name: &str) -> (r: String)
    ensures
        r@ == savepoint_sql_of(name@),
{
    proof {
        reveal_strlit("SAVEPOINT ");
    }
    let mut sql = String::from_str("SAVEPOINT ");
    sql.append(name);
    sql
}

/// The command that rolls the savepoint `name` back and closes it.
pub fn rollback_sql(name: &str) -> (r: String)
    ensures
        r@ == rollback_sql_of(name@),
{
    proof {
        reveal_strlit("ROLLBACK TO SAVEPOINT ");
        reveal_strlit("; RELEASE SAVEPOINT ");
    }
    let mut sql = String::from_str("ROLLBACK TO SAVEPOINT ");
    sql.append(name);
    sql.append("; RELEASE SAVEPOINT ");
    sql.append(name);
    sql
}

/// The command that releases the savepoint `name`.
pub fn release_sql(name: &str) -> (r: String)
    ensures
        r@ == release_sql_of(name@),
{
    proof {
        reveal_strlit("RELEASE SAVEPOINT ");
    }
    let mut sql = String::from_str("RELEASE SAVEPOINT ");
    sql.append(name);
    sql
}

/// An open savepoint on a connection. It is closed by `release`, which keeps its
/// effects, or by `rollback`, which undoes them; a guard dropped without either rolls
/// its savepoint back, through the engine's armed rollback guard.
pub struct Transaction<'a, E: Engine> {
    name: String,
    connection: &'a Connection<E>,
    guard: E::RollbackGuard,
    rollback_command: Ghost<Seq<char>>,
}

impl<'a, E: Engine> Transaction<'a, E> {
    /// The savepoint's name.
    pub closed spec fn name(&self) -> Seq<char> {
        self.name@
    }

    /// The connection the savepoint is open on.
    pub closed spec fn conn(&self) -> &'a Connection<E> {
        self.connection
    }

    /// The command the armed guard runs if the transaction is dropped while open.
    pub closed spec fn rollback_command(&self) -> Seq<char> {
        self.rollback_command@
    }

    /// Opens the savepoint `name` on `connection` at once.
    pub fn save_point(connection: &'a Connection<E>, name: &str) -> (r: Result<Self>)
        ensures
            text_call_outcome(savepoint_sql_of(name@), r),
            r matches Ok(t) ==> t.name() == name@ && t.conn() == connection
                && t.rollback_command() == rollback_sql_of(name@),
    {
        let sql = savepoint_sql(name);
        connection.exec(sql.as_str())?;
        let rollback = rollback_sql(name);
        let guard = connection.engine().rollback_guard(rollback.as_str());
        Ok(
            Transaction {
                name: String::from_str(name),
                connection,
                guard,
                rollback_command: Ghost(rollback@),
            },
        )
    }

    /// Undoes everything done since the savepoint and closes it; the guard is
    /// disarmed first, so the rollback runs once.
    pub fn rollback(self) -> (r: Result<()>)
        ensures
            text_call_outcome(rollback_sql_of(self.name()), r),
    {
        let mut closing = self;
        closing.connection.engine().disarm(&mut closing.guard);
        let sql = rollback_sql(closing.name.as_str());
        closing.connection.exec(sql.as_str())
    }

    /// Keeps everything done since the savepoint and closes it; the guard is disarmed
    /// first, so nothing is rolled back.
    pub fn release(self) -> (r: Result<()>)
        ensures
            text_call_outcome(release_sql_of(self.name()), r),
    {
        let mut closing = self;
        closing.connection.engine().disarm(&mut closing.guard);
        let sql = release_sql(closing.name.as_str());
        closing.connection.exec(sql.as_str())
    }

    /// The connection the savepoint is open on.
    pub fn connection(&self) -> (r: &'a Connection<E>)
        ensures
            r == self.conn(),
    {
        self.connection
    }
}

} // verus!
