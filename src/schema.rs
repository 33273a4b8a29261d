use vstd::prelude::*;

use crate::engine::Engine;
use crate::thread_safe_connection::ThreadSafeConnection;

verus! {

/// Marks a column that holds text.
pub struct TextColumn {}

/// Marks a column that holds integers.
pub struct IntegerColumn {}

/// The contacts table of a database.
#[verifier::reject_recursive_types(E)]
pub struct Contacts<E: Engine + Send> {
    connection: ThreadSafeConnection<E>,
    pub name: TextColumn,
    pub phone_number: TextColumn,
    pub modified: IntegerColumn,
}

/// A database with its tables.
#[verifier::reject_recursive_types(E)]
pub struct Db<E: Engine + Send> {
    pub contacts: Contacts<E>,
}

impl<E: Engine + Send> Contacts<E> {
    /// The store the table lives in.
    pub closed spec fn store(&self) -> ThreadSafeConnection<E> {
        self.connection
    }

    /// The store the table lives in.
    pub fn connection(&self) -> (r: &ThreadSafeConnection<E>)
        ensures
            *r == self.store(),
    {
        &self.connection
    }
}

impl<E: Engine + Send> Db<E> {
    /// The database persisted at `path`; each thread opens it on first access.
    pub fn new(path: &str) -> (r: Self)
        ensures
            r.contacts.store().uri() == path@,
            r.contacts.store().persistent(),
    {
        Db {
            contacts: Contacts {
                connection: ThreadSafeConnection::new(path, true),
                name: TextColumn {},
                phone_number: TextColumn {},
                modified: IntegerColumn {},
            },
        }
    }
}

} // verus!
