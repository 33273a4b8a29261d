use std::sync::Arc;

use thread_local::ThreadLocal;
use vstd::prelude::*;

use crate::connection::{memory_uri_of, text_call_outcome, Connection};
use crate::engine::Engine;
use crate::result::Result;

verus! {

#[verifier::external_type_specification]
#[verifier::external_body]
#[verifier::reject_recursive_types(T)]
pub struct ExThreadLocal<T: Send>(ThreadLocal<T>);

/// Relies on `thread_local::ThreadLocal::new`: a registry that holds no value for any
/// thread yet.
#[verifier::external_body]
fn new_registry<T: Send>() -> ThreadLocal<T> {
    ThreadLocal::new()
}

/// One value per thread, each of which satisfies the registry's invariant `inv`.
/// A registry is only ever made shared (`Registry::shared`), and nothing gives mutable
/// access to what an `Arc` holds, so `inv` is fixed before any value enters it.
/// Values enter only through `thread_value`, whose creators must establish `inv`.
#[verifier::reject_recursive_types(T)]
pub struct Registry<T: Send> {
    slots: ThreadLocal<T>,
    inv: Ghost<spec_fn(T) -> bool>,
}

impl<T: Send> Registry<T> {
    /// What every value in the registry satisfies.
    pub closed spec fn inv(&self) -> spec_fn(T) -> bool {
        self.inv@
    }

    /// An empty shared registry whose values are to satisfy `inv`.
    fn shared(Ghost(inv): Ghost<spec_fn(T) -> bool>) -> (r: Arc<Self>)
        ensures
            r.inv() == inv,
    {
        Arc::new(Registry { slots: new_registry(), inv: Ghost(inv) })
    }
}

/// Relies on `thread_local::ThreadLocal::get_or`: the calling thread's value, which a
/// creator made on the thread's first access and which is kept from then on. The
/// registry is shared, so its invariant has not changed since it was made empty, and
/// every value in it was made by a creator handed to this function, which had to
/// establish that invariant. Which value comes back depends on the calling thread,
/// so nothing more is stated of it.
#[verifier::external_body]
fn thread_value<'r, T: Send, F: FnOnce() -> T>(registry: &'r Arc<Registry<T>>, create: F) -> (r: &'r T)
    requires
        create.requires(()),
        forall|t: T| #[trigger] create.ensures((), t) ==> (registry.inv())(t),
    ensures
        (registry.inv())(*r),
{
    registry.slots.get_or(create)
}

/// What opening a connection for one thread gives: the store at `uri` when it is
/// persistent, otherwise the shared in-memory store named by `uri`.
pub open spec fn thread_open_outcome<E: Engine>(uri: Seq<char>, persistent: bool, r: Result<Connection<E>>) -> bool {
    let address = if persistent {
        uri
    } else {
        memory_uri_of(uri)
    };
    text_call_outcome(address, r) && (r matches Ok(c) ==> c.uri() == address)
}

/// Opens the connection of one thread. A failure is kept and reported, never
/// replaced by another store.
pub fn open_for_thread<E: Engine>(uri: &str, persistent: bool) -> (r: Result<Connection<E>>)
    ensures
        thread_open_outcome(uri@, persistent, r),
{
    if persistent {
        Connection::open(uri)
    } else {
        Connection::open_memory(uri)
    }
}

/// One logical store shared by many threads, each of which gets its own connection,
/// opened on its first access. Clones share the per-thread registry.
#[verifier::reject_recursive_types(E)]
pub struct ThreadSafeConnection<E: Engine + Send> {
    uri: String,
    persistent: bool,
    connections: Arc<Registry<Result<Connection<E>>>>,
}

impl<E: Engine + Send> ThreadSafeConnection<E> {
    /// The identity of the store.
    pub closed spec fn uri(&self) -> Seq<char> {
        self.uri@
    }

    /// Whether threads open the store at `uri` rather than the shared in-memory one.
    pub closed spec fn persistent(&self) -> bool {
        self.persistent
    }

    /// The registry of per-thread connections.
    pub closed spec fn registry(&self) -> Arc<Registry<Result<Connection<E>>>> {
        self.connections
    }

    /// Every connection in the registry was opened for this store and policy.
    #[verifier::type_invariant]
    spec fn registry_holds_this_store(&self) -> bool {
        (*self.connections).inv() == |c: Result<Connection<E>>|
            thread_open_outcome(self.uri@, self.persistent, c)
    }

    /// Records the store's identity and policy; opens nothing yet.
    pub fn new(uri: &str, persistent: bool) -> (r: Self)
        ensures
            r.uri() == uri@,
            r.persistent() == persistent,
    {
        let ghost owned = uri@;
        let registry = Registry::shared(
            Ghost(|c: Result<Connection<E>>| thread_open_outcome(owned, persistent, c)),
        );
        ThreadSafeConnection { uri: uri.to_string(), persistent, connections: registry }
    }

    /// The calling thread's connection, opened on the thread's first access, or the
    /// error that opening it gave.
    pub fn connection(&self) -> (r: &Result<Connection<E>>)
        ensures
            thread_open_outcome(self.uri(), self.persistent(), *r),
    {
        proof {
            use_type_invariant(self);
        }
        let uri = self.uri.as_str();
        let persistent = self.persistent;
        let create = || -> (c: Result<Connection<E>>)
            ensures
                thread_open_outcome(uri@, persistent, c),
            { open_for_thread::<E>(uri, persistent) };
        thread_value(&self.connections, create)
    }
}

impl<E: Engine + Send> Clone for ThreadSafeConnection<E> {
    /// A handle on the same store that shares the per-thread registry.
    fn clone(&self) -> (r: Self)
        ensures
            r.uri() == self.uri(),
            r.persistent() == self.persistent(),
            r.registry() == self.registry(),
    {
        proof {
            use_type_invariant(self);
        }
        ThreadSafeConnection {
            uri: self.uri.clone(),
            persistent: self.persistent,
            connections: Arc::clone(&self.connections),
        }
    }
}

/// Threads that open the store of one identity without persistence all reach the
/// same shared in-memory store, and stores of different identities never meet:
/// the in-memory name is a one-to-one function of the identity.
pub proof fn memory_store_by_identity(a: Seq<char>, b: Seq<char>)
    ensures
        (memory_uri_of(a) == memory_uri_of(b)) <==> (a == b),
{
    if memory_uri_of(a) == memory_uri_of(b) {
        reveal_strlit("file:");
        reveal_strlit("?mode=memory&cache=shared");
        let ma = memory_uri_of(a);
        let mb = memory_uri_of(b);
        let pre = "file:"@;
        let suf = "?mode=memory&cache=shared"@;
        assert(pre.len() == 5);
        assert(ma.len() == 5 + a.len() + suf.len());
        assert(mb.len() == 5 + b.len() + suf.len());
        assert(a.len() == b.len());
        assert forall|i: int| 0 <= i < a.len() implies a[i] == b[i] by {
            assert(ma[5 + i] == a[i]);
            assert(mb[5 + i] == b[i]);
        }
        assert(a =~= ma.subrange(5, 5 + a.len() as int));
        assert(b =~= mb.subrange(5, 5 + b.len() as int));
    }
}

} // verus!
