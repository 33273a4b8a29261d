use vstd::prelude::*;

use crate::engine::{Engine, Event, Param};
use crate::result::{decode_failure, engine_failure, Error, Result};
use crate::statement::Statement;

verus! {

/// A double, held by its IEEE-754 bit pattern.
#[derive(Clone, Copy, PartialEq, Eq, Debug, Structural)]
pub struct Double {
    pub bits: u64,
}

/// The bind calls that put `params` at consecutive 1-based positions from `start`.
pub open spec fn bind_events(start: int, params: Seq<Param>) -> Seq<Event> {
    Seq::new(params.len(), |i: int| Event::Bind { index: (start + i) as i32, param: params[i] })
}

/// The column reads that decode `params` from consecutive 0-based positions from `start`.
pub open spec fn read_events(start: int, params: Seq<Param>) -> Seq<Event> {
    Seq::new(params.len(), |i: int| Event::Read { index: (start + i) as i32, param: params[i] })
}

/// What binding `params` from position `start` did to a statement whose log went from
/// `before` to `after`: on success every value went to its position, in order, and the
/// next free position is returned. On failure either the engine refused one of
/// them, and the ones before it, and it, were bound; or one of them could not be
/// bound without changing its value (`OutOfRange`), and only the ones before it were
/// bound.
pub open spec fn bind_outcome(
    before: Seq<Event>,
    after: Seq<Event>,
    start: int,
    params: Seq<Param>,
    r: Result<i32>,
) -> bool {
    match r {
        Ok(next) => next == start + params.len() && after == before + bind_events(start, params),
        Err(e) => exists|k: int|
            0 <= k <= params.len() && after == before + bind_events(start, params.take(k)) && if e is OutOfRange {
                k < params.len()
            } else {
                engine_failure(e) && 0 < k
            },
    }
}

/// A decode from position `start` that succeeded: the values were read from
/// consecutive positions, in order, and `next` is the position after them.
pub open spec fn column_ok(
    before: Seq<Event>,
    after: Seq<Event>,
    start: int,
    width: nat,
    params: Seq<Param>,
    next: i32,
) -> bool {
    params.len() == width && next == start + width && after == before + read_events(start, params)
}

/// A decode from position `start` that failed: at most `width` values were read
/// before a read, or the value read, was refused.
pub open spec fn column_err(before: Seq<Event>, after: Seq<Event>, start: int, width: nat, e: Error) -> bool {
    &&& decode_failure(e)
    &&& exists|done: Seq<Param>| done.len() <= width && after == before + read_events(start, done)
}

proof fn lemma_bind_events_concat(start: int, p: Seq<Param>, q: Seq<Param>)
    ensures
        bind_events(start, p) + bind_events(start + p.len(), q) == bind_events(start, p + q),
{
    assert(bind_events(start, p) + bind_events(start + p.len(), q) =~= bind_events(start, p + q));
}

proof fn lemma_read_events_concat(start: int, p: Seq<Param>, q: Seq<Param>)
    ensures
        read_events(start, p) + read_events(start + p.len(), q) == read_events(start, p + q),
{
    assert(read_events(start, p) + read_events(start + p.len(), q) =~= read_events(start, p + q));
}

/// A value that binds to consecutive parameter positions of a statement.
pub trait Bind {
    /// The values this binds, one per position, in order.
    spec fn bind_params(&self) -> Seq<Param>;

    /// Binds from the 1-based position `start_index` on and returns the next free one.
    fn bind<'a, E: Engine>(&self, statement: &mut Statement<'a, E>, start_index: i32) -> (r:
        Result<i32>)
        requires
            1 <= start_index,
            start_index + self.bind_params().len() <= i32::MAX,
        ensures
            bind_outcome(
                old(statement).log(),
                final(statement).log(),
                start_index as int,
                self.bind_params(),
                r,
            ),
            final(statement).is_ready() == old(statement).is_ready(),
    ;
}

/// A value decoded from consecutive columns of a statement's current row.
pub trait Column: Sized {
    /// The values this was decoded from, one per column, in order.
    spec fn column_params(&self) -> Seq<Param>;

    /// The number of columns a value of this type takes.
    spec fn width() -> nat;

    /// Decodes from the 0-based position `start_index` on; returns the value and the
    /// next free position.
    fn column<'a, E: Engine>(statement: &mut Statement<'a, E>, start_index: i32) -> (r: Result<
        (Self, i32),
    >)
        requires
            0 <= start_index,
            start_index + Self::width() <= i32::MAX,
        ensures
            match r {
                Ok((v, next)) => column_ok(
                    old(statement).log(),
                    final(statement).log(),
                    start_index as int,
                    Self::width(),
                    v.column_params(),
                    next,
                ),
                Err(e) => column_err(
                    old(statement).log(),
                    final(statement).log(),
                    start_index as int,
                    Self::width(),
                    e,
                ),
            },
            final(statement).is_ready() == old(statement).is_ready(),
    ;
}

/// Binds `value` after the values `done` that a chain of binds begun at `start`
/// has placed so far with result `prev`.
fn bind_next<'a, E: Engine, T: Bind>(
    value: &T,
    statement: &mut Statement<'a, E>,
    prev: Result<i32>,
    Ghost(before): Ghost<Seq<Event>>,
    Ghost(start): Ghost<int>,
    Ghost(done): Ghost<Seq<Param>>,
) -> (r: Result<i32>)
    requires
        bind_outcome(before, old(statement).log(), start, done, prev),
        1 <= start,
        start + done.len() + value.bind_params().len() <= i32::MAX,
    ensures
        bind_outcome(before, final(statement).log(), start, done + value.bind_params(), r),
        final(statement).is_ready() == old(statement).is_ready(),
{
    match prev {
        Err(e) => {
            proof {
                let k = choose|k: int|
                    0 <= k <= done.len() && old(statement).log() == before + bind_events(
                        start,
                        done.take(k),
                    ) && if e is OutOfRange {
                        k < done.len()
                    } else {
                        engine_failure(e) && 0 < k
                    };
                assert(done.take(k) =~= (done + value.bind_params()).take(k));
            }
            Err(e)
        },
        Ok(next) => {
            let r = value.bind(statement, next);
            proof {
                let p = value.bind_params();
                lemma_bind_events_concat(start, done, p);
                if r is Ok {
                    assert(final(statement).log() =~= before + bind_events(start, done + p));
                } else {
                    let e = r->Err_0;
                    let k = choose|k: int|
                        0 <= k <= p.len() && final(statement).log() == old(statement).log()
                            + bind_events(next as int, p.take(k)) && if e is OutOfRange {
                            k < p.len()
                        } else {
                            engine_failure(e) && 0 < k
                        };
                    lemma_bind_events_concat(start, done, p.take(k));
                    assert(done + p.take(k) =~= (done + p).take(done.len() + k));
                    assert(final(statement).log() =~= before + bind_events(
                        start,
                        (done + p).take(done.len() + k),
                    ));
                }
            }
            r
        },
    }
}

/// Decodes a `T` at `start_index`, after the values `done` that a chain of decodes
/// begun at `start` has read so far.
fn column_next<'a, E: Engine, T: Column>(
    statement: &mut Statement<'a, E>,
    start_index: i32,
    Ghost(before): Ghost<Seq<Event>>,
    Ghost(start): Ghost<int>,
    Ghost(done): Ghost<Seq<Param>>,
) -> (r: Result<(T, i32)>)
    requires
        old(statement).log() == before + read_events(start, done),
        start_index == start + done.len(),
        0 <= start,
        start_index + T::width() <= i32::MAX,
    ensures
        final(statement).is_ready() == old(statement).is_ready(),
        match r {
            Ok((v, next)) => column_ok(
                before,
                final(statement).log(),
                start,
                (done.len() + T::width()) as nat,
                done + v.column_params(),
                next,
            ),
            Err(e) => column_err(
                before,
                final(statement).log(),
                start,
                (done.len() + T::width()) as nat,
                e,
            ),
        },
{
    let r = T::column(statement, start_index);
    proof {
        if r is Ok {
            let v = r->Ok_0.0;
            lemma_read_events_concat(start, done, v.column_params());
            assert(final(statement).log() == old(statement).log() + read_events(
                start_index as int,
                v.column_params(),
            ));
            assert(final(statement).log() =~= before + read_events(start, done + v.column_params()));
        } else {
                let ps = choose|ps: Seq<Param>|
                    ps.len() <= T::width() && final(statement).log() == old(statement).log()
                        + read_events(start_index as int, ps);
                lemma_read_events_concat(start, done, ps);
                assert(final(statement).log() =~= before + read_events(start, done + ps));
        }
    }
    r
}

proof fn lemma_one_event(start: int, p: Param)
    ensures
        bind_events(start, seq![p]) == seq![Event::Bind { index: start as i32, param: p }],
        read_events(start, seq![p]) == seq![Event::Read { index: start as i32, param: p }],
        read_events(start, Seq::<Param>::empty()) == Seq::<Event>::empty(),
        seq![p].take(1) == seq![p],
{
    assert(bind_events(start, seq![p]) =~= seq![Event::Bind { index: start as i32, param: p }]);
    assert(read_events(start, seq![p]) =~= seq![Event::Read { index: start as i32, param: p }]);
    assert(read_events(start, Seq::<Param>::empty()) =~= Seq::<Event>::empty());
    assert(seq![p].take(1) =~= seq![p]);
}

proof fn lemma_no_reads(log: Seq<Event>, start: int)
    ensures
        log == log + read_events(start, Seq::<Param>::empty()),
{
    assert(log =~= log + read_events(start, Seq::<Param>::empty()));
}

/// The next free position after one bound value, or the engine's failure.
fn next_after_one(
    r: Result<()>,
    start_index: i32,
    Ghost(before): Ghost<Seq<Event>>,
    Ghost(after): Ghost<Seq<Event>>,
    Ghost(p): Ghost<Param>,
) -> (out: Result<i32>)
    requires
        1 <= start_index < i32::MAX,
        after == before.push(Event::Bind { index: start_index, param: p }),
        r is Err ==> engine_failure(r->Err_0),
    ensures
        bind_outcome(before, after, start_index as int, seq![p], out),
{
    proof {
        lemma_one_event(start_index as int, p);
        assert(after =~= before + bind_events(start_index as int, seq![p]));
        assert(after =~= before + bind_events(start_index as int, seq![p].take(1)));
    }
    match r {
        Ok(()) => Ok(start_index + 1),
        Err(e) => Err(e),
    }
}

impl Bind for &[u8] {
    open spec fn bind_params(&self) -> Seq<Param> {
        seq![Param::Blob(self@)]
    }

    fn bind<'a, E: Engine>(&self, statement: &mut Statement<'a, E>, start_index: i32) -> (r:
        Result<i32>) {
        let ghost before = statement.log();
        let r = statement.bind_blob(start_index, *self);
        next_after_one(r, start_index, Ghost(before), Ghost(statement.log()), Ghost(Param::Blob(self@)))
    }
}

impl Bind for Vec<u8> {
    open spec fn bind_params(&self) -> Seq<Param> {
        seq![Param::Blob(self@)]
    }

    fn bind<'a, E: Engine>(&self, statement: &mut Statement<'a, E>, start_index: i32) -> (r:
        Result<i32>) {
        let ghost before = statement.log();
        let r = statement.bind_blob(start_index, self.as_slice());
        next_after_one(r, start_index, Ghost(before), Ghost(statement.log()), Ghost(Param::Blob(self@)))
    }
}

impl Bind for Double {
    open spec fn bind_params(&self) -> Seq<Param> {
        seq![Param::Double(self.bits)]
    }

    fn bind<'a, E: Engine>(&self, statement: &mut Statement<'a, E>, start_index: i32) -> (r:
        Result<i32>) {
        let ghost before = statement.log();
        let r = statement.bind_double(start_index, self.bits);
        next_after_one(r, start_index, Ghost(before), Ghost(statement.log()), Ghost(Param::Double(self.bits)))
    }
}

impl Bind for i32 {
    open spec fn bind_params(&self) -> Seq<Param> {
        seq![Param::Int(*self)]
    }

    fn bind<'a, E: Engine>(&self, statement: &mut Statement<'a, E>, start_index: i32) -> (r:
        Result<i32>) {
        let ghost before = statement.log();
        let r = statement.bind_int(start_index, *self);
        next_after_one(r, start_index, Ghost(before), Ghost(statement.log()), Ghost(Param::Int(*self)))
    }
}

impl Bind for i64 {
    open spec fn bind_params(&self) -> Seq<Param> {
        seq![Param::Int64(*self)]
    }

    fn bind<'a, E: Engine>(&self, statement: &mut Statement<'a, E>, start_index: i32) -> (r:
        Result<i32>) {
        let ghost before = statement.log();
        let r = statement.bind_int64(start_index, *self);
        next_after_one(r, start_index, Ghost(before), Ghost(statement.log()), Ghost(Param::Int64(*self)))
    }
}

impl Bind for usize {
    open spec fn bind_params(&self) -> Seq<Param> {
        seq![Param::Int64(*self as i64)]
    }

    /// Binds as a 64-bit integer; a value beyond `i64::MAX` is refused, not wrapped.
    fn bind<'a, E: Engine>(&self, statement: &mut Statement<'a, E>, start_index: i32) -> (r:
        Result<i32>) {
        if *self as u64 > i64::MAX as u64 {
            proof {
                assert(statement.log() =~= statement.log() + bind_events(
                    start_index as int,
                    self.bind_params().take(0),
                ));
            }
            return Err(Error::OutOfRange);
        }
        let ghost before = statement.log();
        let r = statement.bind_int64(start_index, *self as i64);
        next_after_one(r, start_index, Ghost(before), Ghost(statement.log()), Ghost(Param::Int64(*self as i64)))
    }
}

impl Bind for () {
    open spec fn bind_params(&self) -> Seq<Param> {
        seq![Param::Null]
    }

    fn bind<'a, E: Engine>(&self, statement: &mut Statement<'a, E>, start_index: i32) -> (r:
        Result<i32>) {
        let ghost before = statement.log();
        let r = statement.bind_null(start_index);
        next_after_one(r, start_index, Ghost(before), Ghost(statement.log()), Ghost(Param::Null))
    }
}

impl Bind for &str {
    open spec fn bind_params(&self) -> Seq<Param> {
        seq![Param::Text(self@)]
    }

    fn bind<'a, E: Engine>(&self, statement: &mut Statement<'a, E>, start_index: i32) -> (r:
        Result<i32>) {
        let ghost before = statement.log();
        let r = statement.bind_text(start_index, *self);
        next_after_one(r, start_index, Ghost(before), Ghost(statement.log()), Ghost(Param::Text(self@)))
    }
}

impl Bind for String {
    open spec fn bind_params(&self) -> Seq<Param> {
        seq![Param::Text(self@)]
    }

    fn bind<'a, E: Engine>(&self, statement: &mut Statement<'a, E>, start_index: i32) -> (r:
        Result<i32>) {
        let ghost before = statement.log();
        let r = statement.bind_text(start_index, self.as_str());
        next_after_one(r, start_index, Ghost(before), Ghost(statement.log()), Ghost(Param::Text(self@)))
    }
}

impl Column for Vec<u8> {
    open spec fn column_params(&self) -> Seq<Param> {
        seq![Param::Blob(self@)]
    }

    open spec fn width() -> nat {
        1
    }

    fn column<'a, E: Engine>(statement: &mut Statement<'a, E>, start_index: i32) -> (r: Result<
        (Self, i32),
    >) {
        proof {
            lemma_no_reads(statement.log(), start_index as int);
        }
        let v = statement.column_blob(start_index)?;
        proof {
            lemma_one_event(start_index as int, Param::Blob(v@));
        }
        Ok((v, start_index + 1))
    }
}

impl Column for Double {
    open spec fn column_params(&self) -> Seq<Param> {
        seq![Param::Double(self.bits)]
    }

    open spec fn width() -> nat {
        1
    }

    fn column<'a, E: Engine>(statement: &mut Statement<'a, E>, start_index: i32) -> (r: Result<
        (Self, i32),
    >) {
        proof {
            lemma_no_reads(statement.log(), start_index as int);
        }
        let bits = statement.column_double(start_index)?;
        proof {
            lemma_one_event(start_index as int, Param::Double(bits));
        }
        Ok((Double { bits }, start_index + 1))
    }
}

impl Column for i32 {
    open spec fn column_params(&self) -> Seq<Param> {
        seq![Param::Int(*self)]
    }

    open spec fn width() -> nat {
        1
    }

    fn column<'a, E: Engine>(statement: &mut Statement<'a, E>, start_index: i32) -> (r: Result<
        (Self, i32),
    >) {
        proof {
            lemma_no_reads(statement.log(), start_index as int);
        }
        let v = statement.column_int(start_index)?;
        proof {
            lemma_one_event(start_index as int, Param::Int(v));
        }
        Ok((v, start_index + 1))
    }
}

impl Column for usize {
    open spec fn column_params(&self) -> Seq<Param> {
        seq![Param::Int64(*self as i64)]
    }

    open spec fn width() -> nat {
        1
    }

    /// Reads the column as a 64-bit integer; a value that is negative or beyond
    /// `usize::MAX` is refused.
    fn column<'a, E: Engine>(statement: &mut Statement<'a, E>, start_index: i32) -> (r: Result<
        (Self, i32),
    >) {
        proof {
            lemma_no_reads(statement.log(), start_index as int);
        }
        let v = statement.column_int64(start_index)?;
        proof {
            lemma_one_event(start_index as int, Param::Int64(v));
        }
        if v < 0 || v as u64 > usize::MAX as u64 {
            return Err(Error::OutOfRange);
        }
        let n = v as usize;
        assert(n as i64 == v);
        Ok((n, start_index + 1))
    }
}

impl Column for i64 {
    open spec fn column_params(&self) -> Seq<Param> {
        seq![Param::Int64(*self)]
    }

    open spec fn width() -> nat {
        1
    }

    fn column<'a, E: Engine>(statement: &mut Statement<'a, E>, start_index: i32) -> (r: Result<
        (Self, i32),
    >) {
        proof {
            lemma_no_reads(statement.log(), start_index as int);
        }
        let v = statement.column_int64(start_index)?;
        proof {
            lemma_one_event(start_index as int, Param::Int64(v));
        }
        Ok((v, start_index + 1))
    }
}

impl Column for String {
    open spec fn column_params(&self) -> Seq<Param> {
        seq![Param::Text(self@)]
    }

    open spec fn width() -> nat {
        1
    }

    fn column<'a, E: Engine>(statement: &mut Statement<'a, E>, start_index: i32) -> (r: Result<
        (Self, i32),
    >) {
        proof {
            lemma_no_reads(statement.log(), start_index as int);
        }
        let v = statement.column_text(start_index)?;
        proof {
            lemma_one_event(start_index as int, Param::Text(v@));
        }
        Ok((v, start_index + 1))
    }
}

impl<T1: Bind, T2: Bind> Bind for (T1, T2) {
    open spec fn bind_params(&self) -> Seq<Param> {
        self.0.bind_params() + self.1.bind_params()
    }

    fn bind<'a, E: Engine>(&self, statement: &mut Statement<'a, E>, start_index: i32) -> (r:
        Result<i32>) {
        let ghost before = statement.log();
        let r = self.0.bind(statement, start_index);
        let r = bind_next(
            &self.1,
            statement,
            r,
            Ghost(before),
            Ghost(start_index as int),
            Ghost(self.0.bind_params()),
        );
        r
    }
}

impl<T1: Column, T2: Column> Column for (T1, T2) {
    open spec fn column_params(&self) -> Seq<Param> {
        self.0.column_params() + self.1.column_params()
    }

    open spec fn width() -> nat {
        T1::width() + T2::width()
    }

    fn column<'a, E: Engine>(statement: &mut Statement<'a, E>, start_index: i32) -> (r: Result<
        (Self, i32),
    >) {
        let ghost before = statement.log();
        proof {
            assert(before =~= before + read_events(start_index as int, Seq::<Param>::empty()));
        }
        let (first, next) = column_next::<E, T1>(
            statement,
            start_index,
            Ghost(before),
            Ghost(start_index as int),
            Ghost(Seq::<Param>::empty()),
        )?;
        proof {
            assert(Seq::<Param>::empty() + first.column_params() =~= first.column_params());
        }
        let (second, next) = column_next::<E, T2>(
            statement,
            next,
            Ghost(before),
            Ghost(start_index as int),
            Ghost(first.column_params()),
        )?;
        Ok(((first, second), next))
    }
}

impl<T1: Bind, T2: Bind, T3: Bind> Bind for (T1, T2, T3) {
    open spec fn bind_params(&self) -> Seq<Param> {
        self.0.bind_params() + self.1.bind_params() + self.2.bind_params()
    }

    fn bind<'a, E: Engine>(&self, statement: &mut Statement<'a, E>, start_index: i32) -> (r:
        Result<i32>) {
        let ghost before = statement.log();
        let r = self.0.bind(statement, start_index);
        let r = bind_next(
            &self.1,
            statement,
            r,
            Ghost(before),
            Ghost(start_index as int),
            Ghost(self.0.bind_params()),
        );
        let r = bind_next(
            &self.2,
            statement,
            r,
            Ghost(before),
            Ghost(start_index as int),
            Ghost(self.0.bind_params() + self.1.bind_params()),
        );
        r
    }
}

impl<T1: Column, T2: Column, T3: Column> Column for (T1, T2, T3) {
    open spec fn column_params(&self) -> Seq<Param> {
        self.0.column_params() + self.1.column_params() + self.2.column_params()
    }

    open spec fn width() -> nat {
        T1::width() + T2::width() + T3::width()
    }

    fn column<'a, E: Engine>(statement: &mut Statement<'a, E>, start_index: i32) -> (r: Result<
        (Self, i32),
    >) {
        let ghost before = statement.log();
        proof {
            assert(before =~= before + read_events(start_index as int, Seq::<Param>::empty()));
        }
        let (first, next) = column_next::<E, T1>(
            statement,
            start_index,
            Ghost(before),
            Ghost(start_index as int),
            Ghost(Seq::<Param>::empty()),
        )?;
        proof {
            assert(Seq::<Param>::empty() + first.column_params() =~= first.column_params());
        }
        let (second, next) = column_next::<E, T2>(
            statement,
            next,
            Ghost(before),
            Ghost(start_index as int),
            Ghost(first.column_params()),
        )?;
        let (third, next) = column_next::<E, T3>(
            statement,
            next,
            Ghost(before),
            Ghost(start_index as int),
            Ghost(first.column_params() + second.column_params()),
        )?;
        Ok(((first, second, third), next))
    }
}

impl<T1: Bind, T2: Bind, T3: Bind, T4: Bind> Bind for (T1, T2, T3, T4) {
    open spec fn bind_params(&self) -> Seq<Param> {
        self.0.bind_params() + self.1.bind_params() + self.2.bind_params() + self.3.bind_params()
    }

    fn bind<'a, E: Engine>(&self, statement: &mut Statement<'a, E>, start_index: i32) -> (r:
        Result<i32>) {
        let ghost before = statement.log();
        let r = self.0.bind(statement, start_index);
        let r = bind_next(
            &self.1,
            statement,
            r,
            Ghost(before),
            Ghost(start_index as int),
            Ghost(self.0.bind_params()),
        );
        let r = bind_next(
            &self.2,
            statement,
            r,
            Ghost(before),
            Ghost(start_index as int),
            Ghost(self.0.bind_params() + self.1.bind_params()),
        );
        let r = bind_next(
            &self.3,
            statement,
            r,
            Ghost(before),
            Ghost(start_index as int),
            Ghost(self.0.bind_params() + self.1.bind_params() + self.2.bind_params()),
        );
        r
    }
}

impl<T1: Column, T2: Column, T3: Column, T4: Column> Column for (T1, T2, T3, T4) {
    open spec fn column_params(&self) -> Seq<Param> {
        self.0.column_params() + self.1.column_params() + self.2.column_params() + self.3.column_params()
    }

    open spec fn width() -> nat {
        T1::width() + T2::width() + T3::width() + T4::width()
    }

    fn column<'a, E: Engine>(statement: &mut Statement<'a, E>, start_index: i32) -> (r: Result<
        (Self, i32),
    >) {
        let ghost before = statement.log();
        proof {
            assert(before =~= before + read_events(start_index as int, Seq::<Param>::empty()));
        }
        let (first, next) = column_next::<E, T1>(
            statement,
            start_index,
            Ghost(before),
            Ghost(start_index as int),
            Ghost(Seq::<Param>::empty()),
        )?;
        proof {
            assert(Seq::<Param>::empty() + first.column_params() =~= first.column_params());
        }
        let (second, next) = column_next::<E, T2>(
            statement,
            next,
            Ghost(before),
            Ghost(start_index as int),
            Ghost(first.column_params()),
        )?;
        let (third, next) = column_next::<E, T3>(
            statement,
            next,
            Ghost(before),
            Ghost(start_index as int),
            Ghost(first.column_params() + second.column_params()),
        )?;
        let (fourth, next) = column_next::<E, T4>(
            statement,
            next,
            Ghost(before),
            Ghost(start_index as int),
            Ghost(first.column_params() + second.column_params() + third.column_params()),
        )?;
        Ok(((first, second, third, fourth), next))
    }
}

/// Binding and decoding use the same positions, shifted by one: the value bound at
/// 1-based position `i + 1` is the one decoded from 0-based column `i`, for every
/// sequence of values and every `i`.
pub proof fn positions_line_up(params: Seq<Param>, i: int)
    requires
        0 <= i < params.len(),
        params.len() < i32::MAX,
    ensures
        bind_events(1, params)[i] == (Event::Bind { index: (i + 1) as i32, param: params[i] }),
        read_events(0, params)[i] == (Event::Read { index: i as i32, param: params[i] }),
{
}

/// The value encoding of each scalar kind is one-to-one: two values of one kind that
/// bind and decode to the same engine value are equal (texts and blobs by their
/// contents, doubles by their bits). So a column that hands back the value bound
/// decodes to the value bound.
pub proof fn scalars_round_trip(
    blob: Vec<u8>,
    blob_back: Vec<u8>,
    double: Double,
    double_back: Double,
    int32: i32,
    int32_back: i32,
    int64: i64,
    int64_back: i64,
    text: String,
    text_back: String,
)
    ensures
        blob_back.column_params() == blob.bind_params() ==> blob_back@ == blob@,
        double_back.column_params() == double.bind_params() ==> double_back == double,
        int32_back.column_params() == int32.bind_params() ==> int32_back == int32,
        int64_back.column_params() == int64.bind_params() ==> int64_back == int64,
        text_back.column_params() == text.bind_params() ==> text_back@ == text@,
{
    if blob_back.column_params() == blob.bind_params() {
        assert(blob_back.column_params()[0] == blob.bind_params()[0]);
    }
    if double_back.column_params() == double.bind_params() {
        assert(double_back.column_params()[0] == double.bind_params()[0]);
    }
    if int32_back.column_params() == int32.bind_params() {
        assert(int32_back.column_params()[0] == int32.bind_params()[0]);
    }
    if int64_back.column_params() == int64.bind_params() {
        assert(int64_back.column_params()[0] == int64.bind_params()[0]);
    }
    if text_back.column_params() == text.bind_params() {
        assert(text_back.column_params()[0] == text.bind_params()[0]);
    }
}

proof fn lemma_split(a: Seq<Param>, b: Seq<Param>, c: Seq<Param>, d: Seq<Param>)
    requires
        a + b == c + d,
        a.len() == c.len(),
    ensures
        a == c,
        b == d,
{
    assert(a =~= (a + b).subrange(0, a.len() as int));
    assert(c =~= (c + d).subrange(0, c.len() as int));
    assert(b =~= (a + b).subrange(a.len() as int, (a + b).len() as int));
    assert(d =~= (c + d).subrange(c.len() as int, (c + d).len() as int));
}

/// A pair decoded from the values a pair bound, where each field reads as many values
/// as it bound, gets each field from that field's own values, in order.
pub proof fn pairs_round_trip<A: Bind + Column, B: Bind + Column>(value: (A, B), back: (A, B))
    requires
        back.column_params() == value.bind_params(),
        back.0.column_params().len() == value.0.bind_params().len(),
    ensures
        back.0.column_params() == value.0.bind_params(),
        back.1.column_params() == value.1.bind_params(),
{
    lemma_split(back.0.column_params(), back.1.column_params(), value.0.bind_params(), value.1.bind_params());
}

/// The same for triples.
pub proof fn triples_round_trip<A: Bind + Column, B: Bind + Column, C: Bind + Column>(
    value: (A, B, C),
    back: (A, B, C),
)
    requires
        back.column_params() == value.bind_params(),
        back.0.column_params().len() == value.0.bind_params().len(),
        back.1.column_params().len() == value.1.bind_params().len(),
    ensures
        back.0.column_params() == value.0.bind_params(),
        back.1.column_params() == value.1.bind_params(),
        back.2.column_params() == value.2.bind_params(),
{
    lemma_split(
        back.0.column_params() + back.1.column_params(),
        back.2.column_params(),
        value.0.bind_params() + value.1.bind_params(),
        value.2.bind_params(),
    );
    lemma_split(back.0.column_params(), back.1.column_params(), value.0.bind_params(), value.1.bind_params());
}

/// The same for quadruples.
pub proof fn quadruples_round_trip<A: Bind + Column, B: Bind + Column, C: Bind + Column, D: Bind + Column>(
    value: (A, B, C, D),
    back: (A, B, C, D),
)
    requires
        back.column_params() == value.bind_params(),
        back.0.column_params().len() == value.0.bind_params().len(),
        back.1.column_params().len() == value.1.bind_params().len(),
        back.2.column_params().len() == value.2.bind_params().len(),
    ensures
        back.0.column_params() == value.0.bind_params(),
        back.1.column_params() == value.1.bind_params(),
        back.2.column_params() == value.2.bind_params(),
        back.3.column_params() == value.3.bind_params(),
{
    lemma_split(
        back.0.column_params() + back.1.column_params() + back.2.column_params(),
        back.3.column_params(),
        value.0.bind_params() + value.1.bind_params() + value.2.bind_params(),
        value.3.bind_params(),
    );
    lemma_split(
        back.0.column_params() + back.1.column_params(),
        back.2.column_params(),
        value.0.bind_params() + value.1.bind_params(),
        value.2.bind_params(),
    );
    lemma_split(back.0.column_params(), back.1.column_params(), value.0.bind_params(), value.1.bind_params());
}

} // verus!
