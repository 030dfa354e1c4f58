//! The decisions of a listener: taking its address, knowing its connections when
//! it shuts down, and cleaning its address up.

use vstd::prelude::*;
use vstd::string::StringExecFns;

use crate::error::{ErrorKind, IoError};

verus! {

// ---------------------------------------------------------------------
// bind
// ---------------------------------------------------------------------

/// How an attempt to bind the rendezvous socket went.
#[derive(Debug, Clone, Copy, PartialEq, Eq, Structural)]
pub enum BindOutcome {
    /// It is bound.
    Bound,
    /// The path is taken.
    InUse,
    /// It failed otherwise.
    Failed,
}

/// How an attempt to connect to a path that is taken went.
#[derive(Debug, Clone, Copy, PartialEq, Eq, Structural)]
pub enum ProbeOutcome {
    /// Somebody listens.
    Connected,
    /// The connection was refused.
    Refused,
    /// It failed otherwise.
    Failed,
}

/// What a listener that wants a path does next.
#[derive(Debug)]
pub enum BindStep {
    /// The socket is bound: go on.
    Ready,
    /// Try to connect, to tell a live listener from a file left behind.
    Probe,
    /// Remove the file and bind once more.
    Reclaim,
    /// Give up with the error of the attempt to bind.
    Fail,
    /// Give up with this error.
    Refuse(IoError),
}

/// The text for a path where another listener is alive.
pub open spec fn in_use_text(address: Seq<char>) -> Seq<char> {
    "shmsc: "@ + address + " is already in use by another listener"@
}

/// The error for an address where another listener is alive.
pub fn in_use(address: &str) -> (r: IoError)
    ensures
        r@ == (ErrorKind::AddrInUse, in_use_text(address@)),
{
    let mut message = "shmsc: ".to_owned();
    message.append(address);
    message.append(" is already in use by another listener");
    IoError { kind: ErrorKind::AddrInUse, message }
}

/// What a step of binding says.
pub enum BindView {
    Ready,
    Probe,
    Reclaim,
    Fail,
    Refuse((ErrorKind, Seq<char>)),
}

impl View for BindStep {
    type V = BindView;

    open spec fn view(&self) -> BindView {
        match self {
            BindStep::Ready => BindView::Ready,
            BindStep::Probe => BindView::Probe,
            BindStep::Reclaim => BindView::Reclaim,
            BindStep::Fail => BindView::Fail,
            BindStep::Refuse(e) => BindView::Refuse(e@),
        }
    }
}

/// What follows the first attempt to bind.
pub open spec fn bind_next(outcome: BindOutcome) -> BindView {
    match outcome {
        BindOutcome::Bound => BindView::Ready,
        BindOutcome::InUse => BindView::Probe,
        BindOutcome::Failed => BindView::Fail,
    }
}

/// What follows the probe of a path that is taken.
pub open spec fn probe_next(outcome: ProbeOutcome, path: Seq<char>) -> BindView {
    match outcome {
        ProbeOutcome::Connected => BindView::Refuse((ErrorKind::AddrInUse, in_use_text(path))),
        ProbeOutcome::Refused => BindView::Reclaim,
        ProbeOutcome::Failed => BindView::Fail,
    }
}

/// Decides what follows the first attempt to bind.
pub fn after_bind(outcome: BindOutcome) -> (r: BindStep)
    ensures
        match outcome {
            BindOutcome::Bound => r is Ready,
            BindOutcome::InUse => r is Probe,
            BindOutcome::Failed => r is Fail,
        },
        r@ == bind_next(outcome),
{
    match outcome {
        BindOutcome::Bound => BindStep::Ready,
        BindOutcome::InUse => BindStep::Probe,
        BindOutcome::Failed => BindStep::Fail,
    }
}

/// Decides what follows the probe of a path that is taken. A live listener is
/// never pushed aside: only a refused connection proves that the file was left
/// behind.
pub fn after_probe(outcome: ProbeOutcome, path: &str) -> (r: BindStep)
    ensures
        match outcome {
            ProbeOutcome::Connected => r matches BindStep::Refuse(e) && e@ == (
                ErrorKind::AddrInUse,
                in_use_text(path@),
            ),
            ProbeOutcome::Refused => r is Reclaim,
            ProbeOutcome::Failed => r is Fail,
        },
        r@ == probe_next(outcome, path@),
{
    match outcome {
        ProbeOutcome::Connected => BindStep::Refuse(in_use(path)),
        ProbeOutcome::Refused => BindStep::Reclaim,
        ProbeOutcome::Failed => BindStep::Fail,
    }
}

// ---------------------------------------------------------------------
// cleaning up
// ---------------------------------------------------------------------

/// What names a file: its device and its inode.
#[derive(Debug, Clone, Copy, PartialEq, Eq, Structural)]
pub struct FileId {
    pub dev: u64,
    pub ino: u64,
}

/// Whether the file at the path, if there is one, is the one that was bound.
pub open spec fn is_ours(bound: Option<FileId>, found: Option<FileId>) -> bool {
    bound is Some && found == bound
}

/// Whether the file found at the path may be removed: only if it is the very
/// socket that was bound, and not that of a listener which took the path since.
pub fn unlink_if_ours(bound: Option<FileId>, found: Option<FileId>) -> (r: bool)
    ensures
        r == is_ours(bound, found),
{
    match (bound, found) {
        (Some(b), Some(f)) => b == f,
        _ => false,
    }
}

/// The cleanup that a listener still owes.
#[derive(Debug, Clone, Copy, PartialEq, Eq, Structural)]
pub struct Cleanup {
    /// The socket that was bound, where it could be identified.
    pub bound: Option<FileId>,
    /// Whether it is still to be removed.
    pub armed: bool,
}

impl Cleanup {
    /// What a shutdown that finds a file leads to: what is owed then, and whether the file
    /// is removed.
    pub open spec fn shut_down(self, found: Option<FileId>) -> (Cleanup, bool) {
        (Cleanup { armed: false, ..self }, is_ours(self.bound, found))
    }

    /// Whether a drop that finds a file removes it.
    pub open spec fn removes_on_drop(self, found: Option<FileId>) -> bool {
        self.armed && is_ours(self.bound, found)
    }

    /// The cleanup of a listener that was just bound.
    pub fn new(bound: Option<FileId>) -> (r: Self)
        ensures
            r == (Cleanup { bound, armed: true }),
    {
        Cleanup { bound, armed: true }
    }

    /// The listener shuts down: whether the file found at the path is to be
    /// removed now. Nothing is owed any more.
    pub fn on_shutdown(&mut self, found: Option<FileId>) -> (r: bool)
        ensures
            r == is_ours(old(self).bound, found),
            (*final(self), r) == old(self).shut_down(found),
            *final(self) == (Cleanup { armed: false, ..*old(self) }),
    {
        self.armed = false;
        unlink_if_ours(self.bound, found)
    }

    /// The listener is dropped: whether the file found at the path is to be
    /// removed.
    pub fn on_drop(&self, found: Option<FileId>) -> (r: bool)
        ensures
            r == (self.armed && is_ours(self.bound, found)),
            r == self.removes_on_drop(found),
    {
        self.armed && unlink_if_ours(self.bound, found)
    }
}

/// The file of a listener that took the path later is never removed, and after a
/// shutdown nothing is.
pub proof fn law_replacement_is_never_removed(
    c: Cleanup,
    found: Option<FileId>,
    after: Cleanup,
)
    requires
        found != c.bound,
        after == (Cleanup { armed: false, ..c }),
    ensures
        !is_ours(c.bound, found),
        forall|f: Option<FileId>| !(after.armed && #[trigger] is_ours(after.bound, f)),
{
}

// ---------------------------------------------------------------------
// connections
// ---------------------------------------------------------------------

/// The live connections of a server, by the handles under which they are known,
/// and whether the server drains. Joining and the start of the drain are one step
/// each: a connection is either found by the drain, or told on joining.
#[derive(Debug)]
pub struct ServeState {
    pub conns: Vec<u64>,
    pub draining: bool,
}

/// What a server state says.
pub struct ServeView {
    pub conns: Seq<u64>,
    pub draining: bool,
}

impl View for ServeState {
    type V = ServeView;

    open spec fn view(&self) -> ServeView {
        ServeView { conns: self.conns@, draining: self.draining }
    }
}

/// The handles without one of them.
pub open spec fn forgotten(conns: Seq<u64>, conn: u64) -> Seq<u64> {
    conns.filter(|c: u64| c != conn)
}

impl ServeState {
    /// No connection, and no drain.
    pub fn new() -> (r: Self)
        ensures
            r@ == (ServeView { conns: Seq::empty(), draining: false }),
    {
        ServeState { conns: Vec::new(), draining: false }
    }

    /// A connection joins; `true` where the server already drains, and the
    /// connection is to drain itself.
    pub fn register(&mut self, conn: u64) -> (r: bool)
        ensures
            r == old(self)@.draining,
            final(self)@ == (ServeView { conns: old(self)@.conns.push(conn), ..old(self)@ }),
            final(self)@ == served(old(self)@, ServeOp::Register(conn)),
            r == tells(old(self)@, ServeOp::Register(conn), conn),
    {
        self.conns.push(conn);
        self.draining
    }

    /// A connection has ended.
    pub fn forget(&mut self, conn: u64)
        ensures
            final(self)@ == (ServeView {
                conns: forgotten(old(self)@.conns, conn),
                ..old(self)@
            }),
            final(self)@ == served(old(self)@, ServeOp::Forget(conn)),
    {
        let ghost all = self.conns@;
        let mut left: Vec<u64> = Vec::new();
        let mut i: usize = 0;
        proof {
            reveal(Seq::filter);
            assert(all.take(0) =~= Seq::<u64>::empty());
        }
        while i < self.conns.len()
            invariant
                i <= self.conns@.len(),
                self.conns@ == all,
                left@ == forgotten(all.take(i as int), conn),
            decreases all.len() - i,
        {
            proof {
                reveal(Seq::filter);
                assert(all.take(i + 1).drop_last() =~= all.take(i as int));
            }
            if self.conns[i] != conn {
                left.push(self.conns[i]);
            }
            i += 1;
        }
        assert(all.take(all.len() as int) =~= all);
        self.conns = left;
    }

    /// The drain starts; gives the connections that are to drain.
    pub fn begin_drain(&mut self) -> (r: Vec<u64>)
        ensures
            r@ == old(self)@.conns,
            final(self)@ == (ServeView { conns: Seq::empty(), draining: true }),
            final(self)@ == served(old(self)@, ServeOp::Drain),
            forall|c: u64| r@.contains(c) <==> #[trigger] tells(old(self)@, ServeOp::Drain, c),
    {
        self.draining = true;
        let mut conns: Vec<u64> = Vec::new();
        std::mem::swap(&mut conns, &mut self.conns);
        conns
    }
}

/// A step in the life of a server.
#[derive(Debug, Clone, Copy, PartialEq, Eq, Structural)]
pub enum ServeOp {
    /// A connection joins.
    Register(u64),
    /// A connection ends.
    Forget(u64),
    /// The drain starts.
    Drain,
}

/// The state after a step.
pub open spec fn served(v: ServeView, op: ServeOp) -> ServeView {
    match op {
        ServeOp::Register(c) => ServeView { conns: v.conns.push(c), ..v },
        ServeOp::Forget(c) => ServeView { conns: forgotten(v.conns, c), ..v },
        ServeOp::Drain => ServeView { conns: Seq::empty(), draining: true },
    }
}

/// Whether a step tells a connection to drain.
pub open spec fn tells(v: ServeView, op: ServeOp, conn: u64) -> bool {
    match op {
        ServeOp::Register(c) => c == conn && v.draining,
        ServeOp::Forget(_) => false,
        ServeOp::Drain => v.conns.contains(conn),
    }
}

/// The state after some steps of a new server.
pub open spec fn history(ops: Seq<ServeOp>) -> ServeView
    decreases ops.len(),
{
    if ops.len() == 0 {
        ServeView { conns: Seq::empty(), draining: false }
    } else {
        served(history(ops.drop_last()), ops.last())
    }
}

/// A connection that joins is told to drain, whether the drain starts before it
/// joins or afterwards, unless it ends before: none is missed.
pub proof fn law_drain_misses_no_connection(ops: Seq<ServeOp>, joins: int, drains: int, conn: u64)
    requires
        0 <= joins < ops.len(),
        0 <= drains < ops.len(),
        ops[joins] == ServeOp::Register(conn),
        ops[drains] == ServeOp::Drain,
        forall|k: int| joins < k < drains ==> #[trigger] ops[k] != ServeOp::Forget(conn),
    ensures
        exists|k: int|
            #![trigger ops[k]]
            joins <= k < ops.len() && tells(history(ops.take(k)), ops[k], conn),
{
    if drains < joins {
        lemma_draining_stays(ops, drains, joins);
        assert(tells(history(ops.take(joins)), ops[joins], conn));
    } else {
        lemma_kept_or_told(ops, joins, drains, conn);
        if !history(ops.take(drains)).conns.contains(conn) {
            let k = choose|k: int|
                #![trigger ops[k]]
                joins <= k < drains && tells(history(ops.take(k)), ops[k], conn);
            assert(tells(history(ops.take(k)), ops[k], conn));
        } else {
            assert(tells(history(ops.take(drains)), ops[drains], conn));
        }
    }
}

proof fn lemma_step(ops: Seq<ServeOp>, k: int)
    requires
        0 <= k < ops.len(),
    ensures
        history(ops.take(k + 1)) == served(history(ops.take(k)), ops[k]),
{
    assert(ops.take(k + 1).drop_last() =~= ops.take(k));
}

proof fn lemma_draining_stays(ops: Seq<ServeOp>, drains: int, n: int)
    requires
        0 <= drains < n <= ops.len(),
        ops[drains] == ServeOp::Drain,
    ensures
        history(ops.take(n)).draining,
    decreases n,
{
    lemma_step(ops, n - 1);
    if drains < n - 1 {
        lemma_draining_stays(ops, drains, n - 1);
    }
}

/// Up to step `n` the connection is still known, or was told.
proof fn lemma_kept_or_told(ops: Seq<ServeOp>, joins: int, n: int, conn: u64)
    requires
        0 <= joins < n <= ops.len(),
        ops[joins] == ServeOp::Register(conn),
        forall|k: int| joins < k < n ==> #[trigger] ops[k] != ServeOp::Forget(conn),
    ensures
        history(ops.take(n)).conns.contains(conn) || exists|k: int|
            #![trigger ops[k]]
            joins <= k < n && tells(history(ops.take(k)), ops[k], conn),
    decreases n,
{
    lemma_step(ops, n - 1);
    let before = history(ops.take(n - 1));
    let after = history(ops.take(n));
    if joins == n - 1 {
        assert(after.conns[after.conns.len() - 1] == conn);
    } else {
        lemma_kept_or_told(ops, joins, n - 1, conn);
        if before.conns.contains(conn) {
            let i = choose|i: int| 0 <= i < before.conns.len() && before.conns[i] == conn;
            match ops[n - 1] {
                ServeOp::Register(_) => {
                    assert(after.conns[i] == conn);
                },
                ServeOp::Forget(c) => {
                    before.conns.lemma_filter_contains(|x: u64| x != c, i);
                },
                ServeOp::Drain => {
                    assert(tells(before, ops[n - 1], conn));
                },
            }
        }
    }
}

/// A file is ours exactly where one was bound and the same one, by device and inode, is
/// found.
pub proof fn law_ours_is_the_bound_file(bound: Option<FileId>, found: Option<FileId>)
    ensures
        is_ours(bound, found) <==> (bound matches Some(b) && found matches Some(f) && b.dev
            == f.dev && b.ino == f.ino),
{
}

/// The text names the address that is taken.
pub proof fn law_taken_address_is_named(address: Seq<char>)
    ensures
        in_use_text(address) == "shmsc: "@ + address + " is already in use by another listener"@,
{
}

/// A connection that ended is no longer known, and every other one still is, in the order
/// in which they joined.
pub proof fn law_forgetting_one_connection(conns: Seq<u64>, conn: u64, other: u64)
    ensures
        !forgotten(conns, conn).contains(conn),
        other != conn ==> (forgotten(conns, conn).contains(other) <==> conns.contains(other)),
        !conns.contains(conn) ==> forgotten(conns, conn) == conns,
        forgotten(conns.push(other), conn) == if other == conn {
            forgotten(conns, conn)
        } else {
            forgotten(conns, conn).push(other)
        },
    decreases conns.len(),
{
    reveal(Seq::filter);
    assert(conns.push(other).drop_last() =~= conns);
    if conns.len() > 0 {
        let front = conns.drop_last();
        let last = conns.last();
        law_forgetting_one_connection(front, conn, other);
        let kept = forgotten(front, conn);
        assert(forgotten(conns, conn) == if last == conn {
            kept
        } else {
            kept.push(last)
        });
        if last != conn {
            let all = forgotten(conns, conn);
            assert(all[kept.len() as int] == last);
            assert forall|x: u64| kept.contains(x) implies all.contains(x) by {
                let i = choose|i: int| 0 <= i < kept.len() && kept[i] == x;
                assert(all[i] == x);
            }
            assert forall|x: u64| all.contains(x) && x != last implies kept.contains(x) by {
                let i = choose|i: int| 0 <= i < all.len() && all[i] == x;
                assert(kept[i] == x);
            }
        }
        assert forall|x: u64| front.contains(x) implies conns.contains(x) by {
            let i = choose|i: int| 0 <= i < front.len() && front[i] == x;
            assert(conns[i] == x);
        }
        assert forall|x: u64| conns.contains(x) && x != last implies front.contains(x) by {
            let i = choose|i: int| 0 <= i < conns.len() && conns[i] == x;
            assert(front[i] == x);
        }
        assert(conns[conns.len() - 1] == last);
        if !conns.contains(conn) {
            assert(!front.contains(conn));
            assert(forgotten(conns, conn) =~= conns);
        }
    } else {
        assert(forgotten(conns, conn) =~= conns);
    }
}

/// What a step in the life of a server does, and whom it tells to drain.
pub proof fn law_life_of_a_server(v: ServeView, c: u64, d: u64)
    ensures
        served(v, ServeOp::Register(c)).conns == v.conns.push(c),
        served(v, ServeOp::Register(c)).draining == v.draining,
        served(v, ServeOp::Forget(c)).draining == v.draining,
        !served(v, ServeOp::Forget(c)).conns.contains(c),
        c != d ==> (served(v, ServeOp::Forget(c)).conns.contains(d) <==> v.conns.contains(d)),
        served(v, ServeOp::Drain).conns.len() == 0,
        served(v, ServeOp::Drain).draining,
        tells(v, ServeOp::Register(c), d) <==> c == d && v.draining,
        !tells(v, ServeOp::Forget(c), d),
        tells(v, ServeOp::Drain, d) <==> v.conns.contains(d),
{
    law_forgetting_one_connection(v.conns, c, d);
}

/// A path is taken over only where it was taken and a connection to it was refused: a
/// listener that is alive is never pushed aside, and neither is one that cannot be told
/// from a dead one.
pub proof fn law_live_listeners_keep_their_path(b: BindOutcome, p: ProbeOutcome, path: Seq<char>)
    ensures
        bind_next(b) is Ready <==> b == BindOutcome::Bound,
        bind_next(b) is Probe <==> b == BindOutcome::InUse,
        bind_next(b) is Fail <==> b == BindOutcome::Failed,
        probe_next(p, path) is Reclaim <==> p == ProbeOutcome::Refused,
        probe_next(p, path) is Fail <==> p == ProbeOutcome::Failed,
        p == ProbeOutcome::Connected ==> probe_next(p, path) == BindView::Refuse(
            (
                ErrorKind::AddrInUse,
                "shmsc: "@ + path + " is already in use by another listener"@,
            ),
        ),
{
}

/// A listener removes its own file once: a shutdown removes the file that was bound where it
/// finds it, and no drop after it removes anything; a drop without a shutdown removes the
/// same.
pub proof fn law_the_file_is_removed_once(
    c: Cleanup,
    found: Option<FileId>,
    later: Option<FileId>,
)
    ensures
        c.shut_down(found).1 <==> c.bound is Some && found == c.bound,
        !c.shut_down(found).0.removes_on_drop(later),
        c.armed ==> (c.removes_on_drop(found) <==> c.bound is Some && found == c.bound),
        !c.armed ==> !c.removes_on_drop(found),
        c.shut_down(found).0.bound == c.bound,
{
}

} // verus!
