//! The rendezvous channel: where it is, and how whole messages cross it.

use vstd::prelude::*;
use vstd::string::{StrSliceExecFns, StringExecFns};

use crate::error::{ErrorKind, IoError};

verus! {

// ---------------------------------------------------------------------
// whole messages
// ---------------------------------------------------------------------

/// How an attempt to move bytes went.
#[derive(Debug, Clone, Copy, PartialEq, Eq, Structural)]
pub enum Attempt {
    /// So many bytes were moved.
    Moved(usize),
    /// The channel is not ready after all.
    WouldBlock,
    /// It failed.
    Failed,
}

/// What follows an attempt.
#[derive(Debug)]
pub enum Transfer {
    /// So many bytes are through, and more are to come.
    More(usize),
    /// Everything is through.
    Complete,
    /// Give up with the error of the attempt.
    Fail,
    /// Give up with this error.
    Refuse(IoError),
}

/// What a transfer says.
pub enum TransferView {
    More(nat),
    Complete,
    Fail,
    Refuse((ErrorKind, Seq<char>)),
}

impl View for Transfer {
    type V = TransferView;

    open spec fn view(&self) -> TransferView {
        match self {
            Transfer::More(n) => TransferView::More(*n as nat),
            Transfer::Complete => TransferView::Complete,
            Transfer::Fail => TransferView::Fail,
            Transfer::Refuse(e) => TransferView::Refuse(e@),
        }
    }
}

/// What follows an attempt where `off` of `len` bytes were through, and moving
/// none is the given error.
pub open spec fn transferred(
    off: nat,
    len: nat,
    a: Attempt,
    none: (ErrorKind, Seq<char>),
) -> TransferView {
    match a {
        Attempt::Moved(n) => if n == 0 {
            TransferView::Refuse(none)
        } else if off + n == len {
            TransferView::Complete
        } else {
            TransferView::More(off + n as nat)
        },
        Attempt::WouldBlock => TransferView::More(off),
        Attempt::Failed => TransferView::Fail,
    }
}

/// Decides what follows an attempt to write the rest of a message.
pub fn write_all(off: usize, len: usize, a: Attempt) -> (r: Transfer)
    requires
        off < len,
        a matches Attempt::Moved(n) ==> n <= len - off,
    ensures
        r@ == transferred(off as nat, len as nat, a, (ErrorKind::WriteZero, "write zero"@)),
{
    match a {
        Attempt::Moved(n) => if n == 0 {
            Transfer::Refuse(IoError::new(ErrorKind::WriteZero, "write zero"))
        } else if off + n == len {
            Transfer::Complete
        } else {
            Transfer::More(off + n)
        },
        Attempt::WouldBlock => Transfer::More(off),
        Attempt::Failed => Transfer::Fail,
    }
}

/// Decides what follows an attempt to read the rest of a message.
pub fn read_exact(off: usize, len: usize, a: Attempt) -> (r: Transfer)
    requires
        off < len,
        a matches Attempt::Moved(n) ==> n <= len - off,
    ensures
        r@ == transferred(
            off as nat,
            len as nat,
            a,
            (ErrorKind::UnexpectedEof, "shmsc: peer closed during handshake"@),
        ),
{
    match a {
        Attempt::Moved(n) => if n == 0 {
            Transfer::Refuse(
                IoError::new(ErrorKind::UnexpectedEof, "shmsc: peer closed during handshake"),
            )
        } else if off + n == len {
            Transfer::Complete
        } else {
            Transfer::More(off + n)
        },
        Attempt::WouldBlock => Transfer::More(off),
        Attempt::Failed => Transfer::Fail,
    }
}

// ---------------------------------------------------------------------
// another try
// ---------------------------------------------------------------------

/// Whether something that could not be had is tried once more: only for a reason that may
/// pass, and only so often.
pub open spec fn tried_again(attempts: u32, passing: bool, most: int) -> bool {
    passing && attempts < most
}

/// Whether to dial a pipe once more, after so many tries that found every instance
/// taken. Only a busy pipe is tried again: one that is missing has no server.
pub fn dial_again(attempts: u32, busy: bool) -> (r: bool)
    ensures
        r == (busy && attempts < 100),
        r == tried_again(attempts, busy, 100),
{
    busy && attempts < 100
}

/// Whether to try another name for a segment, after so many that could not be
/// made. Only a name that is taken is replaced by another.
pub fn try_another_name(attempts: u32, taken: bool) -> (r: bool)
    ensures
        r == (taken && attempts < 16),
        r == tried_again(attempts, taken, 16),
{
    taken && attempts < 16
}

// ---------------------------------------------------------------------
// pipe names
// ---------------------------------------------------------------------

/// `s` with every `from` replaced by `to`, from the left.
pub open spec fn replaced(s: Seq<char>, from: Seq<char>, to: Seq<char>) -> Seq<char>
    decreases s.len(),
{
    if from.len() == 0 || s.len() < from.len() {
        s
    } else if s.take(from.len() as int) == from {
        to + replaced(s.skip(from.len() as int), from, to)
    } else {
        seq![s[0]] + replaced(s.skip(1), from, to)
    }
}

/// A character as it may stand in a pipe name.
pub open spec fn sanitized(c: char) -> char {
    if c == '/' || c == '\\' || c == ':' {
        '-'
    } else {
        c
    }
}

/// Whether `s` starts with `p`.
pub open spec fn starts_with(s: Seq<char>, p: Seq<char>) -> bool {
    p.len() <= s.len() && s.take(p.len() as int) == p
}

/// Where the names of pipes are.
pub open spec fn pipe_prefix() -> Seq<char> {
    "\\\\.\\pipe\\"@
}

/// The same, with slashes.
pub open spec fn slashed_prefix() -> Seq<char> {
    "//./pipe/"@
}

/// The pipe for a target: one that names a pipe is taken as it is, one that names
/// it with slashes gets the usual prefix, and else the name is made of the target,
/// with separators and colons as dashes.
pub open spec fn pipe_of(target: Seq<char>) -> Seq<char> {
    if starts_with(target, pipe_prefix()) {
        target
    } else if starts_with(target, slashed_prefix()) {
        replaced(target, slashed_prefix(), pipe_prefix())
    } else {
        pipe_prefix() + target.map_values(|c: char| sanitized(c))
    }
}

/// Whether `p` stands in `s` from the `i`-th character on.
fn stands_at(s: &str, i: usize, p: &str) -> (r: bool)
    requires
        i <= s@.len(),
    ensures
        r == starts_with(s@.skip(i as int), p@),
{
    let n: usize = p.unicode_len();
    if s.unicode_len() - i < n {
        return false;
    }
    let ghost t = s@.skip(i as int);
    let mut k: usize = 0;
    while k < n
        invariant
            k <= n,
            n == p@.len(),
            i + n <= s@.len(),
            s@.len() <= usize::MAX,
            t == s@.skip(i as int),
            t.take(k as int) == p@.take(k as int),
        decreases n - k,
    {
        if s.get_char(i + k) != p.get_char(k) {
            assert(t.take(n as int)[k as int] != p@[k as int]);
            return false;
        }
        assert(t.take(k + 1) =~= p@.take(k + 1)) by {
            assert(t.take(k + 1) =~= t.take(k as int).push(t[k as int]));
            assert(p@.take(k + 1) =~= p@.take(k as int).push(p@[k as int]));
        }
        k += 1;
    }
    assert(p@.take(n as int) =~= p@);
    true
}

/// `s` with every `from` replaced by `to`, from the left.
fn replace_all(s: &str, from: &str, to: &str) -> (r: String)
    requires
        from@.len() > 0,
    ensures
        r@ == replaced(s@, from@, to@),
{
    let n: usize = s.unicode_len();
    let m: usize = from.unicode_len();
    let mut out = String::new();
    let mut i: usize = 0;
    assert(s@.skip(0) =~= s@);
    assert(out@ + replaced(s@.skip(0), from@, to@) =~= replaced(s@, from@, to@));
    while i < n
        invariant
            i <= n,
            n == s@.len(),
            m == from@.len(),
            m > 0,
            out@ + replaced(s@.skip(i as int), from@, to@) == replaced(s@, from@, to@),
        decreases n - i,
    {
        let ghost t = s@.skip(i as int);
        let ghost before = out@;
        if stands_at(s, i, from) {
            out.append(to);
            assert(t.skip(m as int) =~= s@.skip(i + m));
            assert(before + (to@ + replaced(t.skip(m as int), from@, to@)) =~= out@ + replaced(
                s@.skip(i + m),
                from@,
                to@,
            ));
            i += m;
        } else {
            let c = s.substring_char(i, i + 1);
            out.append(c);
            proof {
                assert(c@ =~= seq![t[0]]);
                assert(t.skip(1) =~= s@.skip(i + 1));
                if t.len() < m {
                    assert(s@.skip(i + 1).len() < m);
                    assert(t =~= seq![t[0]] + t.skip(1));
                }
                assert(before + (seq![t[0]] + replaced(t.skip(1), from@, to@)) =~= out@ + replaced(
                    s@.skip(i + 1),
                    from@,
                    to@,
                ));
            }
            i += 1;
        }
    }
    assert(s@.skip(n as int) =~= Seq::<char>::empty());
    assert(out@ =~= out@ + replaced(s@.skip(n as int), from@, to@));
    out
}

/// `s` as it may stand in a pipe name.
fn sanitize(s: &str) -> (r: String)
    ensures
        r@ == s@.map_values(|c: char| sanitized(c)),
{
    let ghost all = s@.map_values(|c: char| sanitized(c));
    let n: usize = s.unicode_len();
    let mut out = String::new();
    let mut i: usize = 0;
    assert(out@ =~= all.take(0));
    while i < n
        invariant
            i <= n,
            n == s@.len(),
            all == s@.map_values(|c: char| sanitized(c)),
            out@ == all.take(i as int),
        decreases n - i,
    {
        let c: char = s.get_char(i);
        let ghost before = out@;
        if c == '/' || c == '\\' || c == ':' {
            out.append("-");
        } else {
            out.append(s.substring_char(i, i + 1));
        }
        proof {
            reveal_strlit("-");
            assert(out@ =~= before.push(all[i as int]));
            assert(out@ =~= all.take(i + 1));
        }
        i += 1;
    }
    assert(all.take(n as int) =~= all);
    out
}

/// The pipe for a target.
pub fn pipe_name(target: &str) -> (r: String)
    ensures
        r@ == pipe_of(target@),
{
    let prefix = "\\\\.\\pipe\\";
    let slashed = "//./pipe/";
    assert(target@.skip(0) =~= target@);
    if stands_at(target, 0, prefix) {
        return target.to_owned();
    }
    if stands_at(target, 0, slashed) {
        proof {
            reveal_strlit("//./pipe/");
        }
        return replace_all(target, slashed, prefix);
    }
    let mut r = prefix.to_owned();
    r.append(sanitize(target).as_str());
    r
}

/// A message goes through piece by piece: what was moved counts, and the message is complete
/// exactly when all of it went through. Moving nothing is the error of the channel's end; a
/// channel that is not ready loses nothing.
pub proof fn law_messages_go_through_whole(
    off: nat,
    len: nat,
    n: usize,
    none: (ErrorKind, Seq<char>),
)
    requires
        off < len,
        n <= len - off,
    ensures
        n == 0 ==> transferred(off, len, Attempt::Moved(n), none) == TransferView::Refuse(none),
        n > 0 && off + n == len ==> transferred(off, len, Attempt::Moved(n), none)
            == TransferView::Complete,
        n > 0 && off + n < len ==> transferred(off, len, Attempt::Moved(n), none)
            == TransferView::More((off + n) as nat),
        transferred(off, len, Attempt::WouldBlock, none) == TransferView::More(off),
        transferred(off, len, Attempt::Failed, none) == TransferView::Fail,
{
}

/// A target that starts like a pipe is that pipe. One that starts so with slashes is that
/// pipe too, where the slashed form does not come again. Any other target gets a pipe of its
/// own: behind the usual start stands the target, with slashes, backslashes and colons as
/// dashes and every other character as it is.
pub proof fn law_pipes_of_targets(target: Seq<char>, rest: Seq<char>, i: int)
    ensures
        target.len() >= 9 && target.take(9) == "\\\\.\\pipe\\"@ ==> pipe_of(target) == target,
        target == "//./pipe/"@ + rest && (forall|k: int|
            0 <= k <= rest.len() - 9 ==> #[trigger] rest.subrange(k, k + 9) != "//./pipe/"@)
            ==> pipe_of(target) == "\\\\.\\pipe\\"@ + rest,
        !(target.len() >= 9 && (target.take(9) == "\\\\.\\pipe\\"@ || target.take(9)
            == "//./pipe/"@)) ==> {
            let r = pipe_of(target);
            &&& r.len() == 9 + target.len()
            &&& r.take(9) == "\\\\.\\pipe\\"@
            &&& 0 <= i < target.len() ==> r[9 + i] == if target[i] == '/' || target[i] == '\\'
                || target[i] == ':' {
                '-'
            } else {
                target[i]
            }
        },
{
    reveal_strlit("\\\\.\\pipe\\");
    reveal_strlit("//./pipe/");
    let p = "\\\\.\\pipe\\"@;
    let q = "//./pipe/"@;
    assert(p[0] != q[0]);
    if target == q + rest && (forall|k: int|
        0 <= k <= rest.len() - 9 ==> #[trigger] rest.subrange(k, k + 9) != q) {
        assert(target.take(9) =~= q);
        assert(target.skip(9) =~= rest);
        assert(target[0] == q[0]);
        assert(target.take(9)[0] != p[0]);
        lemma_nothing_to_replace(rest, q, p);
    }
    assert(pipe_of(target).take(9) =~= p || starts_with(target, p) || starts_with(target, q));
}

proof fn lemma_nothing_to_replace(s: Seq<char>, from: Seq<char>, to: Seq<char>)
    requires
        forall|k: int|
            0 <= k <= s.len() - from.len() ==> #[trigger] s.subrange(k, k + from.len()) != from,
    ensures
        replaced(s, from, to) == s,
    decreases s.len(),
{
    if from.len() > 0 && s.len() >= from.len() {
        let z: int = 0;
        assert(s.subrange(z, z + from.len()) =~= s.take(from.len() as int));
        assert(s.take(from.len() as int) != from);
        let t = s.skip(1);
        assert forall|k: int| 0 <= k <= t.len() - from.len() implies #[trigger] t.subrange(
            k,
            k + from.len(),
        ) != from by {
            assert(t.subrange(k, k + from.len()) =~= s.subrange(k + 1, k + 1 + from.len()));
        }
        lemma_nothing_to_replace(t, from, to);
        assert(seq![s[0]] + t =~= s);
    }
}

/// A try is repeated as long as it fails for a reason that may pass, until it was made as
/// often as allowed, and not afterwards.
pub proof fn law_tries_are_bounded(attempts: u32, most: int)
    ensures
        !tried_again(attempts, false, most),
        tried_again(attempts, true, most) <==> attempts < most,
{
}

/// A transfer shows what it is.
pub proof fn law_transfers_are_shown(t: Transfer)
    ensures
        t matches Transfer::More(n) ==> t@ == TransferView::More(n as nat),
        t is Complete ==> t@ == TransferView::Complete,
        t is Fail ==> t@ == TransferView::Fail,
        t matches Transfer::Refuse(e) ==> t@ == TransferView::Refuse(e@),
{
}

/// Every occurrence is replaced, from the left, and nothing else changes: where a text
/// starts with the pattern the replacement stands there, and otherwise its first character
/// stays.
pub proof fn law_every_occurrence_is_replaced(s: Seq<char>, from: Seq<char>, to: Seq<char>)
    requires
        from.len() > 0,
    ensures
        replaced(from + s, from, to) == to + replaced(s, from, to),
        s.len() < from.len() ==> replaced(s, from, to) == s,
        s.len() >= from.len() && s.take(from.len() as int) != from ==> replaced(s, from, to)
            == seq![s[0]] + replaced(s.skip(1), from, to),
        starts_with(s, slashed_prefix()) ==> pipe_of(s) == pipe_prefix() + replaced(
            s.skip(9),
            "//./pipe/"@,
            "\\\\.\\pipe\\"@,
        ),
{
    assert((from + s).take(from.len() as int) =~= from);
    assert((from + s).skip(from.len() as int) =~= s);
    reveal_strlit("\\\\.\\pipe\\");
    reveal_strlit("//./pipe/");
    if starts_with(s, slashed_prefix()) {
        assert(s[0] == slashed_prefix()[0]) by {
            assert(s.take(9)[0] == slashed_prefix()[0]);
        }
        if starts_with(s, pipe_prefix()) {
            assert(s.take(9)[0] == pipe_prefix()[0]);
        }
    }
}

} // verus!
