//! Decision kernels of a transfer session and of the receiver's survey loop.
//!
//! The I/O loops live outside the library; they feed every outcome back into
//! the functions here, which decide what happens next. The receiver turns a
//! decoded manifest into a materialization plan (destination path, one
//! directory creation per new parent), then consumes each file in bounded
//! chunks; a read that yields nothing while bytes are still owed is the
//! truncated-transfer failure. The survey loop alternates a non-blocking
//! accept with a broadcast and falls back to a plain blocking accept on any
//! failure other than would-block.

use vstd::prelude::*;
use vstd::slice::{slice_subrange, slice_to_vec};

use crate::manifest::{views_of, EntryModel, FileEntry};
use crate::prefix::{common_prefix_len, paths_of, spec_strip_len};
use crate::TransferError;

verus! {

/// Index just past the last forward slash of `p`, or 0 when `p` has none.
/// Destinations use forward slashes only: senders normalize backslashes.
pub open spec fn spec_slash_boundary(p: Seq<u8>) -> int
    decreases p.len(),
{
    if p.len() == 0 {
        0
    } else if p.last() == 0x2f {
        p.len() as int
    } else {
        spec_slash_boundary(p.drop_last())
    }
}

/// The parent directory of a destination path: everything before its last
/// forward slash, empty when it has none.
pub open spec fn spec_parent(p: Seq<u8>) -> Seq<u8> {
    let b = spec_slash_boundary(p);
    if b == 0 {
        Seq::empty()
    } else {
        p.take(b - 1)
    }
}

/// The destination path of entry `i`: its path with the strip length removed
/// from the front.
pub open spec fn spec_dest(es: Seq<EntryModel>, l: int, i: int) -> Seq<u8> {
    es[i].path.skip(l)
}

/// Entry `i` is the first whose destination lies under its parent directory,
/// and that parent is not the working directory itself.
pub open spec fn spec_needs_dir(es: Seq<EntryModel>, l: int, i: int) -> bool {
    &&& spec_parent(spec_dest(es, l, i)).len() > 0
    &&& forall|j: int|
        0 <= j < i ==> spec_parent(spec_dest(es, l, j)) != spec_parent(spec_dest(es, l, i))
}

/// One entry of the receiver's materialization plan.
#[derive(Debug)]
pub struct ReceiveStep {
    /// How many stream bytes belong to this file.
    pub size: u64,
    /// Where the file lands, relative to the working directory.
    pub dest: Vec<u8>,
    /// The parent directory to create first, if this step is the first to
    /// need it.
    pub create_dir: Option<Vec<u8>>,
}

/// Byte-string equality.
fn bytes_eq(a: &[u8], b: &[u8]) -> (r: bool)
    ensures
        r == (a@ == b@),
{
    if a.len() != b.len() {
        return false;
    }
    let n = a.len();
    let mut k: usize = 0;
    while k < n
        invariant
            k <= n,
            n == a@.len() && n == b@.len(),
            forall|t: int| 0 <= t < k ==> a@[t] == b@[t],
        decreases n - k,
    {
        if a[k] != b[k] {
            return false;
        }
        k = k + 1;
    }
    assert(a@ =~= b@);
    true
}

/// The parent directory of a destination path, as fresh bytes.
fn parent_of(p: &[u8]) -> (r: Vec<u8>)
    ensures
        r@ == spec_parent(p@),
{
    let mut b = p.len();
    assert(p@.take(p@.len() as int) =~= p@);
    loop
        invariant
            b <= p@.len(),
            spec_slash_boundary(p@) == spec_slash_boundary(p@.take(b as int)),
        ensures
            b == spec_slash_boundary(p@),
        decreases b,
    {
        if b == 0 {
            assert(p@.take(0).len() == 0);
            assert(spec_slash_boundary(p@.take(0)) == 0);
            break ;
        }
        if p[b - 1] == 0x2f {
            assert(p@.take(b as int).last() == p@[b as int - 1]);
            assert(spec_slash_boundary(p@.take(b as int)) == b);
            break ;
        }
        assert(p@.take(b as int).drop_last() =~= p@.take(b - 1));
        assert(p@.take(b as int).last() != 0x2f);
        b = b - 1;
    }
    if b == 0 {
        Vec::new()
    } else {
        slice_to_vec(slice_subrange(p, 0, b - 1))
    }
}

/// Turns decoded manifest entries into the receiver's plan: for each entry,
/// in manifest order, the prefix-stripped destination, the bytes owed, and
/// the parent directory to create if no earlier entry shares it.
pub fn receiver_plan(entries: &Vec<FileEntry>, strip: bool) -> (steps: Vec<ReceiveStep>)
    ensures
        ({
            let es = views_of(entries@);
            let l = spec_strip_len(paths_of(es), strip);
            &&& steps@.len() == es.len()
            &&& forall|i: int| 0 <= i < es.len() ==> (#[trigger] steps@[i]).size == es[i].size
            &&& forall|i: int| 0 <= i < es.len() ==> (#[trigger] steps@[i]).dest@ == spec_dest(es, l, i)
            &&& forall|i: int|
                0 <= i < es.len() ==> match (#[trigger] steps@[i]).create_dir {
                    Some(d) => spec_needs_dir(es, l, i) && d@ == spec_parent(spec_dest(es, l, i)),
                    None => !spec_needs_dir(es, l, i),
                }
        }),
{
    let ghost es = views_of(entries@);
    let ghost paths = paths_of(es);
    assert(forall|i: int| 0 <= i < entries@.len() ==> es[i] == (#[trigger] entries@[i])@);
    assert(forall|i: int| 0 <= i < entries@.len() ==> paths[i] == es[i].path);
    let l = common_prefix_len(entries, strip);
    let ghost sl = spec_strip_len(paths, strip);
    let mut steps: Vec<ReceiveStep> = Vec::new();
    let mut seen: Vec<Vec<u8>> = Vec::new();
    let mut i: usize = 0;
    while i < entries.len()
        invariant
            i <= entries@.len(),
            es == views_of(entries@),
            paths == paths_of(es),
            es.len() == entries@.len(),
            forall|t: int| 0 <= t < entries@.len() ==> es[t] == (#[trigger] entries@[t])@,
            l as int == sl,
            forall|t: int| 0 <= t < entries@.len() ==> l <= (#[trigger] entries@[t])@.path.len(),
            steps@.len() == i,
            seen@.len() == i,
            forall|t: int| 0 <= t < i ==> (#[trigger] seen@[t])@ == spec_parent(spec_dest(es, sl, t)),
            forall|t: int| 0 <= t < i ==> (#[trigger] steps@[t]).size == es[t].size,
            forall|t: int| 0 <= t < i ==> (#[trigger] steps@[t]).dest@ == spec_dest(es, sl, t),
            forall|t: int|
                0 <= t < i ==> match (#[trigger] steps@[t]).create_dir {
                    Some(d) => spec_needs_dir(es, sl, t) && d@ == spec_parent(spec_dest(es, sl, t)),
                    None => !spec_needs_dir(es, sl, t),
                },
        decreases entries@.len() - i,
    {
        let entry = &entries[i];
        let dest = slice_to_vec(slice_subrange(entry.path.as_slice(), l, entry.path.len()));
        assert(dest@ == spec_dest(es, sl, i as int));
        let parent = parent_of(dest.as_slice());
        let mut dup = false;
        let mut j: usize = 0;
        while j < i
            invariant
                j <= i,
                i == seen@.len(),
                forall|t: int| 0 <= t < i ==> (#[trigger] seen@[t])@ == spec_parent(
                    spec_dest(es, sl, t),
                ),
                parent@ == spec_parent(spec_dest(es, sl, i as int)),
                dup <==> exists|t: int|
                    0 <= t < j && spec_parent(spec_dest(es, sl, t)) == parent@,
            decreases i - j,
        {
            if bytes_eq(seen[j].as_slice(), parent.as_slice()) {
                dup = true;
            }
            j = j + 1;
        }
        let create_dir = if parent.len() > 0 && !dup {
            Some(parent_of(dest.as_slice()))
        } else {
            None
        };
        seen.push(parent);
        steps.push(ReceiveStep { size: entry.size, dest, create_dir });
        i = i + 1;
    }
    steps
}

/// How many bytes the receiver asks for next: the rest of the current file,
/// capped by the chunk buffer.
pub fn next_chunk_len(remaining: u64, buf_len: usize) -> (n: usize)
    requires
        buf_len > 0,
    ensures
        n as u64 <= remaining,
        n <= buf_len,
        remaining > 0 ==> n > 0,
        n as int == if remaining < buf_len as u64 {
            remaining as int
        } else {
            buf_len as int
        },
{
    if remaining < buf_len as u64 {
        remaining as usize
    } else {
        buf_len
    }
}

/// Accounts for one read while a file still owes bytes. A read of zero
/// bytes means the sender closed the stream early: that is the
/// truncated-transfer failure, never a silently short file.
pub fn apply_read(remaining: u64, n: usize) -> (r: Result<u64, TransferError>)
    requires
        remaining > 0,
        n as u64 <= remaining,
    ensures
        match r {
            Ok(rem) => n > 0 && rem == remaining - n as u64,
            Err(e) => n == 0 && e == TransferError::TruncatedTransfer,
        },
{
    if n == 0 {
        Err(TransferError::TruncatedTransfer)
    } else {
        Ok(remaining - n as u64)
    }
}

/// What the survey loop observed in one round.
#[derive(Clone, Copy, Debug, PartialEq, Eq, Structural)]
pub enum SurveyEvent {
    /// The non-blocking accept yielded a connection.
    Accepted,
    /// The non-blocking accept had nothing yet.
    AcceptWouldBlock,
    /// The accept failed with a real error.
    AcceptFailed,
    /// Sending the broadcast datagram failed.
    BroadcastFailed,
}

/// What the survey loop does next.
#[derive(Clone, Copy, Debug, PartialEq, Eq, Structural)]
pub enum SurveyAction {
    /// Stop surveying and hand the accepted connection to the session.
    UseConnection,
    /// Broadcast the discovery datagram, sleep the signal delay, and retry.
    Broadcast,
    /// Give up surveying and issue a plain blocking accept.
    FallBackToBlockingAccept,
}

/// One decision of the survey loop: a connection is used at once; nothing
/// yet means broadcast and retry; any failure, of the accept or of the
/// broadcast itself, falls back to a blocking accept instead of ending the
/// session.
pub fn survey_step(ev: &SurveyEvent) -> (a: SurveyAction)
    ensures
        a == match ev {
            SurveyEvent::Accepted => SurveyAction::UseConnection,
            SurveyEvent::AcceptWouldBlock => SurveyAction::Broadcast,
            SurveyEvent::AcceptFailed => SurveyAction::FallBackToBlockingAccept,
            SurveyEvent::BroadcastFailed => SurveyAction::FallBackToBlockingAccept,
        },
{
    match ev {
        SurveyEvent::Accepted => SurveyAction::UseConnection,
        SurveyEvent::AcceptWouldBlock => SurveyAction::Broadcast,
        SurveyEvent::AcceptFailed => SurveyAction::FallBackToBlockingAccept,
        SurveyEvent::BroadcastFailed => SurveyAction::FallBackToBlockingAccept,
    }
}

} // verus!
