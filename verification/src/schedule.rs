//! The replay-then-tail schedule.
//!
//! When history is read, each discovered file is replayed in full and then,
//! immediately after, registered for live tailing — never before, so no line
//! appended between the read position and the registration is lost, and no
//! live line of a file is delivered before its replay.  Without history,
//! every file is registered at once.

use vstd::prelude::*;

verus! {

/// One step of the startup schedule, naming a file by its index in the
/// discovery order.
#[derive(Debug, Clone, Copy, PartialEq, Eq, Structural)]
pub enum FileAction {
    /// Read the file's existing content under inferred timestamps.
    Replay(usize),
    /// Attach the file to the live tail.
    Register(usize),
}

/// The schedule for `n` files: with history, replay then register each file
/// in turn; without, register them all.
pub open spec fn spec_tail_schedule(read_history: bool, n: nat) -> Seq<FileAction>
    decreases n,
{
    if n == 0 {
        Seq::empty()
    } else {
        let rest = spec_tail_schedule(read_history, (n - 1) as nat);
        if read_history {
            rest + seq![
                FileAction::Replay((n - 1) as usize),
                FileAction::Register((n - 1) as usize),
            ]
        } else {
            rest + seq![FileAction::Register((n - 1) as usize)]
        }
    }
}

/// Builds the startup schedule.
pub fn tail_schedule(read_history: bool, n_files: usize) -> (r: Vec<FileAction>)
    requires
        n_files < usize::MAX / 2,
    ensures
        r@ == spec_tail_schedule(read_history, n_files as nat),
{
    let mut r: Vec<FileAction> = Vec::new();
    let mut i: usize = 0;
    while i < n_files
        invariant
            i <= n_files,
            r@ == spec_tail_schedule(read_history, i as nat),
        decreases n_files - i,
    {
        if read_history {
            r.push(FileAction::Replay(i));
            r.push(FileAction::Register(i));
            proof {
                assert(r@ =~= spec_tail_schedule(read_history, (i + 1) as nat));
            }
        } else {
            r.push(FileAction::Register(i));
            proof {
                assert(r@ =~= spec_tail_schedule(read_history, (i + 1) as nat));
            }
        }
        i = i + 1;
    }
    r
}

/// In a history-reading schedule, file `f` is replayed at position `2 f` and
/// registered at position `2 f + 1`, and nowhere else.
pub proof fn lemma_schedule_positions(n: nat, k: int)
    requires
        0 <= k < spec_tail_schedule(true, n).len(),
    ensures
        spec_tail_schedule(true, n).len() == 2 * n,
        spec_tail_schedule(true, n)[k] == if k % 2 == 0 {
            FileAction::Replay((k / 2) as usize)
        } else {
            FileAction::Register((k / 2) as usize)
        },
    decreases n,
{
    lemma_schedule_len(n);
    if n > 0 {
        lemma_schedule_len((n - 1) as nat);
        if k < 2 * (n - 1) {
            lemma_schedule_positions((n - 1) as nat, k);
        }
    }
}

proof fn lemma_schedule_len(n: nat)
    ensures
        spec_tail_schedule(true, n).len() == 2 * n,
    decreases n,
{
    if n > 0 {
        lemma_schedule_len((n - 1) as nat);
    }
}

/// Every line present at scan time is replayed before any live line of the
/// same file can be delivered: in the schedule, a file's replay strictly
/// precedes its registration for tailing.
pub proof fn lemma_replay_precedes_register(n: nat, f: usize, j: int, k: int)
    requires
        n <= usize::MAX,
        0 <= j < spec_tail_schedule(true, n).len(),
        0 <= k < spec_tail_schedule(true, n).len(),
        spec_tail_schedule(true, n)[j] == FileAction::Replay(f),
        spec_tail_schedule(true, n)[k] == FileAction::Register(f),
    ensures
        j < k,
{
    lemma_schedule_positions(n, j);
    lemma_schedule_positions(n, k);
    vstd::arithmetic::div_mod::lemma_fundamental_div_mod(j, 2);
    vstd::arithmetic::div_mod::lemma_fundamental_div_mod(k, 2);
    assert(j / 2 < n && k / 2 < n);
    assert(j % 2 == 0 && j / 2 == f);
    assert(k % 2 == 1 && k / 2 == f);
}

} // verus!
