//! Putting a downloaded AppImage in place of the installed one, with a
//! backup to roll back to: the steps and the decisions between them. The
//! caller performs each file operation and reports whether it succeeded.

use vstd::prelude::*;
use crate::text::str_eq;

verus! {

/// The files involved: the verified download, where the AppImage goes, the
/// backup of what was there, and where the previous version was installed.
#[derive(Debug, Clone)]
pub struct SwapPaths {
    pub download: String,
    pub target: String,
    pub backup: String,
    pub old: String,
    /// Whether a file is at `target` when the swap starts.
    pub target_exists: bool,
}

/// Where the swap stands: the step to perform next, or its end (`true` on
/// success).
#[derive(Debug, Clone, Copy, PartialEq, Eq, Structural)]
pub enum SwapPhase {
    DropStaleBackup,
    MoveAside,
    CleanDownload,
    MoveIn,
    MakeExecutable,
    RemoveNew,
    RestoreBackup,
    DropBackup,
    RemoveOld,
    Done(bool),
}

/// A file operation for the caller to perform.
#[derive(Debug, Clone)]
pub enum FileOp {
    Remove(String),
    Rename(String, String),
    MakeExecutable(String),
    Nothing,
}

/// A file operation as text: kind (0 remove, 1 rename, 2 make executable,
/// 3 nothing) and its one or two paths.
pub open spec fn op_view(o: FileOp) -> (int, Seq<char>, Seq<char>) {
    match o {
        FileOp::Remove(a) => (0, a@, Seq::empty()),
        FileOp::Rename(a, b) => (1, a@, b@),
        FileOp::MakeExecutable(a) => (2, a@, Seq::empty()),
        FileOp::Nothing => (3, Seq::empty(), Seq::empty()),
    }
}

/// The operation each step performs.
pub open spec fn swap_op_spec(ph: SwapPhase, p: SwapPaths) -> (int, Seq<char>, Seq<char>) {
    match ph {
        SwapPhase::DropStaleBackup => (0, p.backup@, Seq::empty()),
        SwapPhase::MoveAside => (1, p.target@, p.backup@),
        SwapPhase::CleanDownload => (0, p.download@, Seq::empty()),
        SwapPhase::MoveIn => (1, p.download@, p.target@),
        SwapPhase::MakeExecutable => (2, p.target@, Seq::empty()),
        SwapPhase::RemoveNew => (0, p.target@, Seq::empty()),
        SwapPhase::RestoreBackup => (1, p.backup@, p.target@),
        SwapPhase::DropBackup => (0, p.backup@, Seq::empty()),
        SwapPhase::RemoveOld => (0, p.old@, Seq::empty()),
        SwapPhase::Done(_) => (3, Seq::empty(), Seq::empty()),
    }
}

/// The step after a step, given whether its operation succeeded: a stale
/// backup is dropped whatever happens; the installed file is moved aside
/// (when there is one), the download moved in and made executable; if
/// moving aside fails the download is removed and the swap fails; if moving
/// in or making executable fails, the new file is removed and the backup
/// put back, and the swap fails; on success the backup and a previous file
/// elsewhere are removed.
pub open spec fn swap_next_spec(ph: SwapPhase, ok: bool, p: SwapPaths) -> SwapPhase {
    match ph {
        SwapPhase::DropStaleBackup => if p.target_exists {
            SwapPhase::MoveAside
        } else {
            SwapPhase::MoveIn
        },
        SwapPhase::MoveAside => if ok {
            SwapPhase::MoveIn
        } else {
            SwapPhase::CleanDownload
        },
        SwapPhase::CleanDownload => SwapPhase::Done(false),
        SwapPhase::MoveIn => if ok {
            SwapPhase::MakeExecutable
        } else {
            SwapPhase::RemoveNew
        },
        SwapPhase::MakeExecutable => if ok {
            SwapPhase::DropBackup
        } else {
            SwapPhase::RemoveNew
        },
        SwapPhase::RemoveNew => SwapPhase::RestoreBackup,
        SwapPhase::RestoreBackup => SwapPhase::Done(false),
        SwapPhase::DropBackup => if p.old@ != p.target@ {
            SwapPhase::RemoveOld
        } else {
            SwapPhase::Done(true)
        },
        SwapPhase::RemoveOld => SwapPhase::Done(true),
        SwapPhase::Done(s) => SwapPhase::Done(s),
    }
}

/// The operation of a step.
pub fn swap_op(ph: SwapPhase, p: &SwapPaths) -> (r: FileOp)
    ensures
        op_view(r) == swap_op_spec(ph, *p),
{
    match ph {
        SwapPhase::DropStaleBackup => FileOp::Remove(p.backup.clone()),
        SwapPhase::MoveAside => FileOp::Rename(p.target.clone(), p.backup.clone()),
        SwapPhase::CleanDownload => FileOp::Remove(p.download.clone()),
        SwapPhase::MoveIn => FileOp::Rename(p.download.clone(), p.target.clone()),
        SwapPhase::MakeExecutable => FileOp::MakeExecutable(p.target.clone()),
        SwapPhase::RemoveNew => FileOp::Remove(p.target.clone()),
        SwapPhase::RestoreBackup => FileOp::Rename(p.backup.clone(), p.target.clone()),
        SwapPhase::DropBackup => FileOp::Remove(p.backup.clone()),
        SwapPhase::RemoveOld => FileOp::Remove(p.old.clone()),
        SwapPhase::Done(_) => FileOp::Nothing,
    }
}

/// The next step, given whether the operation of this one succeeded.
pub fn swap_next(ph: SwapPhase, ok: bool, p: &SwapPaths) -> (r: SwapPhase)
    ensures
        r == swap_next_spec(ph, ok, *p),
{
    match ph {
        SwapPhase::DropStaleBackup => if p.target_exists {
            SwapPhase::MoveAside
        } else {
            SwapPhase::MoveIn
        },
        SwapPhase::MoveAside => if ok {
            SwapPhase::MoveIn
        } else {
            SwapPhase::CleanDownload
        },
        SwapPhase::CleanDownload => SwapPhase::Done(false),
        SwapPhase::MoveIn => if ok {
            SwapPhase::MakeExecutable
        } else {
            SwapPhase::RemoveNew
        },
        SwapPhase::MakeExecutable => if ok {
            SwapPhase::DropBackup
        } else {
            SwapPhase::RemoveNew
        },
        SwapPhase::RemoveNew => SwapPhase::RestoreBackup,
        SwapPhase::RestoreBackup => SwapPhase::Done(false),
        SwapPhase::DropBackup => if !str_eq(p.old.as_str(), p.target.as_str()) {
            SwapPhase::RemoveOld
        } else {
            SwapPhase::Done(true)
        },
        SwapPhase::RemoveOld => SwapPhase::Done(true),
        SwapPhase::Done(s) => SwapPhase::Done(s),
    }
}

// ── What the steps do to the files ──────────────────────────────────────────

/// Files by path: content and whether the file is executable.
pub type Files = Map<Seq<char>, (Seq<u8>, bool)>;

/// The files after an operation: unchanged when it failed; on success the
/// file removed, renamed (replacing what was at the new path) or made
/// executable. `None` when success is impossible (no file to act on).
pub open spec fn apply_op(fs: Files, op: (int, Seq<char>, Seq<char>), ok: bool) -> Option<Files> {
    if !ok || op.0 == 3 {
        Some(fs)
    } else if !fs.contains_key(op.1) {
        None
    } else if op.0 == 0 {
        Some(fs.remove(op.1))
    } else if op.0 == 1 {
        Some(fs.remove(op.1).insert(op.2, fs[op.1]))
    } else {
        Some(fs.insert(op.1, (fs[op.1].0, true)))
    }
}

/// A swap run from step `ph` on, the outcome of each operation taken in
/// turn from `outs`: its result and the files it leaves, `None` when the
/// outcomes run out before it ends or one of them is impossible.
pub open spec fn run_swap(ph: SwapPhase, fs: Files, outs: Seq<bool>, p: SwapPaths) -> Option<(bool, Files)>
    decreases outs.len(),
{
    match ph {
        SwapPhase::Done(s) => Some((s, fs)),
        _ => if outs.len() == 0 {
            None
        } else {
            match apply_op(fs, swap_op_spec(ph, p), outs[0]) {
                None => None,
                Some(fs2) => run_swap(swap_next_spec(ph, outs[0], p), fs2, outs.drop_first(), p),
            }
        },
    }
}

/// What holds of the files at each step of a swap that started from `fs0`.
pub open spec fn swap_inv(ph: SwapPhase, fs: Files, fs0: Files, p: SwapPaths) -> bool {
    let had = fs0.contains_key(p.target@);
    let dl = fs0[p.download@];
    let prev = fs0[p.target@];
    let kept_aside = had ==> fs.contains_key(p.backup@) && fs[p.backup@] == prev;
    match ph {
        SwapPhase::DropStaleBackup => fs == fs0,
        SwapPhase::MoveAside => had && fs.contains_key(p.target@) && fs[p.target@] == prev
            && fs.contains_key(p.download@) && fs[p.download@] == dl,
        SwapPhase::CleanDownload => had && fs.contains_key(p.target@) && fs[p.target@] == prev,
        SwapPhase::MoveIn => fs.contains_key(p.download@) && fs[p.download@] == dl && kept_aside,
        SwapPhase::MakeExecutable => fs.contains_key(p.target@) && fs[p.target@].0 == dl.0 && kept_aside,
        SwapPhase::RemoveNew => kept_aside,
        SwapPhase::RestoreBackup => kept_aside,
        SwapPhase::DropBackup => fs.contains_key(p.target@) && fs[p.target@] == (dl.0, true),
        SwapPhase::RemoveOld => p.old@ != p.target@ && fs.contains_key(p.target@) && fs[p.target@]
            == (dl.0, true),
        SwapPhase::Done(s) => if s {
            fs.contains_key(p.target@) && fs[p.target@] == (dl.0, true)
        } else {
            had ==> (fs.contains_key(p.target@) && fs[p.target@] == prev) || (fs.contains_key(
                p.backup@,
            ) && fs[p.backup@] == prev)
        },
    }
}

pub proof fn lemma_swap_step(ph: SwapPhase, fs: Files, fs0: Files, p: SwapPaths, ok: bool)
    requires
        p.download@ != p.target@,
        p.download@ != p.backup@,
        p.target@ != p.backup@,
        fs0.contains_key(p.download@),
        p.target_exists == fs0.contains_key(p.target@),
        swap_inv(ph, fs, fs0, p),
        apply_op(fs, swap_op_spec(ph, p), ok) is Some,
    ensures
        swap_inv(swap_next_spec(ph, ok, p), apply_op(fs, swap_op_spec(ph, p), ok)->0, fs0, p),
{
}

proof fn lemma_swap_run(ph: SwapPhase, fs: Files, fs0: Files, outs: Seq<bool>, p: SwapPaths)
    requires
        p.download@ != p.target@,
        p.download@ != p.backup@,
        p.target@ != p.backup@,
        fs0.contains_key(p.download@),
        p.target_exists == fs0.contains_key(p.target@),
        swap_inv(ph, fs, fs0, p),
        run_swap(ph, fs, outs, p) is Some,
    ensures
        ({
            let (ok, last) = run_swap(ph, fs, outs, p)->0;
            swap_inv(SwapPhase::Done(ok), last, fs0, p)
        }),
    decreases outs.len(),
{
    match ph {
        SwapPhase::Done(_) => {},
        _ => {
            lemma_swap_step(ph, fs, fs0, p, outs[0]);
            let fs2 = apply_op(fs, swap_op_spec(ph, p), outs[0])->0;
            lemma_swap_run(swap_next_spec(ph, outs[0], p), fs2, fs0, outs.drop_first(), p);
        },
    }
}

/// A swap that succeeds leaves the download, executable, where the AppImage
/// goes; one that fails never loses what was installed there: it is back in
/// place, or still in the backup file. This holds whatever operations fail
/// along the way.
pub proof fn law_swap_rolls_back(fs0: Files, outs: Seq<bool>, p: SwapPaths)
    requires
        p.download@ != p.target@,
        p.download@ != p.backup@,
        p.target@ != p.backup@,
        fs0.contains_key(p.download@),
        p.target_exists == fs0.contains_key(p.target@),
        run_swap(SwapPhase::DropStaleBackup, fs0, outs, p) is Some,
    ensures
        ({
            let (ok, fs) = run_swap(SwapPhase::DropStaleBackup, fs0, outs, p)->0;
            &&& ok ==> fs.contains_key(p.target@) && fs[p.target@] == (fs0[p.download@].0, true)
            &&& !ok && fs0.contains_key(p.target@) ==> (fs.contains_key(p.target@) && fs[p.target@]
                == fs0[p.target@]) || (fs.contains_key(p.backup@) && fs[p.backup@] == fs0[p.target@])
        }),
{
    lemma_swap_run(SwapPhase::DropStaleBackup, fs0, fs0, outs, p);
}

} // verus!
