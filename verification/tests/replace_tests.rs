use scenter::replace::{swap_next, swap_op, FileOp, SwapPaths, SwapPhase};
use std::collections::HashMap;

type Files = HashMap<String, (String, bool)>;

fn paths(target_exists: bool, old: &str) -> SwapPaths {
    SwapPaths {
        download: "app.AppImage.tmp".to_string(),
        target: "app.AppImage".to_string(),
        backup: "app.AppImage.bak".to_string(),
        old: old.to_string(),
        target_exists,
    }
}

/// Run a swap; `fail` names the operations (by step) that fail.
fn run(files: &mut Files, p: &SwapPaths, fail: &[SwapPhase]) -> (bool, Vec<SwapPhase>) {
    let mut ph = SwapPhase::DropStaleBackup;
    let mut seen = Vec::new();
    loop {
        if let SwapPhase::Done(ok) = ph {
            return (ok, seen);
        }
        seen.push(ph);
        let ok = !fail.contains(&ph)
            && match swap_op(ph, p) {
                FileOp::Remove(a) => files.remove(&a).is_some(),
                FileOp::Rename(a, b) => match files.remove(&a) {
                    Some(f) => {
                        files.insert(b, f);
                        true
                    }
                    None => false,
                },
                FileOp::MakeExecutable(a) => match files.get_mut(&a) {
                    Some(f) => {
                        f.1 = true;
                        true
                    }
                    None => false,
                },
                FileOp::Nothing => true,
            };
        ph = swap_next(ph, ok, p);
    }
}

fn start() -> Files {
    let mut f = Files::new();
    f.insert("app.AppImage.tmp".to_string(), ("new".to_string(), false));
    f.insert("app.AppImage".to_string(), ("old".to_string(), true));
    f.insert("app.AppImage.bak".to_string(), ("stale".to_string(), false));
    f
}

#[test]
fn swap_succeeds_and_cleans_up() {
    let mut f = start();
    let (ok, steps) = run(&mut f, &paths(true, "app.AppImage"), &[]);
    assert!(ok);
    assert_eq!(
        steps,
        vec![
            SwapPhase::DropStaleBackup,
            SwapPhase::MoveAside,
            SwapPhase::MoveIn,
            SwapPhase::MakeExecutable,
            SwapPhase::DropBackup,
        ]
    );
    assert_eq!(f.get("app.AppImage"), Some(&("new".to_string(), true)));
    assert_eq!(f.len(), 1);
}

#[test]
fn swap_removes_a_previous_file_elsewhere() {
    let mut f = start();
    f.insert("old/App-1.0.AppImage".to_string(), ("older".to_string(), true));
    let (ok, steps) = run(&mut f, &paths(true, "old/App-1.0.AppImage"), &[]);
    assert!(ok);
    assert_eq!(steps.last(), Some(&SwapPhase::RemoveOld));
    assert!(!f.contains_key("old/App-1.0.AppImage"));
}

#[test]
fn failed_chmod_rolls_back() {
    let mut f = start();
    let (ok, steps) = run(&mut f, &paths(true, "app.AppImage"), &[SwapPhase::MakeExecutable]);
    assert!(!ok);
    assert_eq!(steps[steps.len() - 2..], [SwapPhase::RemoveNew, SwapPhase::RestoreBackup]);
    assert_eq!(f.get("app.AppImage"), Some(&("old".to_string(), true)));
}

#[test]
fn failed_move_aside_removes_the_download() {
    let mut f = start();
    let (ok, _) = run(&mut f, &paths(true, "app.AppImage"), &[SwapPhase::MoveAside]);
    assert!(!ok);
    assert_eq!(f.get("app.AppImage"), Some(&("old".to_string(), true)));
    assert!(!f.contains_key("app.AppImage.tmp"));
}

#[test]
fn failed_restore_keeps_the_backup() {
    let mut f = start();
    let (ok, _) = run(
        &mut f,
        &paths(true, "app.AppImage"),
        &[SwapPhase::MoveIn, SwapPhase::RestoreBackup],
    );
    assert!(!ok);
    assert!(!f.contains_key("app.AppImage"));
    assert_eq!(f.get("app.AppImage.bak"), Some(&("old".to_string(), true)));
}

#[test]
fn fresh_install_skips_the_backup() {
    let mut f = Files::new();
    f.insert("app.AppImage.tmp".to_string(), ("new".to_string(), false));
    let (ok, steps) = run(&mut f, &paths(false, "app.AppImage"), &[]);
    assert!(ok);
    assert!(!steps.contains(&SwapPhase::MoveAside));
    assert_eq!(f.get("app.AppImage"), Some(&("new".to_string(), true)));
}
