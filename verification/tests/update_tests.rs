use scenter::appimage::AppImage;
use scenter::replace::{FileOp, SwapPaths};
use scenter::update::{
    missing_record_lines, start_update, update_step, UpdateAction, UpdateEvent, UpdatePhase,
    UpdateState,
};

fn paths() -> SwapPaths {
    SwapPaths {
        download: "/apps/foo.AppImage.tmp".to_string(),
        target: "/apps/foo.AppImage".to_string(),
        backup: "/apps/foo.AppImage.bak".to_string(),
        old: "/old/Foo-1.0.AppImage".to_string(),
        target_exists: true,
    }
}

fn app() -> AppImage {
    AppImage {
        id: "foo".to_string(),
        name: "Foo".to_string(),
        version: "1.0".to_string(),
        ..Default::default()
    }
}

/// The first 20 bytes of an ELF file for machine `m`.
fn header(m: u16) -> Vec<u8> {
    let mut h = vec![0u8; 20];
    h[0] = 0x7f;
    h[1] = b'E';
    h[2] = b'L';
    h[3] = b'F';
    h[18] = (m & 0xff) as u8;
    h[19] = (m >> 8) as u8;
    h
}

fn ok() -> UpdateEvent {
    UpdateEvent::OpDone(true, String::new())
}

fn step(s: UpdateState, ev: UpdateEvent) -> (UpdateState, UpdateAction, Vec<String>) {
    update_step(s, ev)
}

/// An update that has reached the swap, with the file operation it asks for first.
fn verified(hint: &str) -> (UpdateState, UpdateAction) {
    let (s, first) = start_update(&app(), hint.to_string(), paths(), "x86_64".to_string());
    assert_eq!(first, vec!["Downloading update for Foo...".to_string()]);
    let (s, _, l) = step(s, UpdateEvent::Downloaded(false, 100));
    assert_eq!(l, vec!["Download complete.".to_string()]);
    let (s, a, l) = step(s, UpdateEvent::Header(header(62)));
    assert_eq!(l, vec!["Verified x86_64 AppImage for x86_64.".to_string()]);
    (s, a)
}

fn is_op(a: &UpdateAction, want: &FileOp) -> bool {
    match (a, want) {
        (UpdateAction::Op(FileOp::Remove(x)), FileOp::Remove(y)) => x == y,
        (UpdateAction::Op(FileOp::Rename(x1, x2)), FileOp::Rename(y1, y2)) => x1 == y1 && x2 == y2,
        (UpdateAction::Op(FileOp::MakeExecutable(x)), FileOp::MakeExecutable(y)) => x == y,
        _ => false,
    }
}

#[test]
fn update_succeeds_and_records_the_new_version() {
    let (s, a) = verified("2.1");
    assert!(is_op(&a, &FileOp::Remove("/apps/foo.AppImage.bak".to_string())));
    let (s, a, _) = step(s, ok());
    assert!(is_op(&a, &FileOp::Rename("/apps/foo.AppImage".to_string(), "/apps/foo.AppImage.bak".to_string())));
    let (s, a, _) = step(s, ok());
    assert!(is_op(&a, &FileOp::Rename("/apps/foo.AppImage.tmp".to_string(), "/apps/foo.AppImage".to_string())));
    let (s, a, _) = step(s, ok());
    assert!(is_op(&a, &FileOp::MakeExecutable("/apps/foo.AppImage".to_string())));
    let (s, a, _) = step(s, ok());
    assert!(is_op(&a, &FileOp::Remove("/apps/foo.AppImage.bak".to_string())));
    let (s, a, _) = step(s, ok());
    assert!(is_op(&a, &FileOp::Remove("/old/Foo-1.0.AppImage".to_string())));
    let (s, a, l) = step(s, ok());
    assert!(matches!(a, UpdateAction::Extract));
    assert_eq!(l, vec!["Extracting updated metadata...".to_string()]);
    let (s, a, l) = step(s, UpdateEvent::Extracted("2.0".to_string(), "2024-05-01T10:00:00Z".to_string()));
    assert_eq!(l, vec!["Foo updated to 2.0.".to_string(), "__done__0".to_string()]);
    match a {
        UpdateAction::Save(v, p, t) => {
            assert_eq!(v, "2.0");
            assert_eq!(p, "/apps/foo.AppImage");
            assert_eq!(t, "2024-05-01T10:00:00Z");
        }
        other => panic!("unexpected action {:?}", other),
    }
    assert_eq!(s.phase, UpdatePhase::Finished(true));
}

#[test]
fn update_without_version_metadata_uses_the_hint_then_the_old_version() {
    let (mut s, _) = verified("2.1");
    for _ in 0..6 {
        s = step(s, ok()).0;
    }
    let (_, _, l) = step(s, UpdateEvent::Extracted(String::new(), "t".to_string()));
    assert_eq!(l[0], "Foo updated to 2.1.");

    let (mut s, _) = verified("");
    for _ in 0..6 {
        s = step(s, ok()).0;
    }
    let (_, a, l) = step(s, UpdateEvent::Extracted(String::new(), "t".to_string()));
    assert_eq!(l, vec!["Foo updated to 1.0.".to_string(), "__done__0".to_string()]);
    assert!(matches!(a, UpdateAction::Save(v, _, _) if v == "1.0"));
}

#[test]
fn update_rolls_back_when_the_new_file_cannot_be_made_executable() {
    let (mut s, _) = verified("");
    for _ in 0..3 {
        s = step(s, ok()).0;
    }
    assert_eq!(s.phase, UpdatePhase::Swap(scenter::replace::SwapPhase::MakeExecutable));
    let (s, a, l) = step(s, UpdateEvent::OpDone(false, "denied".to_string()));
    assert_eq!(l, vec!["Error: Failed to make AppImage executable.".to_string()]);
    assert!(is_op(&a, &FileOp::Remove("/apps/foo.AppImage".to_string())));
    let (s, a, l) = step(s, UpdateEvent::OpDone(false, "gone".to_string()));
    assert!(l.is_empty());
    assert!(is_op(&a, &FileOp::Rename("/apps/foo.AppImage.bak".to_string(), "/apps/foo.AppImage".to_string())));
    let (s, a, l) = step(s, ok());
    assert_eq!(l, vec!["__done__1".to_string()]);
    assert!(matches!(a, UpdateAction::Wait));
    assert_eq!(s.phase, UpdatePhase::Finished(false));
    let (_, _, l) = step(s, ok());
    assert!(l.is_empty());
}

#[test]
fn update_rolls_back_when_the_download_cannot_be_moved_in() {
    let (mut s, _) = verified("");
    for _ in 0..2 {
        s = step(s, ok()).0;
    }
    let (s, a, l) = step(s, UpdateEvent::OpDone(false, "cross-device link".to_string()));
    assert_eq!(l, vec!["Error: cross-device link".to_string()]);
    assert!(is_op(&a, &FileOp::Remove("/apps/foo.AppImage".to_string())));
    let (s, _, _) = step(s, ok());
    let (_, _, l) = step(s, ok());
    assert_eq!(l, vec!["__done__1".to_string()]);
}

#[test]
fn update_stops_when_the_installed_file_cannot_be_moved_aside() {
    let (s, _) = verified("");
    let (s, _, _) = step(s, ok());
    let (s, a, l) = step(s, UpdateEvent::OpDone(false, "busy".to_string()));
    assert_eq!(l, vec!["Error: busy".to_string()]);
    assert!(is_op(&a, &FileOp::Remove("/apps/foo.AppImage.tmp".to_string())));
    let (_, _, l) = step(s, ok());
    assert_eq!(l, vec!["__done__1".to_string()]);
}

#[test]
fn update_reports_progress_and_download_errors() {
    let (s, _) = start_update(&app(), String::new(), paths(), "x86_64".to_string());
    let (s, _, l) = step(s, UpdateEvent::Progress(50, 200));
    assert_eq!(l, vec!["DOWNLOAD:25".to_string()]);
    let (s, _, l) = step(s, UpdateEvent::Progress(50, 200));
    assert!(l.is_empty());
    let (s, _, l) = step(s, UpdateEvent::Progress(200, 200));
    assert_eq!(l, vec!["DOWNLOAD:100".to_string()]);
    let (_, a, l) = step(s, UpdateEvent::Failed("connection reset".to_string()));
    assert_eq!(l, vec!["Error: connection reset".to_string(), "__done__1".to_string()]);
    assert!(matches!(a, UpdateAction::RemoveDownload));

    let (s, _) = start_update(&app(), String::new(), paths(), "x86_64".to_string());
    let (_, _, l) = step(s, UpdateEvent::WriteFailed("disk full".to_string()));
    assert_eq!(l, vec!["Error writing file: disk full".to_string(), "__done__1".to_string()]);

    let (s, _) = start_update(&app(), String::new(), paths(), "x86_64".to_string());
    let (_, a, l) = step(s, UpdateEvent::Downloaded(false, 0));
    assert_eq!(l, vec!["DOWNLOAD:100".to_string(), "Download complete.".to_string()]);
    assert!(matches!(a, UpdateAction::Verify));

    let (s, _) = start_update(&app(), String::new(), paths(), "x86_64".to_string());
    let (_, _, l) = step(s, UpdateEvent::Downloaded(true, 0));
    assert_eq!(l, vec!["Delta update (zsync) selesai.".to_string()]);
}

#[test]
fn update_refuses_a_download_for_another_machine() {
    let (s, _) = start_update(&app(), String::new(), paths(), "x86_64".to_string());
    let (s, _, _) = step(s, UpdateEvent::Downloaded(false, 10));
    let (s, a, l) = step(s, UpdateEvent::Header(header(183)));
    assert_eq!(
        l,
        vec![
            "Error: Architecture mismatch: host is x86_64, downloaded AppImage is aarch64.".to_string(),
            "__done__1".to_string()
        ]
    );
    assert!(matches!(a, UpdateAction::RemoveDownload));
    assert_eq!(s.phase, UpdatePhase::Finished(false));

    let (s, _) = start_update(&app(), String::new(), paths(), "x86_64".to_string());
    let (s, _, _) = step(s, UpdateEvent::Downloaded(false, 10));
    let (_, _, l) = step(s, UpdateEvent::Header(b"#!/bin/sh\necho hi\n\n\n".to_vec()));
    assert_eq!(l[0], "Error: Downloaded file is not an ELF executable (AppImage).");
}

#[test]
fn update_of_a_missing_record_fails_at_once() {
    assert_eq!(
        missing_record_lines("foo", false),
        vec!["Error: foo not installed.".to_string(), "__done__1".to_string()]
    );
    assert_eq!(
        missing_record_lines("foo", true),
        vec!["Error: Failed to read sidecar.".to_string(), "__done__1".to_string()]
    );
}

/// Perform a file operation on in-memory files; `fail` forces a failure.
fn apply(files: &mut std::collections::HashMap<String, (String, bool)>, op: &FileOp, fail: bool) -> bool {
    if fail {
        return false;
    }
    match op {
        FileOp::Remove(p) => files.remove(p).is_some(),
        FileOp::Rename(a, b) => match files.remove(a) {
            Some(v) => {
                files.insert(b.clone(), v);
                true
            }
            None => false,
        },
        FileOp::MakeExecutable(p) => match files.get_mut(p) {
            Some(v) => {
                v.1 = true;
                true
            }
            None => false,
        },
        FileOp::Nothing => true,
    }
}

#[test]
fn failed_update_keeps_the_installed_file_and_success_installs_the_download() {
    for fail_at in [None, Some(2usize), Some(3)] {
        let mut files = std::collections::HashMap::new();
        files.insert("/apps/foo.AppImage".to_string(), ("old".to_string(), true));
        files.insert("/apps/foo.AppImage.tmp".to_string(), ("new".to_string(), false));
        let (mut s, mut a) = verified("");
        let mut last = Vec::new();
        let mut n = 0;
        loop {
            let op = match &a {
                UpdateAction::Op(op) => op.clone(),
                _ => break,
            };
            let ok = apply(&mut files, &op, fail_at == Some(n));
            n += 1;
            let (s2, a2, l) = step(s, UpdateEvent::OpDone(ok, "failed".to_string()));
            s = s2;
            a = a2;
            last = l;
        }
        match fail_at {
            None => {
                assert!(matches!(a, UpdateAction::Extract));
                assert_eq!(files.get("/apps/foo.AppImage"), Some(&("new".to_string(), true)));
            }
            Some(_) => {
                assert_eq!(last.last().unwrap(), "__done__1");
                assert_eq!(s.phase, UpdatePhase::Finished(false));
                assert_eq!(files.get("/apps/foo.AppImage"), Some(&("old".to_string(), true)));
            }
        }
    }
}
