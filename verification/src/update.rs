//! Updating an installed AppImage: download, check the file, put it in
//! place with a backup to roll back to, and record the new version. The
//! runner performs each action and reports how it went; this module decides
//! what comes next and which lines the update's log shows. The last line is
//! `__done__0` on success and `__done__1` on failure.

use vstd::prelude::*;
use crate::appimage::{
    arch_ok, check_elf_and_arch, elf_machine_spec, lowered_file_name, machine_fits_host,
    machine_name_of, machine_name_spec, progress_spec, string_views, AppImage, ElfError,
};
use crate::num::{dec_digits, fmt_u64};
use crate::replace::{
    apply_op, lemma_swap_step, op_view, swap_inv, swap_next, swap_next_spec, swap_op, swap_op_spec,
    FileOp, Files, SwapPaths, SwapPhase,
};
use crate::text::{chars_of, has_prefix, push_str, string_of};

verus! {

/// Where an update stands.
#[derive(Debug, Clone, Copy, PartialEq, Eq, Structural)]
pub enum UpdatePhase {
    Download,
    Verify,
    Swap(SwapPhase),
    Extract,
    /// The update has ended: `true` when it succeeded.
    Finished(bool),
}

/// An update in progress.
#[derive(Debug)]
pub struct UpdateState {
    pub phase: UpdatePhase,
    /// The name of the AppImage being updated.
    pub name: String,
    /// Its installed version.
    pub old_version: String,
    /// The version the update check announced (may be empty).
    pub hint: String,
    pub paths: SwapPaths,
    /// The host's architecture, as `uname -m` gives it.
    pub host: String,
    /// The last download percentage shown.
    pub last_pct: u64,
}

/// What the runner reports.
#[derive(Debug, Clone)]
pub enum UpdateEvent {
    /// Bytes downloaded so far, of the total (0 when unknown).
    Progress(u64, u64),
    /// The download finished: by a delta update, and the total size.
    Downloaded(bool, u64),
    /// The download, or reading the downloaded file, failed: the error's text.
    Failed(String),
    /// Writing the downloaded file failed: the error's text.
    WriteFailed(String),
    /// The first bytes of the downloaded file (up to 20).
    Header(Vec<u8>),
    /// A file operation finished: whether it succeeded, and its error text.
    OpDone(bool, String),
    /// The new file's metadata: the version read from it, and the time now.
    Extracted(String, String),
}

/// What the runner does next.
#[derive(Debug, Clone)]
pub enum UpdateAction {
    /// Nothing new: keep going with what runs, or stop.
    Wait,
    /// Read the first bytes of the download and report them.
    Verify,
    RemoveDownload,
    Op(FileOp),
    Extract,
    /// Record the update in the sidecar file: the new version, installed
    /// path and time of the check.
    Save(String, String, String),
}

/// An action as plain values: its kind (0 wait, 1 verify, 2 remove the
/// download, 3 file operation, 4 extract, 5 save) and its file operation
/// (for a save: the version and the path).
pub open spec fn action_view(a: UpdateAction) -> (int, (int, Seq<char>, Seq<char>)) {
    match a {
        UpdateAction::Wait => (0, no_op()),
        UpdateAction::Verify => (1, no_op()),
        UpdateAction::RemoveDownload => (2, no_op()),
        UpdateAction::Op(o) => (3, op_view(o)),
        UpdateAction::Extract => (4, no_op()),
        UpdateAction::Save(v, p, _) => (5, (3, v@, p@)),
    }
}

pub open spec fn no_op() -> (int, Seq<char>, Seq<char>) {
    (3, Seq::empty(), Seq::empty())
}

pub open spec fn error_line(e: Seq<char>) -> Seq<char> {
    "Error: "@ + e
}

/// Why a download is refused: `None` when it is an ELF executable for the
/// host whose file name does not point to another architecture.
pub open spec fn verify_error(h: Seq<u8>, path: Seq<char>, host: Seq<char>) -> Option<Seq<char>> {
    match elf_machine_spec(h) {
        Err(ElfError::TooSmall) => Some("Downloaded file is too small to be an AppImage."@),
        Err(ElfError::NotElf) => Some("Downloaded file is not an ELF executable (AppImage)."@),
        Ok(m) => if !machine_fits_host(host, m) {
            Some(
                "Architecture mismatch: host is "@ + host + ", downloaded AppImage is "@
                    + machine_name_spec(Ok(m))@ + "."@,
            )
        } else if !arch_ok(lowered_file_name(path), host) {
            Some(
                "Architecture mismatch: host is "@ + host
                    + ", but the downloaded file name targets another architecture ("@
                    + lowered_file_name(path) + ")."@,
            )
        } else {
            None
        },
    }
}

/// The version recorded after an update: the one read from the new file,
/// else the announced one, else the old one.
pub open spec fn new_version_spec(read: Seq<char>, hint: Seq<char>, old: Seq<char>) -> Seq<char> {
    if read.len() > 0 {
        read
    } else if hint.len() > 0 {
        hint
    } else {
        old
    }
}

/// The line shown when a swap step fails (none for the steps whose
/// failure is ignored).
pub open spec fn swap_fail_lines(p: SwapPhase, ok: bool, e: Seq<char>) -> Seq<Seq<char>> {
    if !ok && (p == SwapPhase::MoveAside || p == SwapPhase::MoveIn) {
        seq![error_line(e)]
    } else if !ok && p == SwapPhase::MakeExecutable {
        seq!["Error: Failed to make AppImage executable."@]
    } else {
        Seq::empty()
    }
}

/// The phase after an event.
pub open spec fn next_phase(s: UpdateState, ev: UpdateEvent) -> UpdatePhase {
    let p = s.paths;
    match (s.phase, ev) {
        (UpdatePhase::Download, UpdateEvent::Downloaded(_, _)) => UpdatePhase::Verify,
        (UpdatePhase::Download, UpdateEvent::Failed(_)) => UpdatePhase::Finished(false),
        (UpdatePhase::Download, UpdateEvent::WriteFailed(_)) => UpdatePhase::Finished(false),
        (UpdatePhase::Verify, UpdateEvent::Header(h)) => match verify_error(h@, p.download@, s.host@) {
            None => UpdatePhase::Swap(SwapPhase::DropStaleBackup),
            Some(_) => UpdatePhase::Finished(false),
        },
        (UpdatePhase::Verify, UpdateEvent::Failed(_)) => UpdatePhase::Finished(false),
        (UpdatePhase::Swap(w), UpdateEvent::OpDone(ok, _)) => match swap_next_spec(w, ok, p) {
            SwapPhase::Done(true) => UpdatePhase::Extract,
            SwapPhase::Done(false) => UpdatePhase::Finished(false),
            n => UpdatePhase::Swap(n),
        },
        (UpdatePhase::Extract, UpdateEvent::Extracted(_, _)) => UpdatePhase::Finished(true),
        _ => s.phase,
    }
}

/// The percentage last shown after an event.
pub open spec fn next_pct(s: UpdateState, ev: UpdateEvent) -> u64 {
    match (s.phase, ev) {
        (UpdatePhase::Download, UpdateEvent::Progress(d, t)) => match progress_spec(d, t, s.last_pct) {
            Some(p) => p,
            None => s.last_pct,
        },
        _ => s.last_pct,
    }
}

/// The state after an event.
pub open spec fn next_state(s: UpdateState, ev: UpdateEvent) -> UpdateState {
    UpdateState {
        phase: next_phase(s, ev),
        name: s.name,
        old_version: s.old_version,
        hint: s.hint,
        paths: s.paths,
        host: s.host,
        last_pct: next_pct(s, ev),
    }
}

/// The action after an event.
pub open spec fn next_action(s: UpdateState, ev: UpdateEvent) -> (int, (int, Seq<char>, Seq<char>)) {
    let p = s.paths;
    match (s.phase, ev) {
        (UpdatePhase::Download, UpdateEvent::Downloaded(_, _)) => (1, no_op()),
        (UpdatePhase::Download, UpdateEvent::Failed(_)) => (2, no_op()),
        (UpdatePhase::Download, UpdateEvent::WriteFailed(_)) => (2, no_op()),
        (UpdatePhase::Verify, UpdateEvent::Header(h)) => match verify_error(h@, p.download@, s.host@) {
            None => (3, swap_op_spec(SwapPhase::DropStaleBackup, p)),
            Some(_) => (2, no_op()),
        },
        (UpdatePhase::Verify, UpdateEvent::Failed(_)) => (2, no_op()),
        (UpdatePhase::Swap(w), UpdateEvent::OpDone(ok, _)) => match swap_next_spec(w, ok, p) {
            SwapPhase::Done(true) => (4, no_op()),
            SwapPhase::Done(false) => (0, no_op()),
            n => (3, swap_op_spec(n, p)),
        },
        (UpdatePhase::Extract, UpdateEvent::Extracted(read, _)) => (
            5,
            (3, new_version_spec(read@, s.hint@, s.old_version@), p.target@),
        ),
        _ => (0, no_op()),
    }
}

/// The lines shown after an event.
pub open spec fn step_lines(s: UpdateState, ev: UpdateEvent) -> Seq<Seq<char>> {
    match (s.phase, ev) {
        (UpdatePhase::Download, UpdateEvent::Progress(d, t)) => match progress_spec(d, t, s.last_pct) {
            Some(pct) => seq!["DOWNLOAD:"@ + dec_digits(pct as nat)],
            None => Seq::empty(),
        },
        (UpdatePhase::Download, UpdateEvent::Downloaded(delta, t)) => if delta {
            seq!["Delta update (zsync) selesai."@]
        } else if t == 0 {
            seq!["DOWNLOAD:100"@, "Download complete."@]
        } else {
            seq!["Download complete."@]
        },
        (UpdatePhase::Download, UpdateEvent::Failed(e)) => seq![error_line(e@), "__done__1"@],
        (UpdatePhase::Download, UpdateEvent::WriteFailed(e)) => seq![
            "Error writing file: "@ + e@,
            "__done__1"@,
        ],
        (UpdatePhase::Verify, UpdateEvent::Header(h)) => match verify_error(
            h@,
            s.paths.download@,
            s.host@,
        ) {
            None => seq![
                "Verified "@ + machine_name_spec(elf_machine_spec(h@))@ + " AppImage for "@ + s.host@
                    + "."@,
            ],
            Some(m) => seq![error_line(m), "__done__1"@],
        },
        (UpdatePhase::Verify, UpdateEvent::Failed(e)) => seq![error_line(e@), "__done__1"@],
        (UpdatePhase::Swap(p), UpdateEvent::OpDone(ok, e)) => {
            let f = swap_fail_lines(p, ok, e@);
            match swap_next_spec(p, ok, s.paths) {
                SwapPhase::Done(true) => f.push("Extracting updated metadata..."@),
                SwapPhase::Done(false) => f.push("__done__1"@),
                _ => f,
            }
        },
        (UpdatePhase::Extract, UpdateEvent::Extracted(read, _)) => seq![
            s.name@ + " updated to "@ + new_version_spec(read@, s.hint@, s.old_version@) + "."@,
            "__done__0"@,
        ],
        _ => Seq::empty(),
    }
}

/// The first line of an update of `app`, and its state.
pub fn start_update(app: &AppImage, hint: String, paths: SwapPaths, host: String) -> (r: (UpdateState, Vec<String>))
    ensures
        r.0.phase == UpdatePhase::Download && r.0.name@ == app.name@ && r.0.old_version@
            == app.version@ && r.0.hint == hint && r.0.paths == paths && r.0.host == host
            && r.0.last_pct == 0,
        string_views(r.1@) == seq!["Downloading update for "@ + app.name@ + "..."@],
{
    let mut l = chars_of("Downloading update for ");
    push_str(&mut l, app.name.as_str());
    push_str(&mut l, "...");
    let mut lines: Vec<String> = Vec::new();
    lines.push(string_of(&l));
    assert(string_views(lines@) =~= seq!["Downloading update for "@ + app.name@ + "..."@]);
    let st = UpdateState {
        phase: UpdatePhase::Download,
        name: text(app.name.as_str()),
        old_version: text(app.version.as_str()),
        hint,
        paths,
        host,
        last_pct: 0,
    };
    (st, lines)
}

/// The lines for a record that cannot be updated: missing, or unreadable.
pub fn missing_record_lines(app_id: &str, unreadable: bool) -> (r: Vec<String>)
    ensures
        string_views(r@) == (if unreadable {
            seq!["Error: Failed to read sidecar."@, "__done__1"@]
        } else {
            seq!["Error: "@ + app_id@ + " not installed."@, "__done__1"@]
        }),
{
    let mut lines: Vec<String> = Vec::new();
    if unreadable {
        lines.push(string_of(&chars_of("Error: Failed to read sidecar.")));
    } else {
        let mut l = chars_of("Error: ");
        push_str(&mut l, app_id);
        push_str(&mut l, " not installed.");
        lines.push(string_of(&l));
    }
    lines.push(string_of(&chars_of("__done__1")));
    proof {
        if unreadable {
            assert(string_views(lines@) =~= seq!["Error: Failed to read sidecar."@, "__done__1"@]);
        } else {
            assert(string_views(lines@) =~= seq!["Error: "@ + app_id@ + " not installed."@, "__done__1"@]);
        }
    }
    lines
}

fn text(s: &str) -> (r: String)
    ensures
        r@ == s@,
{
    string_of(&chars_of(s))
}

fn error_text(e: &String) -> (r: String)
    ensures
        r@ == error_line(e@),
{
    let mut l = chars_of("Error: ");
    push_str(&mut l, e.as_str());
    string_of(&l)
}

/// One step of an update: the state after the event, the action to take,
/// and the lines to show.
pub fn update_step(s: UpdateState, ev: UpdateEvent) -> (r: (UpdateState, UpdateAction, Vec<String>))
    ensures
        r.0 == next_state(s, ev),
        action_view(r.1) == next_action(s, ev),
        string_views(r.2@) == step_lines(s, ev),
        r.1 matches UpdateAction::Save(_, _, now) ==> (ev matches UpdateEvent::Extracted(_, t) && now
            == t),
{
    let ghost s0 = s;
    let UpdateState { phase, name, old_version, hint, paths, host, last_pct } = s;
    let mut lines: Vec<String> = Vec::new();
    let mut pct_now = last_pct;
    let mut ph = phase;
    let mut action = UpdateAction::Wait;
    match (phase, ev) {
        (UpdatePhase::Download, UpdateEvent::Progress(d, t)) => {
            match crate::appimage::download_progress(d, t, last_pct) {
                Some(pct) => {
                    let l = crate::text::concat(&chars_of("DOWNLOAD:"), &fmt_u64(pct));
                    lines.push(string_of(&l));
                    pct_now = pct;
                },
                None => {},
            }
        },
        (UpdatePhase::Download, UpdateEvent::Downloaded(delta, t)) => {
            if delta {
                lines.push(text("Delta update (zsync) selesai."));
            } else {
                if t == 0 {
                    lines.push(text("DOWNLOAD:100"));
                }
                lines.push(text("Download complete."));
            }
            ph = UpdatePhase::Verify;
            action = UpdateAction::Verify;
        },
        (UpdatePhase::Download, UpdateEvent::Failed(e)) | (UpdatePhase::Verify, UpdateEvent::Failed(e)) => {
            lines.push(error_text(&e));
            lines.push(text("__done__1"));
            ph = UpdatePhase::Finished(false);
            action = UpdateAction::RemoveDownload;
        },
        (UpdatePhase::Download, UpdateEvent::WriteFailed(e)) => {
            let mut l = chars_of("Error writing file: ");
            push_str(&mut l, e.as_str());
            lines.push(string_of(&l));
            lines.push(text("__done__1"));
            ph = UpdatePhase::Finished(false);
            action = UpdateAction::RemoveDownload;
        },
        (UpdatePhase::Verify, UpdateEvent::Header(h)) => {
            match check_elf_and_arch(h.as_slice(), paths.download.as_str(), host.as_str()) {
                Ok(()) => {
                    let mut l = chars_of("Verified ");
                    push_str(&mut l, machine_name_of(h.as_slice()));
                    push_str(&mut l, " AppImage for ");
                    push_str(&mut l, host.as_str());
                    push_str(&mut l, ".");
                    lines.push(string_of(&l));
                    ph = UpdatePhase::Swap(SwapPhase::DropStaleBackup);
                    action = UpdateAction::Op(swap_op(SwapPhase::DropStaleBackup, &paths));
                },
                Err(a) => {
                    let m = a.message();
                    lines.push(error_text(&m));
                    lines.push(text("__done__1"));
                    ph = UpdatePhase::Finished(false);
                    action = UpdateAction::RemoveDownload;
                },
            }
        },
        (UpdatePhase::Swap(w), UpdateEvent::OpDone(ok, e)) => {
            if !ok {
                match w {
                    SwapPhase::MoveAside | SwapPhase::MoveIn => lines.push(error_text(&e)),
                    SwapPhase::MakeExecutable => lines.push(text("Error: Failed to make AppImage executable.")),
                    _ => {},
                }
            }
            assert(string_views(lines@) =~= swap_fail_lines(w, ok, e@));
            let n = swap_next(w, ok, &paths);
            match n {
                SwapPhase::Done(true) => {
                    lines.push(text("Extracting updated metadata..."));
                    ph = UpdatePhase::Extract;
                    action = UpdateAction::Extract;
                },
                SwapPhase::Done(false) => {
                    lines.push(text("__done__1"));
                    ph = UpdatePhase::Finished(false);
                },
                _ => {
                    ph = UpdatePhase::Swap(n);
                    action = UpdateAction::Op(swap_op(n, &paths));
                },
            }
        },
        (UpdatePhase::Extract, UpdateEvent::Extracted(read, now)) => {
            let v = crate::appimage::updated_version(read.as_str(), hint.as_str(), old_version.as_str());
            let mut c = chars_of(name.as_str());
            push_str(&mut c, " updated to ");
            push_str(&mut c, v.as_str());
            push_str(&mut c, ".");
            lines.push(string_of(&c));
            lines.push(text("__done__0"));
            ph = UpdatePhase::Finished(true);
            action = UpdateAction::Save(v, text(paths.target.as_str()), now);
        },
        _ => {},
    }
    assert(string_views(lines@) =~= step_lines(s0, ev));
    (UpdateState { phase: ph, name, old_version, hint, paths, host, last_pct: pct_now }, action, lines)
}

// ── Laws of a whole update ──────────────────────────────────────────────────

/// The state after a run of events.
pub open spec fn run_state(s: UpdateState, evs: Seq<UpdateEvent>) -> UpdateState
    decreases evs.len(),
{
    if evs.len() == 0 {
        s
    } else {
        run_state(next_state(s, evs[0]), evs.drop_first())
    }
}

/// The lines shown over a run of events.
pub open spec fn run_lines(s: UpdateState, evs: Seq<UpdateEvent>) -> Seq<Seq<char>>
    decreases evs.len(),
{
    if evs.len() == 0 {
        Seq::empty()
    } else {
        step_lines(s, evs[0]) + run_lines(next_state(s, evs[0]), evs.drop_first())
    }
}

pub open spec fn is_done_line(l: Seq<char>) -> bool {
    has_prefix(l, "__done__"@)
}

proof fn lemma_not_done(l: Seq<char>)
    requires
        l.len() > 0,
        l[0] != '_',
    ensures
        !is_done_line(l),
{
    reveal_strlit("__done__");
    if is_done_line(l) {
        assert(l.subrange(0, 8)[0] == l[0]);
    }
}

proof fn lemma_lit_not_done(a: Seq<char>, b: Seq<char>)
    requires
        a.len() > 0,
        a[0] != '_',
    ensures
        !is_done_line(a + b),
{
    assert((a + b)[0] == a[0]);
    lemma_not_done(a + b);
}

proof fn lemma_done_lit(c: char)
    ensures
        is_done_line("__done__"@.push(c)),
{
    reveal_strlit("__done__");
    assert("__done__"@.push(c).subrange(0, 8) =~= "__done__"@);
}

spec fn step_done_ok(s: UpdateState, ev: UpdateEvent) -> bool {
    let l = step_lines(s, ev);
    &&& forall|i: int| 0 <= i < l.len() - 1 ==> !is_done_line(#[trigger] l[i])
    &&& s.phase is Finished ==> l.len() == 0 && next_phase(s, ev) == s.phase
    &&& (s.phase !is Finished && next_phase(s, ev) == UpdatePhase::Finished(false)) ==> l.len() > 0
        && l.last() == "__done__1"@
    &&& (s.phase !is Finished && next_phase(s, ev) == UpdatePhase::Finished(true)) ==> l.len() > 0
        && l.last() == "__done__0"@
    &&& (s.phase !is Finished && next_phase(s, ev) is Finished) <==> (l.len()
        > 0 && is_done_line(l.last()))
}

/// One step: only its last line may be an end marker, and it is one
/// exactly when the step ends the update.
proof fn lemma_step_done(s: UpdateState, ev: UpdateEvent)
    requires
        !is_done_line(s.name@ + " updated to "@),
    ensures
        step_done_ok(s, ev),
{
    reveal_strlit("__done__0");
    reveal_strlit("__done__1");
    reveal_strlit("__done__");
    reveal_strlit("Error: ");
    reveal_strlit("Error writing file: ");
    reveal_strlit("DOWNLOAD:");
    reveal_strlit("DOWNLOAD:100");
    reveal_strlit("Download complete.");
    reveal_strlit("Delta update (zsync) selesai.");
    reveal_strlit("Verified ");
    reveal_strlit("Extracting updated metadata...");
    reveal_strlit("Error: Failed to make AppImage executable.");
    assert("__done__0"@ =~= "__done__"@.push('0'));
    assert("__done__1"@ =~= "__done__"@.push('1'));
    lemma_done_lit('0');
    lemma_done_lit('1');
    lemma_not_done("DOWNLOAD:100"@);
    lemma_not_done("Download complete."@);
    lemma_not_done("Delta update (zsync) selesai."@);
    lemma_not_done("Extracting updated metadata..."@);
    lemma_not_done("Error: Failed to make AppImage executable."@);
    let l = step_lines(s, ev);
    match (s.phase, ev) {
        (UpdatePhase::Download, UpdateEvent::Progress(d, t)) => {
            match progress_spec(d, t, s.last_pct) {
                Some(pct) => lemma_lit_not_done("DOWNLOAD:"@, dec_digits(pct as nat)),
                None => {},
            }
        },
        (UpdatePhase::Download, UpdateEvent::Failed(e)) => lemma_lit_not_done("Error: "@, e@),
        (UpdatePhase::Verify, UpdateEvent::Failed(e)) => lemma_lit_not_done("Error: "@, e@),
        (UpdatePhase::Download, UpdateEvent::WriteFailed(e)) => lemma_lit_not_done(
            "Error writing file: "@,
            e@,
        ),
        (UpdatePhase::Verify, UpdateEvent::Header(h)) => {
            match verify_error(h@, s.paths.download@, s.host@) {
                None => {
                    let m = machine_name_spec(elf_machine_spec(h@))@;
                    let line = "Verified "@ + m + " AppImage for "@ + s.host@ + "."@;
                    assert(line =~= "Verified "@ + (m + " AppImage for "@ + s.host@ + "."@));
                    lemma_lit_not_done("Verified "@, m + " AppImage for "@ + s.host@ + "."@);
                },
                Some(m) => lemma_lit_not_done("Error: "@, m),
            }
        },
        (UpdatePhase::Swap(w), UpdateEvent::OpDone(ok, e)) => {
            lemma_lit_not_done("Error: "@, e@);
        },
        (UpdatePhase::Extract, UpdateEvent::Extracted(read, _)) => {
            let v = new_version_spec(read@, s.hint@, s.old_version@);
            let line = s.name@ + " updated to "@ + v + "."@;
            assert(line.subrange(0, (s.name@ + " updated to "@).len() as int) =~= s.name@
                + " updated to "@);
            if is_done_line(line) {
                assert((s.name@ + " updated to "@).len() >= 8) by {
                    reveal_strlit(" updated to ");
                }
                assert(line.subrange(0, 8) =~= (s.name@ + " updated to "@).subrange(0, 8));
            }
        },
        _ => {},
    }
}

proof fn lemma_finished_run(s: UpdateState, evs: Seq<UpdateEvent>)
    requires
        s.phase is Finished,
        !is_done_line(s.name@ + " updated to "@),
    ensures
        run_lines(s, evs).len() == 0,
        run_state(s, evs).phase == s.phase,
    decreases evs.len(),
{
    if evs.len() > 0 {
        lemma_step_done(s, evs[0]);
        lemma_finished_run(next_state(s, evs[0]), evs.drop_first());
    }
}

/// Whatever the runner reports, an update shows at most one end marker
/// (`__done__0` or `__done__1`), and only as its last line; it shows one
/// exactly when the update has come to its end: `__done__0` when it
/// succeeded, `__done__1` when it failed. (A name that makes the
/// success line itself begin with the marker is left out.)
pub proof fn law_update_done_comes_last(s: UpdateState, evs: Seq<UpdateEvent>)
    requires
        !is_done_line(s.name@ + " updated to "@),
    ensures
        ({
            let l = run_lines(s, evs);
            &&& forall|i: int| 0 <= i < l.len() - 1 ==> !is_done_line(#[trigger] l[i])
            &&& s.phase !is Finished ==> ((run_state(s, evs).phase is Finished) <==> (l.len() > 0
                && is_done_line(l.last())))
            &&& s.phase !is Finished && run_state(s, evs).phase == UpdatePhase::Finished(false)
                ==> l.last() == "__done__1"@
            &&& s.phase !is Finished && run_state(s, evs).phase == UpdatePhase::Finished(true)
                ==> l.last() == "__done__0"@
        }),
    decreases evs.len(),
{
    if evs.len() > 0 {
        let s1 = next_state(s, evs[0]);
        let rest = evs.drop_first();
        lemma_step_done(s, evs[0]);
        law_update_done_comes_last(s1, rest);
        let a = step_lines(s, evs[0]);
        let b = run_lines(s1, rest);
        let l = run_lines(s, evs);
        assert(l =~= a + b);
        if a.len() > 0 && is_done_line(a.last()) {
            lemma_finished_run(s1, rest);
            assert(l =~= a);
        }
        if s1.phase is Finished {
            lemma_finished_run(s1, rest);
        }
        assert forall|i: int| 0 <= i < l.len() - 1 implies !is_done_line(#[trigger] l[i]) by {
            if i < a.len() - 1 {
                assert(l[i] == a[i]);
            } else if i == a.len() - 1 {
                assert(l[i] == a[i]);
            } else {
                assert(l[i] == b[i - a.len()]);
            }
        }
        if b.len() > 0 {
            assert(l.last() == b.last());
        } else {
            assert(l =~= a);
        }
    }
}

/// Once the installed AppImage has been moved aside, a failure to move the
/// download in or to make it executable removes the new file, then renames
/// the backup back into place, whatever those two operations report; the
/// update then ends with `__done__1`.
pub proof fn law_update_failed_swap_restores(
    s: UpdateState,
    e: String,
    ok1: bool,
    e1: String,
    ok2: bool,
    e2: String,
)
    requires
        s.phase == UpdatePhase::Swap(SwapPhase::MoveIn) || s.phase == UpdatePhase::Swap(
            SwapPhase::MakeExecutable,
        ),
    ensures
        ({
            let p = s.paths;
            let s1 = next_state(s, UpdateEvent::OpDone(false, e));
            let s2 = next_state(s1, UpdateEvent::OpDone(ok1, e1));
            let s3 = next_state(s2, UpdateEvent::OpDone(ok2, e2));
            &&& next_action(s, UpdateEvent::OpDone(false, e)) == (3int, (0int, p.target@, Seq::<
                char,
            >::empty()))
            &&& next_action(s1, UpdateEvent::OpDone(ok1, e1)) == (3int, (1int, p.backup@, p.target@))
            &&& s3.phase == UpdatePhase::Finished(false)
            &&& step_lines(s2, UpdateEvent::OpDone(ok2, e2)) == seq!["__done__1"@]
        }),
{
    let s1 = next_state(s, UpdateEvent::OpDone(false, e));
    let s2 = next_state(s1, UpdateEvent::OpDone(ok1, e1));
    assert(s1.phase == UpdatePhase::Swap(SwapPhase::RemoveNew));
    assert(s2.phase == UpdatePhase::Swap(SwapPhase::RestoreBackup));
    assert(swap_fail_lines(SwapPhase::RestoreBackup, ok2, e2@) =~= Seq::<Seq<char>>::empty());
    assert(Seq::<Seq<char>>::empty().push("__done__1"@) =~= seq!["__done__1"@]);
}

/// When the new file's metadata has been read, the update records the
/// version read from it (else the announced one, else the old one) with
/// the installed path and the time, and its last two lines are
/// `"{name} updated to {version}."` and `__done__0`.
pub proof fn law_update_success_record(s: UpdateState, read: String, now: String)
    requires
        s.phase == UpdatePhase::Extract,
    ensures
        ({
            let v = new_version_spec(read@, s.hint@, s.old_version@);
            let ev = UpdateEvent::Extracted(read, now);
            &&& next_action(s, ev) == (5int, (3int, v, s.paths.target@))
            &&& step_lines(s, ev) == seq![s.name@ + " updated to "@ + v + "."@, "__done__0"@]
            &&& next_phase(s, ev) == UpdatePhase::Finished(true)
        }),
{
}

// ── What a whole update does to the files ─────────────────────────────────

/// The files after an event: a swap step's operation applied with the
/// outcome the runner reports (see `apply_op`); other events leave them.
pub open spec fn event_files(s: UpdateState, ev: UpdateEvent, fs: Files) -> Option<Files> {
    match (s.phase, ev) {
        (UpdatePhase::Swap(w), UpdateEvent::OpDone(ok, _)) => apply_op(fs, swap_op_spec(w, s.paths), ok),
        _ => Some(fs),
    }
}

/// The files after a run of events; `None` when a reported outcome is
/// impossible.
pub open spec fn run_files(s: UpdateState, evs: Seq<UpdateEvent>, fs: Files) -> Option<Files>
    decreases evs.len(),
{
    if evs.len() == 0 {
        Some(fs)
    } else {
        match event_files(s, evs[0], fs) {
            None => None,
            Some(f2) => run_files(next_state(s, evs[0]), evs.drop_first(), f2),
        }
    }
}

/// What holds of the files in each phase of an update that started from `fs0`.
pub open spec fn update_files_inv(s: UpdateState, fs: Files, fs0: Files) -> bool {
    match s.phase {
        UpdatePhase::Download => fs == fs0,
        UpdatePhase::Verify => fs == fs0,
        UpdatePhase::Swap(w) => swap_inv(w, fs, fs0, s.paths),
        UpdatePhase::Extract => swap_inv(SwapPhase::Done(true), fs, fs0, s.paths),
        UpdatePhase::Finished(ok) => swap_inv(SwapPhase::Done(ok), fs, fs0, s.paths) || (!ok && fs
            == fs0),
    }
}

pub open spec fn distinct_paths(p: SwapPaths, fs0: Files) -> bool {
    &&& p.download@ != p.target@ && p.download@ != p.backup@ && p.target@ != p.backup@
    &&& fs0.contains_key(p.download@)
    &&& p.target_exists == fs0.contains_key(p.target@)
}

proof fn lemma_files_step(s: UpdateState, ev: UpdateEvent, fs: Files, fs0: Files)
    requires
        distinct_paths(s.paths, fs0),
        update_files_inv(s, fs, fs0),
        event_files(s, ev, fs) is Some,
    ensures
        update_files_inv(next_state(s, ev), event_files(s, ev, fs)->0, fs0),
{
    match (s.phase, ev) {
        (UpdatePhase::Swap(w), UpdateEvent::OpDone(ok, _)) => {
            lemma_swap_step(w, fs, fs0, s.paths, ok);
        },
        _ => {},
    }
}

proof fn lemma_files_run(s: UpdateState, evs: Seq<UpdateEvent>, fs: Files, fs0: Files)
    requires
        distinct_paths(s.paths, fs0),
        update_files_inv(s, fs, fs0),
        run_files(s, evs, fs) is Some,
    ensures
        update_files_inv(run_state(s, evs), run_files(s, evs, fs)->0, fs0),
        run_state(s, evs).paths == s.paths,
    decreases evs.len(),
{
    if evs.len() > 0 {
        lemma_files_step(s, evs[0], fs, fs0);
        lemma_files_run(next_state(s, evs[0]), evs.drop_first(), event_files(s, evs[0], fs)->0, fs0);
    }
}

/// A whole update, from its download on, whatever the runner reports: its
/// lines hold one end marker at most, the last one, and only when it has
/// ended. When it ended with `__done__1`, the AppImage that was installed
/// is still where it was or in the backup file; when it ended with
/// `__done__0`, the verified download is in place and executable. `fs0`
/// are the files once the download is written; each file operation of the
/// swap changes them as `apply_op` says, with the outcome the runner
/// reported. (A name that makes the success line begin with the end marker
/// is left out.)
pub proof fn law_update_run(s: UpdateState, evs: Seq<UpdateEvent>, fs0: Files)
    requires
        s.phase == UpdatePhase::Download,
        !is_done_line(s.name@ + " updated to "@),
        distinct_paths(s.paths, fs0),
        run_files(s, evs, fs0) is Some,
    ensures
        ({
            let l = run_lines(s, evs);
            let fs = run_files(s, evs, fs0)->0;
            let p = s.paths;
            &&& forall|i: int| 0 <= i < l.len() - 1 ==> !is_done_line(#[trigger] l[i])
            &&& (run_state(s, evs).phase is Finished) <==> (l.len() > 0 && is_done_line(l.last()))
            &&& run_state(s, evs).phase == UpdatePhase::Finished(false) ==> l.last() == "__done__1"@
                && (fs0.contains_key(p.target@) ==> (fs.contains_key(p.target@) && fs[p.target@]
                == fs0[p.target@]) || (fs.contains_key(p.backup@) && fs[p.backup@]
                == fs0[p.target@]))
            &&& run_state(s, evs).phase == UpdatePhase::Finished(true) ==> l.last() == "__done__0"@
                && fs.contains_key(p.target@) && fs[p.target@] == (fs0[p.download@].0, true)
        }),
{
    law_update_done_comes_last(s, evs);
    lemma_files_run(s, evs, fs0, fs0);
}

} // verus!
