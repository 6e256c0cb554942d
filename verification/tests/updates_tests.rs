use scenter::stream::StreamCommand;
use scenter::updates::{
    kept_entries, lists_other_process, remaining_total, sort_updates, PackageUpdate,
    insert_pkg_meta, os_release_field, parse_check_update, parse_installed_evr, strip_arch,
    system_status, upgrade_packages_stream, upgrade_single_package_stream,
};

fn words(c: &StreamCommand) -> Vec<String> {
    let mut v = vec![c.program.clone()];
    v.extend(c.args.iter().cloned());
    v
}

#[test]
fn upgrade_commands() {
    assert_eq!(words(&upgrade_packages_stream()), ["pkexec", "dnf5", "upgrade", "-y"]);
    assert_eq!(
        words(&upgrade_single_package_stream("kernel")),
        ["pkexec", "dnf5", "upgrade", "-y", "kernel"]
    );
}

#[test]
fn arch_suffixes() {
    assert_eq!(strip_arch("python3.12-tkinter.x86_64"), "python3.12-tkinter");
    assert_eq!(strip_arch("glibc.i686"), "glibc");
    assert_eq!(strip_arch("fonts.noarch"), "fonts");
    assert_eq!(strip_arch("thing.mips"), "thing.mips");
    assert_eq!(strip_arch(".x86_64"), "");
}

#[test]
fn os_release() {
    let text = "NAME=\"Fedora Linux\"\nVERSION=\"42 (Workstation Edition)\"\nVERSION_ID=42\n";
    assert_eq!(os_release_field(text, "NAME"), "Fedora Linux");
    assert_eq!(os_release_field(text, "VERSION_ID"), "42");
    assert_eq!(os_release_field(text, "ID"), "");
    let s = system_status(text, " 6.15.0-200.fc42.x86_64\n");
    assert_eq!(s.version, "42 (Workstation Edition)");
    assert_eq!(s.kernel, "6.15.0-200.fc42.x86_64");
    assert!(s.error.is_none());
}

#[test]
fn check_update_listing() {
    let installed = parse_installed_evr(
        "Installed packages\nfirefox.x86_64  140.0-1.fc42  @updates\nvlc.x86_64 3.0-1 @rpmfusion\n",
    );
    assert_eq!(installed.len(), 2);
    assert_eq!(installed[0], ("firefox".to_string(), "140.0-1.fc42".to_string()));
    let text = "firefox.x86_64  141.0-1.fc42  updates\nkernel.x86_64 6.16.0-1 updates\nfoo.noarch 1.0 updates\nbar.x86_64 1-1 installed\nshort line\n";
    let u = parse_check_update(text, &installed);
    assert_eq!(u.len(), 2);
    assert_eq!(u[0].name, "firefox");
    assert_eq!(u[0].current_version, "140.0-1.fc42");
    assert_eq!(u[0].available_version, "141.0-1.fc42");
    assert_eq!(u[0].repo, "updates");
    assert_eq!(u[1].name, "kernel");
    assert_eq!(u[1].current_version, "");
}

#[test]
fn package_meta_merging() {
    let mut m: Vec<(String, (String, String, String))> = Vec::new();
    insert_pkg_meta(&mut m, "", "p", "u", "n");
    assert!(m.is_empty());
    insert_pkg_meta(&mut m, "firefox", "", "", "firefox");
    insert_pkg_meta(&mut m, "firefox", "/i/ff.png", "https://ff", "Firefox");
    assert_eq!(m.len(), 1);
    assert_eq!(m[0].1, ("/i/ff.png".to_string(), "https://ff".to_string(), "Firefox".to_string()));
    insert_pkg_meta(&mut m, "firefox", "/other.png", "", "Other");
    assert_eq!(m[0].1, ("/i/ff.png".to_string(), "https://ff".to_string(), "Firefox".to_string()));
    insert_pkg_meta(&mut m, "vlc", "", "https://vlc", "");
    insert_pkg_meta(&mut m, "vlc", "/vlc.png", "", "VLC");
    assert_eq!(m[1].1, ("/vlc.png".to_string(), "https://vlc".to_string(), "VLC".to_string()));
}

#[test]
fn pgrep_lists_another_dnf5() {
    assert!(lists_other_process("1234\n5678\n", 1234));
    assert!(!lists_other_process("1234\n", 1234));
    assert!(!lists_other_process("", 1234));
    assert!(lists_other_process("  99 ", 1234));
}

#[test]
fn pruning_keeps_entries_without_the_id() {
    let ids = vec![Some("vim".to_string()), None, Some("gimp".to_string()), Some("vim".to_string())];
    assert_eq!(kept_entries(&ids, "vim"), vec![false, true, true, false]);
    assert_eq!(kept_entries(&Vec::new(), "vim"), Vec::<bool>::new());
}

#[test]
fn pruned_cache_total() {
    assert_eq!(remaining_total(0, 0, 0), None);
    assert_eq!(remaining_total(2, 0, 1), Some(3));
}

#[test]
fn equal_names_keep_their_order_when_sorted() {
    let u = |name: &str, repo: &str| PackageUpdate {
        name: name.to_string(),
        current_version: String::new(),
        available_version: "1-1".to_string(),
        repo: repo.to_string(),
    };
    let r = sort_updates(vec![u("vim", "first"), u("Bash", "b"), u("Vim", "second"), u("vim", "third")]);
    let got: Vec<(String, String)> = r.into_iter().map(|x| (x.name, x.repo)).collect();
    assert_eq!(
        got,
        vec![
            ("Bash".to_string(), "b".to_string()),
            ("vim".to_string(), "first".to_string()),
            ("Vim".to_string(), "second".to_string()),
            ("vim".to_string(), "third".to_string()),
        ]
    );
}
