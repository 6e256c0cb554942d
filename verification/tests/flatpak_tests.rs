use scenter::flatpak::{
    remove_remote, set_remote_enabled, update_appstream_command,
    add_cosmic_remote, add_flathub, clean_unused_stream, force_uninstall_stream, has_cosmic_remote_scoped,
    has_flathub, has_flathub_scoped, install_flatpakref_stream, install_local_bundle_stream,
    install_stream, is_user_remote, lookup_version, parse_installed_versions, parse_remotes,
    parse_update_rows, remote_message, remote_outcome, uninstall_stream, update_runtime_stream,
    update_single_stream, update_stream, FlatpakRemote, FlatpakApp,
};
use scenter::appstream::AppInfo;
use scenter::stream::StreamCommand;

fn words(c: &StreamCommand) -> Vec<String> {
    let mut v = vec![c.program.clone()];
    v.extend(c.args.iter().cloned());
    v
}

fn remote(name: &str, url: &str, system: bool) -> FlatpakRemote {
    FlatpakRemote {
        name: name.to_string(),
        title: String::new(),
        url: url.to_string(),
        enabled: true,
        system,
    }
}

#[test]
fn install_defaults_to_flathub() {
    assert_eq!(
        words(&install_stream("org.gnome.Maps", "", true)),
        ["flatpak", "install", "--system", "--noninteractive", "-y", "flathub", "org.gnome.Maps"]
    );
    assert_eq!(
        words(&install_stream("a.b", "cosmic", false)),
        ["flatpak", "install", "--user", "--noninteractive", "-y", "cosmic", "a.b"]
    );
}

#[test]
fn uninstall_and_update_commands() {
    assert_eq!(
        words(&uninstall_stream("a.b", false)),
        ["flatpak", "uninstall", "--user", "--noninteractive", "-y", "a.b"]
    );
    assert_eq!(
        words(&force_uninstall_stream("a.b", true)),
        ["flatpak", "uninstall", "--system", "--noninteractive", "-y", "--force-remove", "a.b"]
    );
    assert_eq!(words(&update_stream()), ["flatpak", "update", "--noninteractive", "-y"]);
    assert_eq!(
        words(&update_single_stream("a.b", "user")),
        ["flatpak", "update", "--user", "--app", "--noninteractive", "-y", "a.b"]
    );
    assert_eq!(
        words(&update_single_stream("a.b", "anything")),
        ["flatpak", "update", "--system", "--app", "--noninteractive", "-y", "a.b"]
    );
    assert_eq!(
        words(&update_runtime_stream("org.gnome.Platform", "49", "system")),
        ["flatpak", "update", "--system", "--noninteractive", "-y", "org.gnome.Platform//49"]
    );
    let c = clean_unused_stream();
    assert_eq!(words(&c[0]), ["flatpak", "uninstall", "--unused", "-y", "--noninteractive", "--user"]);
    assert_eq!(
        words(&c[1]),
        ["pkexec", "flatpak", "uninstall", "--unused", "-y", "--noninteractive", "--system"]
    );
    assert_eq!(
        words(&install_local_bundle_stream("/t/x.flatpak")),
        ["pkexec", "flatpak", "install", "--bundle", "--noninteractive", "-y", "/t/x.flatpak"]
    );
    assert_eq!(
        words(&install_flatpakref_stream("/t/x.flatpakref")),
        ["pkexec", "flatpak", "install", "--from", "--noninteractive", "-y", "/t/x.flatpakref"]
    );
}

#[test]
fn remote_commands() {
    assert_eq!(
        words(&add_flathub(true)),
        [
            "pkexec",
            "flatpak",
            "remote-add",
            "--system",
            "--if-not-exists",
            "flathub",
            "https://dl.flathub.org/repo/flathub.flatpakrepo"
        ]
    );
    assert_eq!(
        words(&add_cosmic_remote(false)),
        [
            "flatpak",
            "remote-add",
            "--user",
            "--if-not-exists",
            "cosmic",
            "https://apt.pop-os.org/cosmic/cosmic.flatpakrepo"
        ]
    );
    assert_eq!(remote_message("cosmic", "added"), "Remote 'cosmic' added.");
    assert_eq!(remote_outcome(false, "  error: nope\n", String::new()), (false, "error: nope".to_string()));
    assert_eq!(remote_outcome(true, "x", "ok".to_string()), (true, "ok".to_string()));
}

#[test]
fn remote_predicates() {
    let remotes = vec![
        remote("FlatHub", "https://dl.flathub.org/repo/", true),
        remote("pop-cosmic", "https://apt.pop-os.org/cosmic", false),
        remote("fedora", "oci+https://registry.fedoraproject.org", false),
        remote("fedora", "x", true),
    ];
    assert!(has_flathub(&remotes));
    assert!(has_flathub_scoped(&remotes, true));
    assert!(!has_flathub_scoped(&remotes, false));
    assert!(has_cosmic_remote_scoped(&remotes, false));
    assert!(!has_cosmic_remote_scoped(&remotes, true));
    assert!(is_user_remote("fedora", &remotes));
    assert!(!is_user_remote("FlatHub", &remotes));
    assert!(!is_user_remote("missing", &remotes));
    assert!(!has_flathub(&Vec::new()));
}

#[test]
fn remotes_output() {
    let text = "Name\tTitle\tURL\tOptions\nflathub\tFlathub\thttps://dl.flathub.org/repo/\tsystem\nfedora\t\toci+https://registry\tsystem,Disabled\nflathub\tAgain\tx\t\n\n";
    let r = parse_remotes(text, true, true);
    assert_eq!(r.len(), 2);
    assert_eq!(r[0].name, "flathub");
    assert_eq!(r[0].title, "Flathub");
    assert!(r[0].enabled && r[0].system);
    assert_eq!(r[1].title, "fedora");
    assert!(!r[1].enabled);
    let r = parse_remotes("fedora\n", false, false);
    assert_eq!(r.len(), 1);
    assert_eq!(r[0].title, "");
    assert_eq!(r[0].url, "");
    assert!(r[0].enabled && !r[0].system);
}

#[test]
fn update_rows() {
    let installed = parse_installed_versions("org.gnome.Maps\t46.0\norg.kde.Okular\t24.02\n");
    assert_eq!(lookup_version(&installed, "org.gnome.Maps"), "46.0");
    assert_eq!(lookup_version(&installed, "missing"), "");
    let text = "org.gnome.Maps\tstable\t46.1\tsystem\norg.gnome.Platform\t49\t\tRuntime,system\nbad\tline\n\tx\ty\tz\n";
    let u = parse_update_rows(text, &installed, "system");
    assert_eq!(u.len(), 2);
    assert_eq!(u[0].app_id, "org.gnome.Maps");
    assert_eq!(u[0].name, "Maps");
    assert_eq!(u[0].version, "46.1");
    assert_eq!(u[0].current_version, "46.0");
    assert!(!u[0].runtime);
    assert_eq!(u[1].name, "Platform");
    assert!(u[1].runtime);
    assert_eq!(u[1].installation, "system");
}

#[test]
fn app_from_catalog() {
    let info = AppInfo {
        id: "org.gnome.Maps".to_string(),
        name: "Maps".to_string(),
        categories: vec!["Utility".to_string()],
        ..Default::default()
    };
    let a = FlatpakApp::from_info(&info);
    assert_eq!(a.origin, "flathub");
    assert_eq!(a.source, "flatpak");
    assert!(!a.installed);
    assert_eq!(a.categories, vec!["Utility"]);
}

#[test]
fn remote_management_commands() {
    assert_eq!(
        words(&update_appstream_command("flathub", true)),
        vec!["pkexec", "flatpak", "update", "--appstream", "--system", "-y", "flathub"]
    );
    assert_eq!(
        words(&update_appstream_command("cosmic", false)),
        vec!["flatpak", "update", "--appstream", "--user", "-y", "cosmic"]
    );
    assert_eq!(
        words(&remove_remote("cosmic", false)),
        vec!["flatpak", "remote-delete", "--user", "--force", "cosmic"]
    );
    assert_eq!(
        words(&remove_remote("flathub", true)),
        vec!["pkexec", "flatpak", "remote-delete", "--system", "--force", "flathub"]
    );
    assert_eq!(
        words(&set_remote_enabled("flathub", false, true)),
        vec!["pkexec", "flatpak", "remote-modify", "--system", "--disable", "flathub"]
    );
    assert_eq!(
        words(&set_remote_enabled("cosmic", true, false)),
        vec!["flatpak", "remote-modify", "--user", "--enable", "cosmic"]
    );
}

#[test]
fn remotes_of_both_scopes_then_the_unscoped_fallback() {
    let sys = "Name\tTitle\tURL\tOptions\nflathub\tFlathub\thttps://dl.flathub.org/repo/\tsystem\n";
    let usr = "flathub\t\thttps://dl.flathub.org/repo/\tuser\nmine\tMine\thttps://m/\tuser,disabled\n";
    let r = scenter::flatpak::get_remotes(sys, usr, None);
    let names: Vec<(String, bool)> = r.iter().map(|x| (x.name.clone(), x.system)).collect();
    assert_eq!(names, vec![("flathub".to_string(), true), ("flathub".to_string(), false), ("mine".to_string(), false)]);
    assert_eq!(r[1].title, "flathub");
    assert!(!r[2].enabled);
    let r = scenter::flatpak::get_remotes("", "", Some("fedora\t\thttps://f/\t\n"));
    assert_eq!(r.len(), 1);
    assert!(r[0].system);
    assert_eq!(r[0].title, "");
    assert!(scenter::flatpak::get_remotes("", "", None).is_empty());
}
