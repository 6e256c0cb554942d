use scenter::appstream::AppInfo;
use scenter::packages::{
    installed_query,
    fp_bare, fp_installed, install_action, install_local_rpm_stream, install_stream, is_browseable,
    merge_group, order_group, parse_runtimes, reinstall_lines, reinstall_local_rpm_stream,
    remove_stream, source_label, source_option_from_app_info, source_option_from_native_app,
    NativeApp,
};
use scenter::stream::StreamCommand;

fn words(c: &StreamCommand) -> Vec<String> {
    let mut v = vec![c.program.clone()];
    v.extend(c.args.iter().cloned());
    v
}

fn native(name: &str, source: &str) -> NativeApp {
    NativeApp {
        id: format!("{name}.{source}"),
        name: name.to_string(),
        package_name: name.to_lowercase(),
        source: source.to_string(),
        ..Default::default()
    }
}

#[test]
fn dnf_commands() {
    assert_eq!(words(&install_stream("firefox")), ["pkexec", "dnf5", "install", "-y", "firefox"]);
    assert_eq!(words(&remove_stream("vlc")), ["pkexec", "dnf5", "remove", "-y", "vlc"]);
    assert_eq!(
        words(&install_local_rpm_stream("/t/a.rpm")),
        ["pkexec", "dnf5", "install", "-y", "/t/a.rpm"]
    );
    let (r, i) = reinstall_local_rpm_stream("a", "/t/a.rpm");
    assert_eq!(words(&r), ["pkexec", "dnf5", "remove", "-y", "a"]);
    assert_eq!(words(&i), ["pkexec", "dnf5", "install", "-y", "/t/a.rpm"]);
}

#[test]
fn reinstall_output() {
    let removed = vec!["Removing a".to_string(), "__done__0".to_string()];
    let installed = vec!["Installing a".to_string(), "__done__0".to_string()];
    assert_eq!(
        reinstall_lines(&removed, &installed),
        vec![
            "[Removing previous version...]",
            "Removing a",
            "[Installing new version...]",
            "Installing a",
            "__done__0"
        ]
    );
}

#[test]
fn labels() {
    assert_eq!(source_label("native", "", false), "RakuOS Linux");
    assert_eq!(source_label("terra", "x", true), "RakuOS Linux");
    assert_eq!(source_label("flatpak", "", false), "Flathub");
    assert_eq!(source_label("flatpak", "fedora-flatpaks", false), "Fedora-Flatpaks");
    assert_eq!(source_label("flatpak", "cosmic", true), "Cosmic (User)");
    assert_eq!(source_label("flatpak", "a--b", false), "A--B");
    assert_eq!(source_label("copr", "", false), "copr");
}

#[test]
fn flatpak_ids() {
    assert_eq!(fp_bare("org.gnome.Maps.desktop"), "org.gnome.Maps");
    assert_eq!(fp_bare("org.gnome.Maps"), "org.gnome.Maps");
    let installed = vec!["org.gnome.Maps".to_string()];
    assert!(fp_installed(&installed, "org.gnome.Maps.desktop"));
    assert!(!fp_installed(&installed, "org.gnome.Weather"));
}

#[test]
fn browseable_rules() {
    let mut a = native("Tool", "native");
    assert!(is_browseable(&a));
    a.pkg_name_guessed = true;
    assert!(!is_browseable(&a));
    a.pkg_name_guessed = false;
    a.is_addon = true;
    assert!(!is_browseable(&a));
    a.categories = vec!["Utility".to_string(), "GAME".to_string()];
    assert!(is_browseable(&a));
    a.package_name = String::new();
    assert!(!is_browseable(&a));
}

#[test]
fn local_rpm_actions() {
    assert_eq!(install_action(false, "1-1", ""), "install");
    assert_eq!(install_action(true, "1-1", "1-1"), "reinstall");
    assert_eq!(install_action(true, "1-2", "1-1"), "upgrade");
}

#[test]
fn runtime_rows() {
    let r = parse_runtimes("org.gnome.Platform\tGNOME Platform\t49\tflathub\norg.x.Ext\t\t1\n\n");
    assert_eq!(r.len(), 2);
    assert_eq!(r[0].name, "GNOME Platform");
    assert_eq!(r[0].origin, "flathub");
    assert_eq!(r[1].name, "org.x.Ext");
    assert_eq!(r[1].origin, "flathub");
    assert_eq!(r[1].version, "1");
}

#[test]
fn source_options() {
    let mut fp = native("Maps", "flatpak");
    fp.id = "org.gnome.Maps.desktop".to_string();
    fp.remotes = vec!["cosmic".to_string()];
    let o = source_option_from_native_app(&fp);
    assert_eq!(o.id, "org.gnome.Maps");
    assert_eq!(o.remote, "cosmic");
    assert_eq!(o.label, "Cosmic");
    fp.remotes.clear();
    assert_eq!(source_option_from_native_app(&fp).remote, "flathub");
    let nat = native("Maps", "native");
    let o = source_option_from_native_app(&nat);
    assert_eq!(o.remote, "");
    assert_eq!(o.label, "RakuOS Linux");
    let info = AppInfo {
        id: "org.gnome.Maps".to_string(),
        source: "flatpak".to_string(),
        ..Default::default()
    };
    let o = source_option_from_app_info(&info, true, "flathub", true);
    assert_eq!(o.label, "Flathub (User)");
    assert!(o.installed && o.user_remote);
}

#[test]
fn merging_same_named_apps() {
    let mut fp = native("Maps", "flatpak");
    fp.screenshots = vec!["https://fp/shot.png".to_string()];
    fp.description = "From Flathub".to_string();
    fp.installed = true;
    let mut nat = native("Maps", "native");
    nat.screenshots = vec!["https://native/shot.png".to_string()];
    let ordered = order_group(vec![fp.clone(), nat.clone()]);
    assert_eq!(ordered[0].source, "native");
    assert_eq!(ordered[1].source, "flatpak");
    let m = merge_group(vec![fp, nat]);
    assert_eq!(m.source, "native");
    assert_eq!(m.screenshots, vec!["https://fp/shot.png"]);
    assert_eq!(m.description, "From Flathub");
    assert_eq!(m.sources.len(), 2);
    assert_eq!(m.sources[0].source, "native");
    assert_eq!(m.sources[1].source, "flatpak");
    assert!(m.installed);
}

#[test]
fn installed_query_resolves_plain_names_by_provides() {
    let c = installed_query("nodejs");
    assert_eq!(c.program, "rpm");
    assert_eq!(c.args, vec!["-q", "--quiet", "--whatprovides", "nodejs"]);
    let c = installed_query("mangohud.i686");
    assert_eq!(c.args, vec!["-q", "--quiet", "mangohud.i686"]);
    let c = installed_query("foo.noarch");
    assert_eq!(c.args, vec!["-q", "--quiet", "foo.noarch"]);
    let c = installed_query("bar.x86_64");
    assert_eq!(c.args, vec!["-q", "--quiet", "bar.x86_64"]);
}
