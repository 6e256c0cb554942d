use scenter::appimage::{github_releases_url, normalize_gitea_url, normalize_github_url, normalize_gitlab_url, AppImage};
use scenter::appstream::{AppInfo, Catalog};
use scenter::daemon::{extension_update, json_u32, sort_by_name, ExtensionUpdate, RemoteExtension};
use scenter::flatpak::{
    attach_icons, basename_no_ext, get_flatpakref_info, get_local_flatpak_info, local_flatpak_icon,
    parse_installed_apps, parse_installed_ids, parse_legacy_updates, parse_search_rows, FlatpakUpdate,
};
use scenter::text::split_str;
use scenter::updates::{enrich_update, insert_pkg_meta, sort_updates, PackageUpdate};

fn s(x: &str) -> String {
    x.to_string()
}

fn fp_catalog() -> Catalog {
    let mut c = Catalog::new();
    let mut a = AppInfo::default();
    a.id = s("org.a.App");
    a.name = s("A App");
    a.source = s("flatpak");
    a.icon_path = s("/icons/a.png");
    a.icon_url = s("https://i/a.png");
    a.summary = s("From catalog");
    c.insert(s("org.a.App"), a);
    let mut d = AppInfo::default();
    d.id = s("org.d.Dsk.desktop");
    d.source = s("flatpak");
    d.icon_path = s("/icons/d.png");
    c.insert(s("org.d.Dsk.desktop"), d);
    c
}

#[test]
fn flatpak_listings_are_read() {
    let c = fp_catalog();
    let apps = parse_installed_apps("org.a.App\tA\t1.0\tlisted\tfedora\norg.b.B\tB\t2.0\nonecolumn\n", &c);
    assert_eq!(apps.len(), 2);
    assert_eq!(apps[0].summary, "From catalog");
    assert_eq!(apps[0].origin, "fedora");
    assert_eq!(apps[1].name, "B");
    assert_eq!(apps[1].origin, "flathub");
    assert!(apps[1].installed);

    let found = parse_search_rows("org.a.App\tA\t1\tx\norg.b.B\tB\n\t\norg.c.C\tC\n", &vec![s("org.b.B")], 2);
    assert_eq!(found.len(), 2);
    assert!(!found[0].installed);
    assert!(found[1].installed);
    assert_eq!(found[0].origin, "flathub");
    assert_eq!(parse_search_rows("a.b\tA\nc.d\tC\n", &vec![], 0).len(), 1);

    let ups = parse_legacy_updates("org.a.App\tA\t2.0\nbad\n");
    assert_eq!(ups.len(), 1);
    assert_eq!(ups[0].version, "2.0");
    assert_eq!(parse_installed_ids("org.a.App\n\n org.b.B \n"), vec![s("org.a.App"), s("org.b.B")]);
}

#[test]
fn update_icons_come_from_the_flatpak_record() {
    let c = fp_catalog();
    let mut ups = vec![
        FlatpakUpdate { name: s("App"), app_id: s("org.a.App"), version: s("2"), current_version: s("1"), runtime: false,
            needs_install: false, install_remote: s(""), installation: s("system"), icon_path: s(""), icon_url: s("") },
        FlatpakUpdate { name: s("Dsk"), app_id: s("org.d.Dsk"), version: s("2"), current_version: s("1"), runtime: false,
            needs_install: false, install_remote: s(""), installation: s("user"), icon_path: s("x"), icon_url: s("y") },
        FlatpakUpdate { name: s("Z"), app_id: s("org.z.Z"), version: s("2"), current_version: s("1"), runtime: true,
            needs_install: false, install_remote: s(""), installation: s("user"), icon_path: s("x"), icon_url: s("y") },
    ];
    attach_icons(&mut ups, &c);
    assert_eq!(ups[0].icon_path, "/icons/a.png");
    assert_eq!(ups[0].icon_url, "https://i/a.png");
    assert_eq!(ups[1].icon_path, "/icons/d.png");
    assert_eq!(ups[2].icon_path, "");
    assert_eq!(ups[2].icon_url, "");
}

#[test]
fn local_bundles_and_refs() {
    let c = fp_catalog();
    assert_eq!(basename_no_ext("/tmp/org.a.App.flatpak"), "org.a.App");
    assert_eq!(local_flatpak_icon(&c, "org.a.App"), (s("/icons/a.png"), s("https://i/a.png")));
    let info = get_local_flatpak_info("/tmp/x.flatpak", Some("ID: org.a.App\nVersion: 3.1\nSubject: Fixes\nDate: 2024\n"), &c);
    assert_eq!(info.id, "org.a.App");
    assert_eq!(info.name, "App");
    assert_eq!(info.version, Some(s("3.1")));
    assert_eq!(info.branch, Some(s("stable")));
    assert_eq!(info.summary, "Fixes");
    assert_eq!(info.icon_path, "/icons/a.png");
    let none = get_local_flatpak_info("/tmp/org.q.Q.flatpak", None, &c);
    assert_eq!(none.id, "org.q.Q");
    assert_eq!(none.summary, "Local Flatpak bundle");
    assert_eq!(none.version, None);

    let text = "[Flatpak Ref]\nName=org.a.App\nTitle=The A\nUrl=https://dl.example/repo\nBranch=beta\n[Other]\nName=ignored\n";
    let r = get_flatpakref_info("/tmp/a.flatpakref", Some(text), &c);
    assert_eq!(r.id, "org.a.App");
    assert_eq!(r.name, "The A");
    assert_eq!(r.url, Some(s("https://dl.example/repo")));
    assert_eq!(r.branch, Some(s("beta")));
    assert_eq!(r.icon_url, Some(s("https://i/a.png")));
    let r2 = get_flatpakref_info("/tmp/org.z.Zed.flatpakref", Some("[flatpak ref]\nComment=hi\n"), &c);
    assert_eq!(r2.id, "org.z.Zed");
    assert_eq!(r2.name, "Zed");
    assert_eq!(r2.summary, "hi");
    assert_eq!(r2.branch, Some(s("stable")));
    let r3 = get_flatpakref_info("/tmp/org.z.Zed.flatpakref", None, &c);
    assert_eq!(r3.url, None);
    assert_eq!(r3.name, "org.z.Zed");
}

fn ext(name: &str) -> ExtensionUpdate {
    ExtensionUpdate {
        uuid: s(name),
        name: s(name),
        installed_version: 1,
        available_version: 2,
        shell_version: s("46"),
        icon_url: s(""),
    }
}

#[test]
fn extension_updates_are_decided_and_ordered() {
    let remote = RemoteExtension { version: 5, name: s(""), icon: s("/img/x.png") };
    let u = extension_update("x@y", 4, "Installed X", &remote, "46.1").expect("newer");
    assert_eq!(u.name, "Installed X");
    assert_eq!(u.icon_url, "https://extensions.gnome.org/img/x.png");
    assert_eq!(u.available_version, 5);
    let same = RemoteExtension { version: 4, name: s("X"), icon: s("") };
    assert!(extension_update("x@y", 4, "X", &same, "46").is_none());
    assert!(extension_update("", 1, "X", &remote, "46").is_none());
    let plain = RemoteExtension { version: 9, name: s("Site X"), icon: s("") };
    let p = extension_update("x@y", 1, "X", &plain, "46").unwrap();
    assert_eq!(p.name, "Site X");
    assert_eq!(p.icon_url, "https://extensions.gnome.org/static/images/plugin.png");

    assert_eq!(json_u32(Some(7), None), Some(7));
    assert_eq!(json_u32(Some(5_000_000_000), None), None);
    assert_eq!(json_u32(None, Some("12")), Some(12));
    assert_eq!(json_u32(None, Some("x")), None);
    assert_eq!(json_u32(None, None), None);

    let sorted = sort_by_name(vec![ext("beta"), ext("Alpha"), ext("alpha"), ext("Gamma")]);
    let names: Vec<String> = sorted.iter().map(|e| e.name.clone()).collect();
    assert_eq!(names, vec![s("Alpha"), s("alpha"), s("beta"), s("Gamma")]);
}

#[test]
fn package_updates_sorted_and_enriched() {
    let up = |n: &str| PackageUpdate { name: s(n), current_version: s("1"), available_version: s("2"), repo: s("fedora") };
    let sorted = sort_updates(vec![up("zlib"), up("Bash"), up("awk")]);
    let names: Vec<String> = sorted.iter().map(|u| u.name.clone()).collect();
    assert_eq!(names, vec![s("awk"), s("Bash"), s("zlib")]);
    let mut meta = Vec::new();
    insert_pkg_meta(&mut meta, "gimp", "/i/gimp.png", "", "GIMP");
    let e = enrich_update(up("gimp"), &meta);
    assert!(e.gui);
    assert_eq!(e.icon_path, Some(s("/i/gimp.png")));
    assert_eq!(e.icon_url, None);
    assert_eq!(e.display_name, Some(s("GIMP")));
    let n = enrich_update(up("zlib"), &meta);
    assert!(!n.gui);
    assert_eq!(n.display_name, None);
}

#[test]
fn release_endpoints_from_update_urls() {
    assert_eq!(
        normalize_github_url("https://github.com/owner/repo"),
        "https://api.github.com/repos/owner/repo/releases/latest"
    );
    assert_eq!(
        normalize_github_url("https://api.github.com/repos/o/r/releases/latest"),
        "https://api.github.com/repos/o/r/releases/latest"
    );
    assert_eq!(normalize_github_url("not a url"), "not a url");
    assert_eq!(
        normalize_gitlab_url("https://gitlab.com/group/project"),
        "https://gitlab.com/api/v4/projects/group%2Fproject/releases"
    );
    assert_eq!(
        normalize_gitea_url("https://codeberg.org/o/r", false),
        "https://codeberg.org/api/v1/repos/o/r/releases/latest"
    );
    assert_eq!(
        normalize_gitea_url("http://git.example/o/r", true),
        "http://git.example/api/v1/repos/o/r/releases?limit=10"
    );
    let mut app = AppImage::default();
    app.update_url = s("https://github.com/a/b");
    app.allow_prerelease = true;
    assert_eq!(github_releases_url(&app), "https://api.github.com/repos/a/b/releases?per_page=10");
}

#[test]
fn text_split_on_a_string() {
    let parts = split_str(&"a/apps/b/apps/".chars().collect(), &"/apps/".chars().collect());
    let texts: Vec<String> = parts.iter().map(|p| p.iter().collect()).collect();
    assert_eq!(texts, vec![s("a"), s("b"), s("")]);
}
