use scenter::appstream::{
    add_component, catalog_source, dedup_prefer_gz, derive_flatpak_remote, eq_ignore_case_lower,
    extension_of, fedora_version, fill_icon_url, fill_missing_app_links, flatpak_key_of,
    icon_probes, is_appstream_file, merge_remotes, resolve_icon_path, set_app_url, text_greater,
    versioned_icon_dirs, AppInfo, Catalog, CatalogParser, IconProbe, XmlEvent,
};

fn s(x: &str) -> String {
    x.to_string()
}

fn start(name: &str, attrs: &[(&str, &str)]) -> XmlEvent {
    XmlEvent::Start {
        name: s(name),
        attrs: attrs.iter().map(|(k, v)| (s(k), s(v))).collect(),
    }
}

fn text(t: &str) -> XmlEvent {
    XmlEvent::Text(s(t))
}

fn end(name: &str) -> XmlEvent {
    XmlEvent::End(s(name))
}

fn element(p: &mut CatalogParser, cat: &mut Catalog, name: &str, attrs: &[(&str, &str)], t: &str) {
    p.feed(start(name, attrs), cat);
    p.feed(text(t), cat);
    p.feed(end(name), cat);
}

/// Feed one `<component>` with an id, a name, a package name (when given)
/// and a category.
fn component(p: &mut CatalogParser, cat: &mut Catalog, id: &str, name: &str, pkg: Option<&str>) {
    p.feed(start("component", &[("type", "desktop-application")]), cat);
    element(p, cat, "id", &[], id);
    element(p, cat, "name", &[], name);
    element(p, cat, "name", &[("xml:lang", "de")], "Anderer Name");
    if let Some(pk) = pkg {
        element(p, cat, "pkgname", &[], pk);
    }
    element(p, cat, "category", &[], "Utility");
    p.feed(end("component"), cat);
}

#[test]
fn catalog_file_names_and_sources() {
    assert!(is_appstream_file("/usr/share/swcatalog/xml/fedora.xml.gz"));
    assert!(is_appstream_file("/usr/share/metainfo/org.foo.Bar.xml"));
    assert!(!is_appstream_file("/usr/share/metainfo/readme.txt"));
    assert_eq!(extension_of("/a/b/file.xml.gz"), Some(s("gz")));
    assert_eq!(extension_of("/a/b/noext"), None);
    assert_eq!(catalog_source("/var/lib/flatpak/appstream/flathub/x86_64/active/appstream.xml.gz"), "flatpak");
    assert_eq!(catalog_source("/usr/share/swcatalog/xml/terra.xml.gz"), "terra");
    assert_eq!(catalog_source("/usr/share/swcatalog/xml/fedora.xml.gz"), "native");
}

#[test]
fn flatpak_remote_from_path() {
    assert_eq!(
        derive_flatpak_remote("/var/lib/flatpak/appstream/flathub/x86_64/active/appstream.xml.gz"),
        "flathub"
    );
    assert_eq!(
        derive_flatpak_remote("/home/u/.local/share/flatpak/appstream/cosmic/x86_64/active/appstream.xml.gz"),
        "cosmic"
    );
    assert_eq!(derive_flatpak_remote("/usr/share/swcatalog/xml/flatpak-apps.xml"), "");
}

#[test]
fn gz_preferred_over_plain_xml() {
    let files = vec![
        s("/x/appstream.xml"),
        s("/x/appstream.xml.gz"),
        s("/y/other.xml"),
    ];
    assert_eq!(dedup_prefer_gz(&files), vec![s("/x/appstream.xml.gz"), s("/y/other.xml")]);
}

#[test]
fn gz_twin_matches_paths_by_component() {
    let files = vec![
        s("/d//a.xml"),
        s("/d/./a.xml.gz"),
        s("d/b.xml"),
        s("/d/b.xml.gz"),
        s("./c.xml"),
        s("c.xml.gz"),
    ];
    assert_eq!(
        dedup_prefer_gz(&files),
        vec![s("/d/./a.xml.gz"), s("d/b.xml"), s("/d/b.xml.gz"), s("./c.xml"), s("c.xml.gz")]
    );
}

#[test]
fn fedora_version_and_icon_dirs() {
    assert_eq!(fedora_version("NAME=Fedora\nVERSION_ID=41\n"), "41");
    assert_eq!(fedora_version("VERSION_ID=\"42\"\n"), "42");
    assert_eq!(fedora_version("NAME=Other\n"), "44");
    let dirs = versioned_icon_dirs("41");
    assert_eq!(dirs.len(), 12);
    assert_eq!(dirs[0], "/usr/share/swcatalog/icons/rpmfusion-free-41/64x64");
    assert_eq!(dirs[1], "/usr/share/swcatalog/icons/rpmfusion-nonfree-41/64x64");
    assert_eq!(dirs[2], "/usr/share/swcatalog/icons/terra41/64x64");
    assert_eq!(dirs[5], "/usr/share/swcatalog/icons/terra41-mesa/128x128");
    assert_eq!(dirs[11], "/usr/share/swcatalog/icons/terra41-multimedia/128x128");
}

#[test]
fn catalog_read_after_write_and_remove() {
    let mut cat = Catalog::new();
    let mut a = AppInfo::default();
    a.id = s("org.a.App");
    cat.insert(s("org.a.App"), a.clone());
    let mut b = AppInfo::default();
    b.id = s("org.b.App");
    cat.insert(s("org.b.App"), b);
    assert_eq!(cat.get("org.a.App").map(|x| x.id.clone()), Some(s("org.a.App")));
    a.name = s("Renamed");
    cat.insert(s("org.a.App"), a);
    assert_eq!(cat.entries.len(), 2);
    assert_eq!(cat.get("org.a.App").map(|x| x.name.clone()), Some(s("Renamed")));
    assert!(cat.remove("org.a.App").is_some());
    assert!(cat.get("org.a.App").is_none());
    assert!(cat.remove("org.a.App").is_none());
    assert_eq!(cat.get("org.b.App").map(|x| x.id.clone()), Some(s("org.b.App")));
}

#[test]
fn urls_set_once_and_links_filled() {
    let mut a = AppInfo::default();
    set_app_url(&mut a, "homepage", s("https://a.example"));
    set_app_url(&mut a, "homepage", s("https://b.example"));
    set_app_url(&mut a, "bugtracker", s(""));
    set_app_url(&mut a, "unknown", s("https://c.example"));
    assert_eq!(a.url_homepage, "https://a.example");
    assert_eq!(a.url_bugtracker, "");
    let mut src = AppInfo::default();
    src.url_bugtracker = s("https://bugs.example");
    src.url_homepage = s("https://other.example");
    fill_missing_app_links(&mut a, &src);
    assert_eq!(a.url_homepage, "https://a.example");
    assert_eq!(a.url_bugtracker, "https://bugs.example");
}

#[test]
fn parser_reads_a_native_component() {
    let mut cat = Catalog::new();
    let mut p = CatalogParser::new(s("native"), s(""));
    p.feed(start("components", &[]), &mut cat);
    component(&mut p, &mut cat, "org.gnome.Foo.desktop", "Foo", None);
    p.feed(end("components"), &mut cat);
    let a = cat.get("org.gnome.Foo.desktop").expect("component stored under its id");
    assert_eq!(a.name, "Foo");
    assert_eq!(a.source, "native");
    assert_eq!(a.categories, vec![s("Utility")]);
    assert_eq!(a.package_name, "foo");
    assert!(a.pkg_name_guessed);
    assert_eq!(a.component_type, "desktop-application");
}

#[test]
fn parser_strips_package_transition_suffixes() {
    let mut cat = Catalog::new();
    let mut p = CatalogParser::new(s("native"), s(""));
    component(&mut p, &mut cat, "dev.zed.Zed", "Zed", Some("zed-rename-zeditor"));
    component(&mut p, &mut cat, "org.zfs.Cli", "Cli", Some("zed-cli-compat-zfs"));
    assert_eq!(cat.get("dev.zed.Zed").unwrap().package_name, "zed");
    assert_eq!(cat.get("org.zfs.Cli").unwrap().package_name, "zed");
    assert!(!cat.get("dev.zed.Zed").unwrap().pkg_name_guessed);
}

#[test]
fn flatpak_after_native_kept_under_flatpak_key() {
    let mut cat = Catalog::new();
    let mut n = CatalogParser::new(s("native"), s(""));
    component(&mut n, &mut cat, "org.videolan.vlc", "VLC", Some("vlc"));
    let mut f = CatalogParser::new(s("flatpak"), s("flathub"));
    f.feed(start("component", &[("type", "desktop-application")]), &mut cat);
    element(&mut f, &mut cat, "id", &[], "org.videolan.vlc");
    element(&mut f, &mut cat, "name", &[], "VLC (Flatpak)");
    element(&mut f, &mut cat, "url", &[("type", "homepage")], "https://videolan.org");
    f.feed(end("component"), &mut cat);
    let native = cat.get("org.videolan.vlc").unwrap();
    assert_eq!(native.source, "native");
    assert_eq!(native.name, "VLC");
    assert_eq!(native.icon, "org.videolan.vlc.png");
    assert_eq!(native.url_homepage, "https://videolan.org");
    let fp = cat.get(&flatpak_key_of("org.videolan.vlc")).unwrap();
    assert_eq!(fp.source, "flatpak");
    assert_eq!(fp.package_name, "org.videolan.vlc");
    assert_eq!(fp.remotes, vec![s("flathub")]);
}

#[test]
fn native_after_flatpak_is_promoted() {
    let mut cat = Catalog::new();
    let mut f = CatalogParser::new(s("flatpak"), s("flathub"));
    component(&mut f, &mut cat, "org.gimp.GIMP", "GIMP", None);
    let mut n = CatalogParser::new(s("native"), s(""));
    component(&mut n, &mut cat, "org.gimp.GIMP", "GIMP", Some("gimp"));
    assert_eq!(cat.get("org.gimp.GIMP").unwrap().source, "native");
    assert_eq!(cat.get("org.gimp.GIMP").unwrap().package_name, "gimp");
    assert_eq!(cat.get("flatpak:org.gimp.GIMP").unwrap().source, "flatpak");
}

#[test]
fn same_source_keeps_explicit_package_and_remotes() {
    let mut cat = Catalog::new();
    let mut a = CatalogParser::new(s("native"), s(""));
    component(&mut a, &mut cat, "org.x.Tool", "Tool", Some("xtool"));
    let mut b = CatalogParser::new(s("native"), s(""));
    component(&mut b, &mut cat, "org.x.Tool", "Tool 2", None);
    let t = cat.get("org.x.Tool").unwrap();
    assert_eq!(t.name, "Tool 2");
    assert_eq!(t.package_name, "xtool");
    assert!(!t.pkg_name_guessed);

    let mut c = CatalogParser::new(s("flatpak"), s("flathub"));
    component(&mut c, &mut cat, "org.y.App", "Y", None);
    let mut d = CatalogParser::new(s("flatpak"), s("cosmic"));
    component(&mut d, &mut cat, "org.y.App", "Y", None);
    assert_eq!(cat.get("org.y.App").unwrap().remotes, vec![s("cosmic"), s("flathub")]);
    let mut rs = vec![s("other")];
    merge_remotes(&cat, "org.y.App", &mut rs);
    assert_eq!(rs, vec![s("other"), s("cosmic"), s("flathub")]);
}

#[test]
fn release_dates_keep_the_newest() {
    let mut cat = Catalog::new();
    let mut p = CatalogParser::new(s("native"), s(""));
    p.feed(start("component", &[]), &mut cat);
    element(&mut p, &mut cat, "id", &[], "org.r.App");
    p.feed(start("releases", &[]), &mut cat);
    p.feed(start("release", &[("date", "2024-01-02")]), &mut cat);
    p.feed(end("release"), &mut cat);
    p.feed(start("release", &[("timestamp", "1735689600")]), &mut cat);
    p.feed(end("release"), &mut cat);
    p.feed(start("release", &[("date", "2023-05-05")]), &mut cat);
    p.feed(end("release"), &mut cat);
    p.feed(end("releases"), &mut cat);
    p.feed(end("component"), &mut cat);
    assert_eq!(cat.get("org.r.App").unwrap().updated, "2025-01-01");
    assert!(text_greater("2025-01-01", "2024-12-31"));
    assert!(!text_greater("2024", "2024"));
}

#[test]
fn component_without_id_is_dropped() {
    let mut cat = Catalog::new();
    let mut p = CatalogParser::new(s("native"), s(""));
    p.feed(start("component", &[]), &mut cat);
    element(&mut p, &mut cat, "name", &[], "Nameless");
    p.feed(end("component"), &mut cat);
    assert_eq!(cat.entries.len(), 0);
    let mut a = AppInfo::default();
    a.id = s("org.direct.App");
    add_component(&mut cat, a);
    assert_eq!(cat.entries.len(), 1);
}

#[test]
fn icon_url_synthesized_for_kde_and_flathub() {
    let mut k = AppInfo::default();
    k.id = s("org.kde.kate.desktop");
    fill_icon_url(&mut k);
    assert_eq!(k.icon_url, "https://apps.kde.org/app-icons/org.kde.kate.svg");

    let mut f = AppInfo::default();
    f.id = s("flatpak:com.example.App");
    f.source = s("flatpak");
    f.remotes = vec![s("FlatHub")];
    fill_icon_url(&mut f);
    assert_eq!(f.icon_url, "https://dl.flathub.org/repo/appstream/x86_64/icons/128x128/com.example.App.png");

    let mut o = AppInfo::default();
    o.id = s("com.example.App");
    o.source = s("flatpak");
    o.remotes = vec![s("fedora")];
    fill_icon_url(&mut o);
    assert_eq!(o.icon_url, "");

    assert!(eq_ignore_case_lower("FlatHub", "flathub"));
    assert!(!eq_ignore_case_lower("flathubx", "flathub"));
}

#[test]
fn icon_probes_follow_the_search_order() {
    let mut f = AppInfo::default();
    f.id = s("org.a.App");
    f.source = s("flatpak");
    let probes = icon_probes(&f, "/home/u/.cache/icons", &vec![]);
    // Three caches, the deploy directories, the home cache; the home cache
    // again as the general fallback.
    assert_eq!(probes.len(), 6);
    assert!(matches!(&probes[0], IconProbe::Path(p) if p == "/var/lib/flatpak/appstream/flathub/x86_64/active/icons/128x128/org.a.App.png"));
    assert!(matches!(&probes[3], IconProbe::FlatpakDeploy(id) if id == "org.a.App"));
    assert!(matches!(&probes[4], IconProbe::Path(p) if p == "/home/u/.cache/icons/org.a.App.png"));
    assert!(matches!(&probes[5], IconProbe::Path(p) if p == "/home/u/.cache/icons/org.a.App.png"));

    let mut n = AppInfo::default();
    n.id = s("org.b.Tool.desktop");
    n.source = s("native");
    n.icon = s("tool.svg");
    let extra = vec![s("/extra")];
    let probes = icon_probes(&n, "", &extra);
    // 14 directories, 3 names each for the icon, then 3 for the package guess.
    assert_eq!(probes.len(), 14 * 3 + 14 * 3);
    assert!(matches!(&probes[0], IconProbe::Path(p) if p == "/usr/share/software-center/appstream/icons/tool.svg"));
    assert!(matches!(&probes[1], IconProbe::Path(p) if p == "/usr/share/software-center/appstream/icons/tool.png"));
    assert!(matches!(&probes[41], IconProbe::Path(p) if p == "/extra/tool.svg"));
    assert!(matches!(&probes[42], IconProbe::Path(p) if p == "/usr/share/software-center/appstream/icons/Tool.png"));

    let found = vec![None, Some(s("yes")), None];
    assert_eq!(resolve_icon_path(&probes, &found), "/usr/share/software-center/appstream/icons/tool.png");
    let deploy = vec![
        IconProbe::Path(s("/nope.png")),
        IconProbe::FlatpakDeploy(s("org.a.App")),
    ];
    let hits = vec![None, Some(s("/var/lib/flatpak/app/org.a.App/x/icon.png"))];
    assert_eq!(resolve_icon_path(&deploy, &hits), "/var/lib/flatpak/app/org.a.App/x/icon.png");
    assert_eq!(resolve_icon_path(&deploy, &vec![None, None]), "");
}
