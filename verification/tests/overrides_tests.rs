use scenter::appstream::{AppInfo, Catalog};
use scenter::overrides::{apply_overrides, inject_native_stubs, OverridePatch};

fn s(x: &str) -> String {
    x.to_string()
}

fn empty_patch() -> OverridePatch {
    OverridePatch {
        name: None,
        summary: None,
        icon: None,
        icon_url: None,
        source: None,
        package_name: None,
        url_homepage: None,
        url_bugtracker: None,
        url_donation: None,
        url_help: None,
        url_faq: None,
        url_vcs_browser: None,
        url_contribute: None,
        categories: None,
    }
}

fn app(id: &str, source: &str, pkg: &str) -> AppInfo {
    let mut a = AppInfo::default();
    a.id = s(id);
    a.name = s(id);
    a.source = s(source);
    a.package_name = s(pkg);
    a
}

#[test]
fn overrides_patch_both_keys_and_create_entries() {
    let mut c = Catalog::new();
    c.insert(s("org.a.App"), app("org.a.App", "native", "a"));
    c.insert(s("flatpak:org.a.App"), app("org.a.App", "flatpak", "org.a.App"));
    let mut p = empty_patch();
    p.name = Some(s("A Better Name"));
    p.categories = Some(vec![s("Game")]);
    p.icon = Some(s("a-icon"));
    let mut fresh = empty_patch();
    fresh.source = Some(s("native"));
    fresh.icon = Some(s("ignored"));
    let mut nothing = empty_patch();
    nothing.summary = Some(s("no name, no source"));
    let mut comment = empty_patch();
    comment.name = Some(s("x"));
    apply_overrides(
        &mut c,
        &vec![(s("org.a.App"), p), (s("org.new.App"), fresh), (s("org.none.App"), nothing), (s("_comment"), comment)],
    );
    let a = c.get("org.a.App").unwrap();
    assert_eq!(a.name, "A Better Name");
    assert_eq!(a.categories, vec![s("Game")]);
    assert_eq!(a.icon, "a-icon");
    assert_eq!(a.package_name, "a");
    assert_eq!(c.get("flatpak:org.a.App").unwrap().name, "A Better Name");
    let n = c.get("org.new.App").unwrap();
    assert_eq!(n.source, "native");
    assert_eq!(n.icon, "");
    assert_eq!(n.id, "org.new.App");
    assert!(c.get("org.none.App").is_none());
    assert!(c.get("_comment").is_none());
    assert_eq!(c.entries.len(), 3);
}

#[test]
fn native_stub_made_and_flatpak_rekeyed() {
    let mut c = Catalog::new();
    let mut fp = app("org.videolan.VLC", "flatpak", "org.videolan.VLC");
    fp.summary = s("Media player");
    c.insert(s("org.videolan.VLC"), fp);
    inject_native_stubs(&mut c, &vec![(s("org.videolan.vlc"), s("vlc"))]);
    let stub = c.get("native:vlc").expect("stub added");
    assert_eq!(stub.source, "native");
    assert_eq!(stub.id, "vlc");
    assert_eq!(stub.package_name, "vlc");
    assert_eq!(stub.summary, "Media player");
    assert!(!stub.pkg_name_guessed);
    assert!(c.get("org.videolan.VLC").is_none());
    assert_eq!(c.get("flatpak:org.videolan.VLC").unwrap().source, "flatpak");
}

#[test]
fn existing_native_package_is_confirmed_not_stubbed() {
    let mut c = Catalog::new();
    c.insert(s("flatpak:org.mozilla.firefox"), app("org.mozilla.firefox", "flatpak", "org.mozilla.firefox"));
    let mut nat = app("firefox.desktop", "native", "firefox");
    nat.pkg_name_guessed = true;
    c.insert(s("firefox.desktop"), nat);
    inject_native_stubs(&mut c, &vec![(s("org.mozilla.firefox"), s("firefox")), (s("org.absent.App"), s("absent"))]);
    assert!(c.get("native:firefox").is_none());
    assert!(!c.get("firefox.desktop").unwrap().pkg_name_guessed);
    assert!(c.get("flatpak:org.mozilla.firefox").is_some());
    assert_eq!(c.entries.len(), 2);
}

#[test]
fn stub_copies_the_flatpak_record_and_the_flatpak_keeps_its_prefixed_key() {
    let mut c = Catalog::new();
    let mut fpapp = app("Org.Gnome.Maps", "flatpak", "Org.Gnome.Maps");
    fpapp.name = s("Maps");
    fpapp.summary = s("Find places");
    c.insert(s("Org.Gnome.Maps"), fpapp);
    inject_native_stubs(&mut c, &vec![(s("org.gnome.maps"), s("gnome-maps"))]);
    let stub = c.get("native:gnome-maps").unwrap();
    assert_eq!(stub.source, "native");
    assert_eq!(stub.id, "gnome-maps");
    assert_eq!(stub.package_name, "gnome-maps");
    assert!(!stub.pkg_name_guessed);
    assert_eq!(stub.name, "Maps");
    assert_eq!(stub.summary, "Find places");
    assert_eq!(c.get("flatpak:Org.Gnome.Maps").unwrap().source, "flatpak");
    assert!(c.get("Org.Gnome.Maps").is_none());
}

#[test]
fn package_to_flatpak_map_has_one_entry_per_package() {
    let pairs = vec![
        (s("org.a.A"), s("a")),
        (s("org.b.B"), s("b")),
        (s("org.a2.A"), s("a")),
    ];
    assert_eq!(
        scenter::overrides::rpm_to_flatpak(&pairs),
        vec![(s("a"), s("org.a2.A")), (s("b"), s("org.b.B"))]
    );
}
