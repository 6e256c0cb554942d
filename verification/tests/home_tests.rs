use scenter::appstream::{AppInfo, Catalog};
use scenter::home::{
    fallback_picks, feed_apps, feed_ids, get_picks, get_popular, popular_seed, resolve_ids,
    resolve_one, HomeApp,
};

fn s(x: &str) -> String {
    x.to_string()
}

fn app(id: &str, name: &str, source: &str) -> AppInfo {
    let mut a = AppInfo::default();
    a.id = s(id);
    a.name = s(name);
    a.source = s(source);
    a
}

fn catalog() -> Catalog {
    let mut c = Catalog::new();
    c.insert(s("org.mozilla.firefox"), app("org.mozilla.firefox", "Firefox", "native"));
    c.insert(s("flatpak:com.valvesoftware.steam"), app("com.valvesoftware.Steam", "Steam", "flatpak"));
    c.insert(s("org.gimp.GIMP.desktop"), app("org.gimp.GIMP.desktop", "GIMP", "native"));
    c.insert(s("weird-key"), app("org.KDE.Kdenlive.desktop", "Kdenlive", "native"));
    c
}

#[test]
fn resolve_one_tries_candidate_keys_then_scans() {
    let c = catalog();
    assert_eq!(resolve_one("org.mozilla.firefox", &c).map(|a| a.name.clone()), Some(s("Firefox")));
    // Lower-cased and prefixed with "flatpak:".
    assert_eq!(resolve_one("com.valvesoftware.Steam", &c).map(|a| a.name.clone()), Some(s("Steam")));
    // Found with ".desktop" appended.
    assert_eq!(resolve_one("org.gimp.GIMP", &c).map(|a| a.name.clone()), Some(s("GIMP")));
    // Only the case-insensitive scan finds this one.
    assert_eq!(resolve_one("org.kde.kdenlive", &c).map(|a| a.name.clone()), Some(s("Kdenlive")));
    assert!(resolve_one("org.unknown.App", &c).is_none());
}

#[test]
fn resolve_ids_skips_repeats_and_stops_at_limit() {
    let c = catalog();
    let ids = vec![
        s("org.mozilla.firefox"),
        s("org.unknown.App"),
        s("org.mozilla.firefox.desktop"),
        s("org.gimp.GIMP"),
        s("org.kde.kdenlive"),
    ];
    let r = resolve_ids(&ids, &c, 10);
    let names: Vec<String> = r.iter().map(|h| h.name.clone()).collect();
    assert_eq!(names, vec![s("Firefox"), s("GIMP"), s("Kdenlive")]);
    let r2 = resolve_ids(&ids, &c, 2);
    assert_eq!(r2.len(), 2);
    assert_eq!(r2[1].name, "GIMP");
}

#[test]
fn popular_and_picks_lists() {
    assert_eq!(popular_seed().len(), 20);
    assert_eq!(popular_seed()[0], "com.valvesoftware.Steam");
    assert_eq!(fallback_picks().len(), 12);
    assert_eq!(fallback_picks()[10], "io.github.Faugus.faugus-launcher");
    let c = catalog();
    let pop: Vec<String> = get_popular(&c).iter().map(|h| h.id.clone()).collect();
    assert_eq!(
        pop,
        vec![s("com.valvesoftware.Steam"), s("org.mozilla.firefox"), s("org.gimp.GIMP.desktop"), s("org.KDE.Kdenlive.desktop")]
    );
    let picks: Vec<String> = get_picks(None, &c).iter().map(|h| h.name.clone()).collect();
    assert_eq!(picks, vec![s("Steam"), s("Kdenlive"), s("GIMP"), s("Firefox")]);
    let own: Vec<String> = get_picks(Some(vec![s("org.gimp.GIMP")]), &c).iter().map(|h| h.name.clone()).collect();
    assert_eq!(own, vec![s("GIMP")]);
}

#[test]
fn feed_ids_are_taken_from_app_links() {
    let feed = "<rss><item><link>https://flathub.org/apps/org.gimp.GIMP</link></item>\
                <item><link>https://flathub.org/apps/org.gimp.GIMP</link></item>\
                <item><link>https://flathub.org/apps/nodot</link></item>\
                <item><link>https://flathub.org/apps/org.mozilla.firefox?x=1</link></item></rss>";
    assert_eq!(feed_ids(feed), vec![s("org.gimp.GIMP"), s("org.mozilla.firefox")]);
    let c = catalog();
    let apps: Vec<String> = feed_apps(feed, &c).iter().map(|h| h.name.clone()).collect();
    assert_eq!(apps, vec![s("GIMP"), s("Firefox")]);
    assert!(feed_ids("no links here").is_empty());
}

#[test]
fn feed_ids_stop_at_twenty() {
    let mut feed = String::new();
    for i in 0..30 {
        feed.push_str(&format!("/apps/org.example.App{} ", i));
    }
    let ids = feed_ids(&feed);
    assert_eq!(ids.len(), 20);
    assert_eq!(ids[19], "org.example.App19");
}

#[test]
fn home_app_copies_display_fields() {
    let mut a = app("x.y.Z", "Z", "terra");
    a.icon_url = s("https://i.example/z.png");
    let h = HomeApp::from_info(&a);
    assert_eq!(h.id, "x.y.Z");
    assert_eq!(h.icon_url, "https://i.example/z.png");
    assert_eq!(h.source, "terra");
}
