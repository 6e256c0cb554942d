use scenter::appstream::{AppInfo, Catalog};
use scenter::packages::{
    build_sources, desktop_icon_name, enrich_sources, get_addons_for_app, get_app_by_id,
    get_available, get_by_category, get_installed, get_installed_flatpaks_enriched, merge_multi_source,
    parse_installed_flatpaks, parse_package_list, parse_providers, rpm_icon_candidates, search, LocalRpm,
    NativeApp,
};

fn s(x: &str) -> String {
    x.to_string()
}

fn info(id: &str, name: &str, source: &str, pkg: &str) -> AppInfo {
    let mut a = AppInfo::default();
    a.id = s(id);
    a.name = s(name);
    a.source = s(source);
    a.package_name = s(pkg);
    a
}

fn catalog() -> Catalog {
    let mut c = Catalog::new();
    let mut gimp = info("org.gimp.GIMP", "GIMP", "native", "gimp");
    gimp.categories = vec![s("Graphics")];
    gimp.summary = s("Image editor");
    c.insert(s("org.gimp.GIMP"), gimp);
    let mut gimp_fp = info("org.gimp.GIMP", "GIMP", "flatpak", "org.gimp.GIMP");
    gimp_fp.categories = vec![s("Graphics")];
    gimp_fp.screenshots = vec![s("https://shots/gimp.png")];
    gimp_fp.remotes = vec![s("flathub")];
    c.insert(s("flatpak:org.gimp.GIMP"), gimp_fp);
    let mut ink = info("org.inkscape.Inkscape", "Inkscape", "flatpak", "org.inkscape.Inkscape");
    ink.categories = vec![s("graphics")];
    ink.keywords = vec![s("Vector")];
    c.insert(s("org.inkscape.Inkscape"), ink);
    let mut plugin = info("org.gimp.GIMP.Plugin.Foo", "Foo plugin", "flatpak", "org.gimp.GIMP.Plugin.Foo");
    plugin.is_addon = true;
    plugin.extends = s("org.gimp.GIMP");
    c.insert(s("org.gimp.GIMP.Plugin.Foo"), plugin);
    let mut rpm_plugin = info("gimp-extra", "Extra", "native", "gimp-extra");
    rpm_plugin.is_addon = true;
    rpm_plugin.extends = s("org.gimp.GIMP");
    c.insert(s("gimp-extra"), rpm_plugin);
    let mut guessed = info("org.x.Guess", "Guess", "native", "guess");
    guessed.pkg_name_guessed = true;
    c.insert(s("org.x.Guess"), guessed);
    c
}

#[test]
fn available_lists_entries_with_a_package() {
    let c = catalog();
    let apps = get_available(&c, &vec![s("gimp")], &vec![s("org.inkscape.Inkscape")]);
    assert_eq!(apps.len(), 6);
    assert!(apps[0].installed);
    assert!(!apps[1].installed);
    assert!(apps[2].installed);
}

#[test]
fn addons_follow_the_source_type_and_are_ordered() {
    let c = catalog();
    let fp = get_addons_for_app("org.gimp.GIMP", "flatpak", &c, &vec![], &vec![]);
    assert_eq!(fp.len(), 1);
    assert_eq!(fp[0].id, "org.gimp.GIMP.Plugin.Foo");
    let native = get_addons_for_app("org.gimp.GIMP", "native", &c, &vec![s("gimp-extra")], &vec![]);
    assert_eq!(native.len(), 1);
    assert_eq!(native[0].name, "Extra");
    assert!(native[0].installed);
}

#[test]
fn category_merges_sources_and_orders_by_name() {
    let c = catalog();
    let apps = get_by_category("GRAPHICS", &c, &vec![], &vec![s("org.gimp.GIMP")], &vec![]);
    let names: Vec<String> = apps.iter().map(|a| a.name.clone()).collect();
    assert_eq!(names, vec![s("GIMP"), s("Inkscape")]);
    let gimp = &apps[0];
    assert_eq!(gimp.source, "native");
    assert_eq!(gimp.sources.len(), 2);
    assert_eq!(gimp.sources[0].source, "native");
    assert_eq!(gimp.sources[1].source, "flatpak");
    assert!(gimp.installed);
    assert_eq!(gimp.screenshots, vec![s("https://shots/gimp.png")]);
}

#[test]
fn merging_groups_by_lower_case_name() {
    let a = NativeApp { name: s("Tool"), source: s("flatpak"), ..Default::default() };
    let b = NativeApp { name: s("tool"), source: s("native"), ..Default::default() };
    let c = NativeApp { name: s("Other"), source: s("native"), ..Default::default() };
    let merged = merge_multi_source(vec![a, b, c]);
    assert_eq!(merged.len(), 2);
    assert_eq!(merged[0].source, "native");
    assert_eq!(merged[0].sources.len(), 2);
    assert_eq!(merged[1].name, "Other");
    assert!(merged[1].sources.is_empty());
}

#[test]
fn app_by_id_offers_system_and_user_flatpak() {
    let c = catalog();
    let app = get_app_by_id("org.gimp.GIMP", &c, &vec![s("gimp")], &vec![], &vec![s("org.gimp.GIMP")], &vec![], &vec![])
        .expect("found");
    assert_eq!(app.source, "native");
    assert!(app.installed);
    let labels: Vec<String> = app.sources.iter().map(|o| o.label.clone()).collect();
    assert_eq!(labels, vec![s("RakuOS Linux"), s("Flathub (System)"), s("Flathub (User)")]);
    assert!(app.sources[1].installed);
    assert!(!app.sources[2].installed);
    assert!(app.sources[2].user_remote);
    assert_eq!(app.screenshots, vec![s("https://shots/gimp.png")]);
    assert!(get_app_by_id("nope", &c, &vec![], &vec![], &vec![], &vec![], &vec![]).is_none());

    let ink = get_app_by_id("org.inkscape.Inkscape", &c, &vec![], &vec![], &vec![], &vec![s("org.inkscape.Inkscape")], &vec![])
        .expect("found");
    assert_eq!(ink.sources.len(), 2);
    assert_eq!(ink.sources[0].label, "Flathub (System)");
    assert_eq!(ink.sources[1].label, "Flathub (User)");
    assert!(ink.sources[1].installed);
    let direct = build_sources(&c.get("flatpak:org.gimp.GIMP").unwrap().clone(), false, "org.gimp.GIMP", &c, &vec![], &vec![], &vec![], &vec![]);
    assert_eq!(direct.len(), 3);
    assert_eq!(direct[0].source, "native");
}

#[test]
fn enrich_adds_the_counterpart() {
    let c = catalog();
    let mut apps = vec![NativeApp {
        id: s("org.gimp.GIMP"),
        name: s("GIMP"),
        source: s("native"),
        package_name: s("gimp"),
        ..Default::default()
    }];
    enrich_sources(&mut apps, &c, &vec![], &vec![s("org.gimp.GIMP")], &vec![]);
    assert_eq!(apps[0].sources.len(), 2);
    assert_eq!(apps[0].sources[1].label, "Flathub");
    assert!(apps[0].installed);
}

#[test]
fn search_ranks_by_score_then_name() {
    let c = catalog();
    let r = search("gimp", &c, &vec![], &vec![], &vec![]);
    assert_eq!(r.len(), 1);
    assert_eq!(r[0].name, "GIMP");
    assert_eq!(r[0].sources.len(), 2);
    let v = search("VECTOR", &c, &vec![], &vec![], &vec![]);
    assert_eq!(v.len(), 1);
    assert_eq!(v[0].name, "Inkscape");
    let e = search("editor", &c, &vec![], &vec![], &vec![]);
    assert_eq!(e.len(), 1);
    assert_eq!(e[0].name, "GIMP");
    let mut c2 = Catalog::new();
    c2.insert(s("b"), info("b.B", "Beta Tool", "native", "beta"));
    c2.insert(s("a"), info("a.A", "Alpha Tool", "native", "alpha"));
    c2.insert(s("t"), info("t.T", "Tool", "native", "tool"));
    let names: Vec<String> = search("tool", &c2, &vec![], &vec![], &vec![]).iter().map(|a| a.name.clone()).collect();
    assert_eq!(names, vec![s("Tool"), s("Alpha Tool"), s("Beta Tool")]);
}

#[test]
fn installed_packages_use_catalog_then_flatpak_then_plain() {
    let c = catalog();
    let overlay = vec![s("gimp"), s("inkscape"), s("unknown-pkg")];
    let icons = vec![s("/icons/gimp.png"), s(""), s("")];
    let local = vec![
        LocalRpm { package: s("gimp"), display_name: s("gimp"), icon_path: s("") },
        LocalRpm { package: s("mytool"), display_name: s("My Tool"), icon_path: s("/i/t.png") },
    ];
    let r = get_installed(&overlay, &icons, &local, &c, &vec![], &vec![], &vec![]);
    let names: Vec<String> = r.iter().map(|a| a.name.clone()).collect();
    assert_eq!(names, vec![s("GIMP"), s("Inkscape"), s("My Tool"), s("unknown-pkg")]);
    assert_eq!(r[0].icon_path, "/icons/gimp.png");
    assert_eq!(r[1].id, "inkscape");
    assert_eq!(r[1].source, "native");
    assert_eq!(r[2].source, "local-rpm");
    assert_eq!(r[2].summary, "Locally installed RPM");
    assert_eq!(r[3].summary, "Installed package");
}

#[test]
fn installed_flatpaks_take_catalog_data() {
    let c = catalog();
    let rows = parse_installed_flatpaks("org.inkscape.Inkscape\tInkscape\t1.3\tVector editor\tflathub\ncom.other.App\tOther\t2.0\tStuff\n\n");
    assert_eq!(rows.len(), 2);
    assert_eq!(rows[1].origin, "flathub");
    let r = get_installed_flatpaks_enriched(&rows, &c, &vec![], &vec![], &vec![]);
    assert_eq!(r[0].version, "1.3");
    assert_eq!(r[0].keywords, vec![s("Vector")]);
    assert_eq!(r[1].icon, "com.other.App.png");
    assert_eq!(r[1].summary, "Stuff");
    assert!(r[1].installed);
}

#[test]
fn package_lists_and_rpm_output() {
    assert_eq!(parse_package_list("gimp\n  # comment\n\n vlc \n"), vec![s("gimp"), s("vlc")]);
    assert_eq!(parse_providers("nodejs22\nno package provides foo\n\n"), vec![s("nodejs22")]);
    assert_eq!(desktop_icon_name("[Desktop Entry]\nName=X\nIcon= x-icon \nIcon=other\n"), Some(s("x-icon")));
    assert_eq!(desktop_icon_name("[Desktop Entry]\nName=X\n"), None);
    let c = rpm_icon_candidates("tool");
    assert_eq!(c.len(), 19);
    assert_eq!(c[0], "/usr/share/icons/hicolor/256x256/apps/tool.png");
    assert_eq!(c[14], "/usr/share/icons/hicolor/32x32/apps/tool.xpm");
    assert_eq!(c[15], "/usr/share/pixmaps/tool.png");
    assert_eq!(c[18], "/usr/share/icons/hicolor/scalable/apps/tool.svg");
}

#[test]
fn merging_keeps_one_record_per_name_with_every_source() {
    let a = NativeApp { name: s("Tool"), source: s("flatpak"), installed: true, ..Default::default() };
    let b = NativeApp { name: s("TOOL"), source: s("native"), ..Default::default() };
    let c = NativeApp { name: s("tool"), source: s("flatpak"), ..Default::default() };
    let d = NativeApp { name: s("Solo"), source: s("flatpak"), ..Default::default() };
    let merged = merge_multi_source(vec![a, b, c, d]);
    let keys: Vec<String> = merged.iter().map(|m| m.name.to_lowercase()).collect();
    assert_eq!(keys, vec![s("tool"), s("solo")]);
    assert_eq!(merged[0].sources.len(), 3);
    assert_eq!(merged[0].source, "native");
    assert!(merged[0].installed);
    assert_eq!(merged[1].source, "flatpak");
    assert!(merged[1].sources.is_empty());
}

#[test]
fn search_hits_match_are_ordered_and_unique_by_name() {
    let mut c = Catalog::new();
    c.insert(s("a"), info("a.A", "Toolbox", "native", "toolbox"));
    c.insert(s("b"), info("b.B", "Hammer", "native", "tool-hammer"));
    c.insert(s("t"), info("t.T", "Tool", "native", "tool"));
    c.insert(s("flatpak:t.T"), info("t.T", "tool", "flatpak", "t.T"));
    c.insert(s("z"), info("z.Z", "Zeta", "native", "zeta"));
    let r = search("TOOL", &c, &vec![], &vec![], &vec![]);
    let names: Vec<String> = r.iter().map(|a| a.name.clone()).collect();
    assert_eq!(names, vec![s("Tool"), s("Toolbox"), s("Hammer")]);
    let mut lower: Vec<String> = names.iter().map(|n| n.to_lowercase()).collect();
    lower.dedup();
    assert_eq!(lower.len(), names.len());
}
