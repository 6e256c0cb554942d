use scenter::appstream::{AppInfo, Catalog};
use scenter::store::{lookup_app_info, repo_owner_project, resolve_app_display_info};

fn catalog() -> Catalog {
    let mut c = Catalog::new();
    let mut a = AppInfo::default();
    a.id = "org.gnome.Maps".to_string();
    a.name = "Maps".to_string();
    a.icon_path = "/icons/maps.png".to_string();
    a.icon_url = "https://icons/maps.png".to_string();
    c.insert("org.gnome.Maps".to_string(), a);
    c
}

fn t(a: &str, b: &str, c: &str) -> (String, String, String) {
    (a.to_string(), b.to_string(), c.to_string())
}

#[test]
fn app_info_from_the_catalog_or_the_id() {
    let c = catalog();
    assert_eq!(lookup_app_info(&c, "org.gnome.Maps"), t("Maps", "/icons/maps.png", "https://icons/maps.png"));
    assert_eq!(lookup_app_info(&c, "org.kde.kate"), t("kate", "", ""));
    assert_eq!(lookup_app_info(&c, "vim"), t("vim", "", ""));
}

#[test]
fn supplied_display_info_wins() {
    let c = catalog();
    let s = |x: &str| x.to_string();
    assert_eq!(
        resolve_app_display_info(&c, "org.gnome.Maps", s("My Maps"), s(""), s("u")),
        t("My Maps", "", "u")
    );
    assert_eq!(
        resolve_app_display_info(&c, "org.gnome.Maps", s(""), s("/p.png"), s("")),
        t("Maps", "/p.png", "https://icons/maps.png")
    );
    assert_eq!(
        resolve_app_display_info(&c, "org.gnome.Maps", s("Name"), s(""), s("")),
        t("Name", "/icons/maps.png", "https://icons/maps.png")
    );
    assert_eq!(resolve_app_display_info(&c, "a.b.c", s(""), s(""), s("")), t("c", "", ""));
}

#[test]
fn copr_owner_and_project() {
    assert_eq!(repo_owner_project("copr:copr.fedorainfracloud.org:ilyaz:LACT"), "ilyaz/LACT");
    assert_eq!(repo_owner_project("copr:host:owner:proj:extra"), "owner/proj:extra");
    assert_eq!(repo_owner_project("fedora"), "");
    assert_eq!(repo_owner_project("copr:host:owner"), "");
}
