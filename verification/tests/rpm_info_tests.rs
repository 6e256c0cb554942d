use scenter::appstream::{AppInfo, Catalog};
use scenter::packages::{eq_ignore_ascii, install_action, local_rpm_icon, parse_local_rpm_info};

fn app(id: &str, name: &str, pkg: &str, icon: &str) -> AppInfo {
    let mut a = AppInfo::default();
    a.id = id.to_string();
    a.name = name.to_string();
    a.package_name = pkg.to_string();
    a.icon_path = icon.to_string();
    a.icon_url = format!("https://icons/{}", icon);
    a
}

const QUERY: &str = "Name: lact\nVersion: 0.7.3-1.fc41\nSummary: GPU control: fans, clocks\nDescription: Linux GPU Configuration Tool\nURL: (none)\nLicense: MIT\nSize: 12345\nArch: x86_64";

#[test]
fn rpm_query_fields_are_read() {
    let i = parse_local_rpm_info("/tmp/lact-0.7.3.rpm", QUERY);
    assert_eq!(i.name, "lact");
    assert_eq!(i.version, "0.7.3-1.fc41");
    assert_eq!(i.summary, "GPU control: fans, clocks");
    assert_eq!(i.description, "Linux GPU Configuration Tool");
    assert_eq!(i.url, "");
    assert_eq!(i.license, "MIT");
    assert_eq!(i.size, 12345);
    assert_eq!(i.arch, "x86_64");
}

#[test]
fn rpm_query_without_name_uses_the_file_stem() {
    let i = parse_local_rpm_info("/home/u/Downloads/tool-1.0.x86_64.rpm", "Version: 1.0\nSize: lots");
    assert_eq!(i.name, "tool-1.0.x86_64");
    assert_eq!(i.version, "1.0");
    assert_eq!(i.size, 0);
    assert_eq!(i.summary, "");
}

#[test]
fn rpm_query_keys_ignore_case_and_the_last_line_wins() {
    let i = parse_local_rpm_info("x.rpm", "NAME : first\nurl: https://a.example\nname: second\nKey:without-space");
    assert_eq!(i.name, "second");
    assert_eq!(i.url, "https://a.example");
}

#[test]
fn ascii_case_is_ignored_only_for_ascii() {
    assert!(eq_ignore_ascii("GIMP", "gimp"));
    assert!(eq_ignore_ascii("", ""));
    assert!(!eq_ignore_ascii("gimp", "gim"));
    assert!(!eq_ignore_ascii("Ä", "ä"));
}

#[test]
fn local_rpm_icon_takes_the_first_describing_record() {
    let mut c = Catalog::new();
    c.insert("other".to_string(), app("other", "Other", "other", "/icons/other.png"));
    c.insert("org.lact".to_string(), app("org.lact", "LACT", "lact-pkg", "/icons/lact.png"));
    c.insert("lact".to_string(), app("lact", "Lact", "lact", "/icons/lact2.png"));
    let (path, url) = local_rpm_icon(&c, "lact");
    assert_eq!(path, "/icons/lact.png");
    assert_eq!(url, "https://icons//icons/lact.png");
    let (path, url) = local_rpm_icon(&c, "missing");
    assert_eq!((path.as_str(), url.as_str()), ("", ""));
}

#[test]
fn local_rpm_install_action() {
    assert_eq!(install_action(false, "1.0", ""), "install");
    assert_eq!(install_action(true, "1.0", "1.0"), "reinstall");
    assert_eq!(install_action(true, "1.1", "1.0"), "upgrade");
}
