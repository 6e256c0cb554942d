use scenter::appstream::{parse_catalog_bytes, Catalog};
use std::io::Write;

const XML: &str = r#"<?xml version="1.0"?>
<components>
  <component type="desktop-application">
    <id>a.b.C</id>
    <name>Cee</name>
    <name xml:lang="de">Zeh</name>
    <summary>A &amp; B</summary>
    <pkgname>cee</pkgname>
    <releases>
      <release version="1" date="2023-01-05"/>
      <release version="2" date="2024-03-01"/>
    </releases>
  </component>
</components>"#;

#[test]
fn self_closing_releases_keep_the_newest_date() {
    let mut cat = Catalog::new();
    parse_catalog_bytes("/usr/share/swcatalog/xml/fedora.xml", XML.as_bytes(), &mut cat);
    let a = cat.get("a.b.C").unwrap();
    assert_eq!(a.updated, "2024-03-01");
    assert_eq!(a.name, "Cee");
    assert_eq!(a.summary, "A & B");
    assert_eq!(a.package_name, "cee");
    assert_eq!(a.source, "native");
}

#[test]
fn gzip_catalog_is_decompressed_and_flatpak_remote_read_from_path() {
    let mut enc = flate2::write::GzEncoder::new(Vec::new(), flate2::Compression::default());
    enc.write_all(XML.as_bytes()).unwrap();
    let gz = enc.finish().unwrap();
    let mut cat = Catalog::new();
    parse_catalog_bytes(
        "/var/lib/flatpak/appstream/flathub/x86_64/active/appstream.xml.gz",
        &gz,
        &mut cat,
    );
    let a = cat.get("a.b.C").unwrap();
    assert_eq!(a.source, "flatpak");
    assert_eq!(a.remotes, vec!["flathub".to_string()]);
    assert_eq!(a.updated, "2024-03-01");
}

#[test]
fn unreadable_bytes_add_nothing() {
    let mut cat = Catalog::new();
    parse_catalog_bytes("/x/appstream.xml.gz", b"not gzip", &mut cat);
    assert!(cat.entries.is_empty());
}

#[test]
fn native_and_flatpak_records_of_one_id_are_both_kept_in_either_order() {
    let native = "/usr/share/swcatalog/xml/fedora.xml";
    let flatpak = "/var/lib/flatpak/appstream/flathub/x86_64/active/appstream.xml";
    for order in [[native, flatpak], [flatpak, native]] {
        let mut cat = Catalog::new();
        for path in order {
            parse_catalog_bytes(path, XML.as_bytes(), &mut cat);
        }
        assert_ne!(cat.get("a.b.C").unwrap().source, "flatpak");
        assert_eq!(cat.get("flatpak:a.b.C").unwrap().source, "flatpak");
    }
}
