use scenter::appimage::{
    known_sources, glob_to_regex, asset_matches, check_releases,
    check_elf_and_arch, desktop_entry_text, desktop_value, download_progress, elf_machine,
    icon_extension_from_data, info_from_desktop, installed_record, is_archive, is_installed,
    known_source_for, machine_name_of, name_matches_arch, parse_desktop_file, parse_update_info,
    plan_update_check, release_version, resolve_source, sanitize_id, select_release,
    split_categories, url_update, urlencoded, version_newer, AppImage, AppImageInfo, ArchError,
    CheckKind, ElfError, Release, ReleaseAsset, glob_regex_source, gitlab_candidate,
    GitlabRelease, date_part, updated_version, or_meta, desktop_file_name,
};
use scenter::date::release_newer_than;

fn elf_header(machine: u16) -> Vec<u8> {
    let mut buf = vec![0x7f, b'E', b'L', b'F'];
    buf.resize(20, 0u8);
    buf[18] = machine as u8;
    buf[19] = (machine >> 8) as u8;
    buf
}

#[test]
fn elf_machine_detects_x86_64() {
    let h = elf_header(62);
    assert_eq!(elf_machine(&h).unwrap(), 62);
    assert_eq!(machine_name_of(&h), "x86_64");
}

#[test]
fn check_elf_and_arch_rejects_non_elf() {
    let h = b"#!/bin/sh\necho hi".to_vec();
    assert!(check_elf_and_arch(&h, "/tmp/sc-test-notelf.txt", "x86_64").is_err());
}

#[test]
fn check_elf_and_arch_rejects_arch_mismatch() {
    let h = elf_header(183);
    assert!(check_elf_and_arch(&h, "/tmp/sc-test-1-183.bin", "x86_64").is_err());
    assert!(check_elf_and_arch(&h, "/tmp/sc-test-1-183.bin", "aarch64").is_ok());
}

#[test]
fn check_elf_and_arch_rejects_filename_mismatch() {
    let path = "/tmp/sc-app-1.0-linux-aarch64.AppImage";
    let h = elf_header(62);
    assert!(check_elf_and_arch(&h, path, "x86_64").is_err());
    assert!(check_elf_and_arch(&h, path, "aarch64").is_err());
    let q = elf_header(183);
    assert!(check_elf_and_arch(&q, path, "aarch64").is_ok());
}

#[test]
fn name_matches_arch_heuristics() {
    assert!(name_matches_arch("app-1.0-x86_64.AppImage", "x86_64"));
    assert!(!name_matches_arch("app-1.0-aarch64.AppImage", "x86_64"));
    assert!(name_matches_arch("app-1.0-aarch64.AppImage", "aarch64"));
    assert!(!name_matches_arch("app-1.0-x86_64.AppImage", "aarch64"));
    assert!(name_matches_arch("app-1.0.AppImage", "x86_64"));
}

#[test]
fn known_source_resolves_popular_apps() {
    for id in ["rpcs3", "eden", "duckstation", "pcsx2", "youwee"] {
        assert!(known_source_for(id).is_some(), "expected known source for {id}");
    }
    assert!(known_source_for("unknown-app").is_none());
}

#[test]
fn resolve_source_prefers_manual_over_known() {
    let app = AppImage {
        id: "rpcs3".to_string(),
        update_source: "github".to_string(),
        update_url: "https://api.github.com/repos/user/own/releases/latest".to_string(),
        update_pattern: "mine-*.AppImage".to_string(),
        ..Default::default()
    };
    let (src, url, pat) = resolve_source(&app);
    assert_eq!(src, "github");
    assert_eq!(url, "https://api.github.com/repos/user/own/releases/latest");
    assert_eq!(pat, "mine-*.AppImage");
}

#[test]
fn resolve_source_falls_back_to_known_when_none() {
    let mut app = AppImage {
        id: "duckstation".to_string(),
        ..Default::default()
    };
    app.update_source = "none".to_string();
    let (src, url, pat) = resolve_source(&app);
    assert_eq!(src, "github");
    assert_eq!(
        url,
        "https://api.github.com/repos/stenzek/duckstation/releases/latest"
    );
    assert_eq!(pat, "DuckStation-x64.AppImage");
}

#[test]
fn compare_by_date_detects_newer_release() {
    assert!(release_newer_than("2026-02-01T10:00:00Z", "2026-01-01T00:00:00Z"));
    assert!(!release_newer_than("2025-12-01T10:00:00Z", "2026-01-01T00:00:00Z"));
    assert!(release_newer_than("2026-02-01T10:00:00Z", ""));
    assert!(!release_newer_than("2026-02-01T10:00:00Z", "2026-02-01T10:00:00Z"));
}

#[test]
fn known_source_table_values() {
    let k = known_source_for("eden").unwrap();
    assert_eq!(k.source, "forgejo");
    assert_eq!(k.pattern, "Eden-Linux-*-amd64-clang-pgo.AppImage");
    assert!(!k.compare_by_date);
    assert!(known_source_for("rpcs3").unwrap().compare_by_date);
    assert!(known_source_for("RPCS3").is_none());
}

#[test]
fn resolve_source_keeps_record_when_unknown() {
    let app = AppImage {
        id: "other".to_string(),
        update_source: "none".to_string(),
        update_url: "u".to_string(),
        ..Default::default()
    };
    assert_eq!(
        resolve_source(&app),
        ("none".to_string(), "u".to_string(), String::new())
    );
}

#[test]
fn archive_suffixes_are_case_insensitive() {
    assert!(is_archive("/tmp/App-1.0.TAR.GZ"));
    assert!(is_archive("bundle.zip"));
    assert!(is_archive("x.7z"));
    assert!(!is_archive("App.AppImage"));
    assert!(!is_archive("notes.gz"));
}

#[test]
fn sanitize_id_lowercases_and_trims_dashes() {
    assert_eq!(sanitize_id("My Cool App!"), "my-cool-app");
    assert_eq!(sanitize_id("--RPCS3--"), "rpcs3");
    assert_eq!(sanitize_id("Ünïcode 2"), "n-code-2");
    assert_eq!(sanitize_id("***"), "");
}

#[test]
fn urlencoded_replaces_slashes() {
    assert_eq!(urlencoded("group/sub/repo"), "group%2Fsub%2Frepo");
}

#[test]
fn update_info_github() {
    let (s, u, p) = parse_update_info("gh-releases-zsync|owner|repo|latest|App-*.AppImage.zsync");
    assert_eq!(s, "github");
    assert_eq!(u, "https://api.github.com/repos/owner/repo/releases/latest");
    assert_eq!(p, "App-*.AppImage");
    let (s, _, p) = parse_update_info("gh-releases-zsync|owner|repo|latest");
    assert_eq!(s, "github");
    assert_eq!(p, "*.AppImage");
    let (s, u, p) = parse_update_info("gh-releases-zsync|owner|repo");
    assert_eq!((s.as_str(), u.as_str(), p.as_str()), ("none", "", ""));
}

#[test]
fn update_info_gitlab_and_zsync() {
    let (s, u, p) = parse_update_info("gl-releases-zsync|group/proj|latest|x-*.AppImage.zsync");
    assert_eq!(s, "gitlab");
    assert_eq!(u, "https://gitlab.com/api/v4/projects/group%2Fproj/releases");
    assert_eq!(p, "x-*.AppImage");
    let (s, u, p) = parse_update_info("zsync|https://example.org/dl/App.AppImage.zsync");
    assert_eq!(s, "url");
    assert_eq!(u, "https://example.org/dl/App.AppImage");
    assert_eq!(p, "App.AppImage");
    let (s, _, _) = parse_update_info("NONE");
    assert_eq!(s, "none");
    let (s, _, _) = parse_update_info("");
    assert_eq!(s, "none");
    let (s, _, _) = parse_update_info("bintray-zsync|a|b");
    assert_eq!(s, "none");
}

#[test]
fn version_comparison() {
    assert!(version_newer("1.10.0", "1.9.3"));
    assert!(!version_newer("1.9.3", "1.10.0"));
    assert!(!version_newer("2.0", "2.0"));
    assert!(version_newer("anything", ""));
    assert!(version_newer("1.0.1", "1.0"));
    assert!(!version_newer("v1.0", "1.0"));
    assert!(!version_newer("1.0", "v1.0"));
}

#[test]
fn elf_errors_and_messages() {
    assert_eq!(elf_machine(&[0x7f, b'E', b'L']), Err(ElfError::TooSmall));
    assert_eq!(elf_machine(&[0u8; 20]), Err(ElfError::NotElf));
    assert_eq!(machine_name_of(&elf_header(3)), "i386");
    assert_eq!(machine_name_of(&elf_header(40)), "unknown-arch");
    assert_eq!(machine_name_of(&[1, 2]), "unknown-arch");
    let e = check_elf_and_arch(&elf_header(183), "/x/app.AppImage", "x86_64").unwrap_err();
    assert_eq!(
        e.message(),
        "Architecture mismatch: host is x86_64, downloaded AppImage is aarch64."
    );
    let e = check_elf_and_arch(&elf_header(62), "/x/App-ARM64.AppImage", "amd64").unwrap_err();
    match &e {
        ArchError::NameMismatch { file_name, .. } => assert_eq!(file_name, "app-arm64.appimage"),
        _ => panic!("unexpected error"),
    }
    let e = check_elf_and_arch(&[1, 2, 3], "/x/a", "x86_64").unwrap_err();
    assert_eq!(e.message(), "Downloaded file is too small to be an AppImage.");
    assert!(check_elf_and_arch(&elf_header(40), "/x/a", "riscv64").is_ok());
}

#[test]
fn icon_extension_sniffing() {
    assert_eq!(icon_extension_from_data(b"\x89PNG\r\n\x1a\nrest", "svg"), "png");
    assert_eq!(icon_extension_from_data(b"\xff\xd8\xff\xe0", "png"), "jpg");
    assert_eq!(icon_extension_from_data(b"RIFF\0\0\0\0WEBPVP8 ", "png"), "webp");
    assert_eq!(icon_extension_from_data(b"<?xml version='1.0'?><SVG>", "png"), "svg");
    assert_eq!(icon_extension_from_data(b"/* XPM */", "png"), "xpm");
    assert_eq!(icon_extension_from_data(b"\x00\x01", "ico"), "ico");
}

#[test]
fn sidecar_presence() {
    let files = vec!["a.json".to_string(), "b.AppImage".to_string()];
    assert!(is_installed("a", &files));
    assert!(!is_installed("b", &files));
}

#[test]
fn desktop_file_reading() {
    let text = "# comment\n[Desktop Entry]\nName = My App \nComment=Does things\n#Name=x\nCategories=Game; Utility ;;\nX-AppImage-Version=1.2\nName=Later\n[Desktop Action new]\nName=Action\n";
    let pairs = parse_desktop_file(text);
    assert_eq!(pairs.len(), 5);
    assert_eq!(desktop_value(&pairs, "Name"), Some("Later".to_string()));
    assert_eq!(desktop_value(&pairs, "Icon"), None);
    assert_eq!(split_categories("Game; Utility ;;"), vec!["Game", "Utility"]);
    let info = info_from_desktop(&pairs, "Tool-1.0.AppImage", None, "png".to_string());
    assert_eq!(info.name, "Later");
    assert_eq!(info.summary, "Does things");
    assert_eq!(info.description, "Does things");
    assert_eq!(info.version, "1.2");
    assert_eq!(info.categories, vec!["Game", "Utility"]);
    assert_eq!(info.update_source, "");
    let info = info_from_desktop(&Vec::new(), "Tool-1.0.AppImage", None, "png".to_string());
    assert_eq!(info.name, "Tool-1.0");
}

#[test]
fn desktop_entry_round_trip() {
    let info = AppImageInfo {
        summary: "Summary".to_string(),
        categories: vec!["Game".to_string(), "Emulator".to_string()],
        ..Default::default()
    };
    let text = desktop_entry_text("my-app", "My App", "/opt/my.AppImage", "", &info);
    assert_eq!(
        text,
        "[Desktop Entry]\nName=My App\nComment=Summary\nExec=\"/opt/my.AppImage\" %U\nIcon=application-x-executable\nTerminal=false\nType=Application\nCategories=Game;Emulator;\nStartupNotify=true\nX-SoftwareCenter-AppImage=true\nX-SoftwareCenter-AppImage-ID=my-app\n"
    );
    let pairs = parse_desktop_file(&text);
    assert_eq!(desktop_value(&pairs, "Name"), Some("My App".to_string()));
    assert_eq!(desktop_value(&pairs, "Categories"), Some("Game;Emulator;".to_string()));
    let empty = AppImageInfo::default();
    let text = desktop_entry_text("x", "X", "/x", "/i.png", &empty);
    assert!(text.contains("Categories=Utility;\n"));
    assert!(text.contains("Icon=/i.png\n"));
    assert_eq!(desktop_file_name("x"), "sc-appimage-x.desktop");
}

fn app(version: &str, installed_at: &str) -> AppImage {
    AppImage {
        id: "demo".to_string(),
        name: "Demo".to_string(),
        version: version.to_string(),
        installed_at: installed_at.to_string(),
        icon_path: "/i.png".to_string(),
        ..Default::default()
    }
}

fn asset(name: &str, url: &str) -> ReleaseAsset {
    ReleaseAsset {
        name: Some(name.to_string()),
        browser_download_url: Some(url.to_string()),
    }
}

#[test]
fn release_selection_prefers_host_arch() {
    let rel = Release {
        tag_name: Some("v2.0".to_string()),
        published_at: Some("2026-02-01T10:00:00Z".to_string()),
        draft: false,
        assets: Some(vec![
            asset("demo-2.0-aarch64.AppImage", "u-arm"),
            asset("demo-2.0-x86_64.AppImage", "u-x86"),
        ]),
    };
    let a = app("1.0", "");
    let r = select_release(&a, &vec![rel], &vec![vec![true, true]], false, "x86_64", false).unwrap();
    assert_eq!(r.new_version, "2.0");
    assert_eq!(r.download_url, "u-x86");
    assert_eq!(r.current_version, "1.0");
    assert!(!r.default_source);
}

#[test]
fn release_selection_skips_drafts_and_old() {
    let draft = Release {
        tag_name: Some("3.0".to_string()),
        draft: true,
        assets: Some(vec![asset("d.AppImage", "u3")]),
        ..Default::default()
    };
    let old = Release {
        tag_name: Some("0.9".to_string()),
        assets: Some(vec![asset("d.AppImage", "u09")]),
        ..Default::default()
    };
    let good = Release {
        tag_name: Some("2.0".to_string()),
        assets: Some(vec![asset("d.AppImage", "u2")]),
        ..Default::default()
    };
    let a = app("1.0", "");
    let r = select_release(
        &a,
        &vec![draft.clone(), old.clone(), good],
        &vec![vec![true], vec![true], vec![true]],
        false,
        "x86_64",
        true,
    )
    .unwrap();
    assert_eq!(r.download_url, "u2");
    assert!(select_release(&a, &vec![old], &vec![vec![true]], false, "x86_64", true).is_none());
    let r = select_release(&a, &vec![draft], &vec![vec![true]], false, "x86_64", false).unwrap();
    assert_eq!(r.download_url, "u3");
}

#[test]
fn release_selection_by_date() {
    let rel = Release {
        tag_name: Some("latest".to_string()),
        published_at: Some("2026-02-01T10:00:00Z".to_string()),
        draft: false,
        assets: Some(vec![asset("DuckStation-x64.AppImage", "u")]),
    };
    assert_eq!(release_version(&rel, true), "2026-02-01");
    assert_eq!(release_version(&rel, false), "latest");
    let a = app("0.1", "2026-01-01T00:00:00Z");
    let r = select_release(&a, &vec![rel.clone()], &vec![vec![true]], true, "x86_64", false).unwrap();
    assert_eq!(r.new_version, "2026-02-01");
    let b = app("0.1", "2026-03-01T00:00:00Z");
    assert!(select_release(&b, &vec![rel], &vec![vec![true]], true, "x86_64", false).is_none());
    assert_eq!(date_part("2026-02-01"), "2026-02-01");
    assert_eq!(date_part("2026-02"), "");
    assert_eq!(date_part("aäääää"), "");
    assert_eq!(date_part("ää1234567"), "ää123456");
}

#[test]
fn glob_sources() {
    assert_eq!(glob_regex_source("rpcs3-v*_linux64.AppImage"), "(?i)^rpcs3\\-v.*_linux64\\.AppImage$");
    assert_eq!(glob_regex_source("a+b"), "(?i)^a\\+b$");
}

#[test]
fn gitlab_release_conversion() {
    let rels = vec![
        GitlabRelease { upcoming_release: true, tag_name: Some("v9".to_string()), links: None },
        GitlabRelease {
            upcoming_release: false,
            tag_name: Some("v2.1".to_string()),
            links: Some(vec![Some("https://x/dl/app-2.1-x86_64.AppImage".to_string()), None]),
        },
    ];
    let rel = gitlab_candidate(&rels).unwrap();
    assert_eq!(rel.tag_name, Some("v2.1".to_string()));
    let assets = rel.assets.unwrap();
    assert_eq!(assets[0].name, Some("app-2.1-x86_64.AppImage".to_string()));
    assert_eq!(assets[1].name, Some(String::new()));
    let none_tag = vec![GitlabRelease { upcoming_release: false, tag_name: None, links: None }];
    assert!(gitlab_candidate(&none_tag).is_none());
}

#[test]
fn plain_url_updates() {
    let mut a = app("1", "");
    a.update_url = "https://x/app.AppImage".to_string();
    let r = url_update(&a, "\"e2\"", "", "\"e1\"", "").unwrap();
    assert_eq!(r.new_version, "new version");
    assert_eq!(r.download_url, "https://x/app.AppImage");
    assert!(url_update(&a, "\"e1\"", "", "\"e1\"", "").is_none());
    assert!(url_update(&a, "", "", "x", "y").is_none());
    assert!(url_update(&a, "", "Mon", "", "Sun").is_some());
}

#[test]
fn check_plans() {
    let mut a = app("1", "");
    a.id = "rpcs3".to_string();
    let p = plan_update_check(&a);
    assert_eq!(p.kind, CheckKind::Github);
    assert!(p.used_fallback);
    assert!(p.compare_by_date);
    assert_eq!(p.effective.update_pattern, "rpcs3-v*_linux64.AppImage");
    a.update_source = "codeberg".to_string();
    let p = plan_update_check(&a);
    assert_eq!(p.kind, CheckKind::Gitea);
    assert!(!p.used_fallback && !p.compare_by_date);
    a.update_source = "none".to_string();
    a.id = "zzz".to_string();
    assert_eq!(plan_update_check(&a).kind, CheckKind::Skip);
}

#[test]
fn download_percentages() {
    assert_eq!(download_progress(50, 200, 0), Some(25));
    assert_eq!(download_progress(50, 200, 25), None);
    assert_eq!(download_progress(200, 200, 100), Some(100));
    assert_eq!(download_progress(300, 200, 100), Some(100));
    assert_eq!(download_progress(10, 0, 0), None);
    assert_eq!(download_progress(u64::MAX, u64::MAX, 99), Some(100));
}

#[test]
fn record_helpers() {
    assert_eq!(updated_version("", "2.0", "1.0"), "2.0");
    assert_eq!(updated_version("", "", "1.0"), "1.0");
    assert_eq!(updated_version("3", "2.0", "1.0"), "3");
    assert_eq!(or_meta("", "meta"), "meta");
    assert_eq!(or_meta("prev", "meta"), "prev");
    let info = AppImageInfo {
        version: "1.2".to_string(),
        update_source: "github".to_string(),
        update_url: "u".to_string(),
        ..Default::default()
    };
    let prev = AppImage {
        update_source: "url".to_string(),
        allow_prerelease: true,
        ..Default::default()
    };
    let r = installed_record("id", "Name", &info, "/p", "/d", "", "2026-01-01T00:00:00Z", &Some(prev));
    assert_eq!(r.update_source, "url");
    assert_eq!(r.update_url, "u");
    assert!(r.allow_prerelease && r.installed);
    assert_eq!(r.source, "appimage");
    let r = installed_record("id", "Name", &info, "/p", "/d", "", "now", &None);
    assert_eq!(r.update_source, "github");
    assert!(!r.allow_prerelease);
}

#[test]
fn known_source_specs_are_well_formed() {
    for (id, spec) in known_sources() {
        assert!(!spec.source.is_empty(), "{id}: source");
        assert!(!spec.url.is_empty(), "{id}: url");
        assert!(!spec.pattern.is_empty(), "{id}: pattern");
        assert!(
            glob_to_regex(spec.pattern).unwrap().as_str() != "(?-i)^$",
            "{id}: bad glob"
        );
    }
}

#[test]
fn release_pattern_matches_asset_names() {
    let p = glob_to_regex("rpcs3-v*_linux64.AppImage").unwrap();
    assert_eq!(p.as_str(), "(?i)^rpcs3\\-v.*_linux64\\.AppImage$");
    let assets = vec![
        asset("rpcs3-v0.0.30_linux64.AppImage", "u1"),
        asset("RPCS3-V0.0.30_LINUX64.APPIMAGE", "u2"),
        asset("rpcs3-v0.0.30_win64.7z", "u3"),
        ReleaseAsset { name: None, browser_download_url: Some("u4".to_string()) },
    ];
    assert_eq!(asset_matches(&assets, &p), vec![true, true, false, false]);
}

#[test]
fn check_releases_finds_the_matching_asset() {
    let p = glob_to_regex("demo-*-x86_64.AppImage").unwrap();
    let rel = Release {
        tag_name: Some("v2.0".to_string()),
        published_at: None,
        draft: false,
        assets: Some(vec![asset("demo-2.0.zsync", "z"), asset("demo-2.0-x86_64.AppImage", "u-x86")]),
    };
    let r = check_releases(&app("1.0", ""), &vec![rel], &p, false, "x86_64", false).unwrap();
    assert_eq!(r.new_version, "2.0");
    assert_eq!(r.download_url, "u-x86");
    let none = Release {
        tag_name: Some("v2.0".to_string()),
        published_at: None,
        draft: false,
        assets: Some(vec![asset("demo-2.0.zsync", "z")]),
    };
    assert!(check_releases(&app("1.0", ""), &vec![none], &p, false, "x86_64", false).is_none());
}

#[test]
fn zsync_control_candidates_and_progress() {
    assert_eq!(
        scenter::appimage::zsync_candidates("https://h/d/App-1.0-abcdef12.AppImage"),
        vec![
            "https://h/d/App-1.0-abcdef12.AppImage.zsync".to_string(),
            "https://h/d/App-1.0.AppImage.zsync".to_string()
        ]
    );
    assert_eq!(
        scenter::appimage::zsync_candidates("https://h/d/App.AppImage"),
        vec!["https://h/d/App.AppImage.zsync".to_string()]
    );
    assert_eq!(scenter::appimage::zsync_progress("#####   45.3% 120.0 kBps", 10), Some(45));
    assert_eq!(scenter::appimage::zsync_progress("#####   45.3% 120.0 kBps", 50), None);
    assert_eq!(scenter::appimage::zsync_progress("reading seed file", 0), None);
    assert_eq!(
        scenter::appimage::zsync_start_line("https://h/a.zsync"),
        "Delta update via zsync: https://h/a.zsync"
    );
}
