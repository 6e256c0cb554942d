use scenter::daemon::{
    absolute_gnome_extension_url, extension_info_url, shell_version_of, status_for, url_escape, Settings,
    SoftwareTray, TrayStatus, UpdateCounts, DaemonMsg,
};

fn tray(status: TrayStatus) -> SoftwareTray {
    let (tx, _rx) = std::sync::mpsc::sync_channel::<DaemonMsg>(1);
    SoftwareTray { status, tx }
}

#[test]
fn interval_has_a_floor_of_one_hour() {
    let mut s = Settings::default();
    assert_eq!(s.effective_interval_secs(), Some(1440 * 60));
    s.update_interval = 0;
    assert_eq!(s.effective_interval_secs(), None);
    s.update_interval = 5;
    assert_eq!(s.effective_interval_secs(), Some(3600));
    s.update_interval = 61;
    assert_eq!(s.effective_interval_secs(), Some(3660));
}

#[test]
fn default_settings() {
    let s = Settings::default();
    assert!(s.auto_check_packages && s.auto_check_flatpak && s.auto_check_appimages);
    assert!(!s.auto_update);
}

#[test]
fn tray_states() {
    assert_eq!(status_for(3, true), TrayStatus::RebootRequired);
    assert_eq!(status_for(3, false), TrayStatus::Available(3));
    assert_eq!(status_for(0, false), TrayStatus::UpToDate);
    assert_eq!(TrayStatus::default(), TrayStatus::Checking);
    assert_eq!(tray(TrayStatus::Available(1)).title(), "Software Center — 1 update available");
    assert_eq!(tray(TrayStatus::Available(12)).title(), "Software Center — 12 updates available");
    assert_eq!(tray(TrayStatus::RebootRequired).title(), "Software Center — Reboot Required");
    assert_eq!(tray(TrayStatus::UpToDate).title(), "Software Center");
    assert_eq!(tray(TrayStatus::UpToDate).icon_name(), "emblem-ok-symbolic");
    assert_eq!(tray(TrayStatus::Checking).icon_name(), "process-stop-symbolic");
    assert_eq!(
        tray(TrayStatus::Available(2)).icon_name(),
        "software-update-available-symbolic"
    );
}

#[test]
fn notification_text() {
    let none = UpdateCounts::default();
    assert_eq!(none.notification_body(), None);
    let c = UpdateCounts { packages: 1, flatpak: 2, gnome_extensions: 1, appimages: 0, total: 4 };
    assert_eq!(
        c.notification_body(),
        Some("1 package update\n2 Flatpak updates\n1 GNOME extension update".to_string())
    );
}

#[test]
fn extension_urls() {
    assert_eq!(url_escape("a b@c+d/e%"), "a%20b%40c%2Bd%2Fe%25");
    assert_eq!(
        absolute_gnome_extension_url("/extension-data/icons/x.png"),
        "https://extensions.gnome.org/extension-data/icons/x.png"
    );
    assert_eq!(absolute_gnome_extension_url("https://cdn/x.png"), "https://cdn/x.png");
    assert_eq!(shell_version_of("GNOME Shell 48.2\n"), Some("48.2".to_string()));
    assert_eq!(shell_version_of("GNOME Shell"), None);
}

#[test]
fn extension_info_url_escapes_both_values() {
    assert_eq!(
        extension_info_url("dash-to-dock@micxgx.gmail.com", "46.0"),
        "https://extensions.gnome.org/extension-info/?uuid=dash-to-dock%40micxgx.gmail.com&shell_version=46.0"
    );
    assert_eq!(
        extension_info_url("a b/c", "47.beta+1"),
        "https://extensions.gnome.org/extension-info/?uuid=a%20b%2Fc&shell_version=47.beta%2B1"
    );
}

#[test]
fn auto_update_installs_only_what_was_found_and_only_when_on() {
    let mut st = scenter::daemon::Settings::default();
    let p = st.auto_update_plan(3, 2);
    assert!(!p.upgrade_packages && !p.update_flatpaks);
    st.auto_update = true;
    let p = st.auto_update_plan(3, 0);
    assert!(p.upgrade_packages && !p.update_flatpaks);
    let p = st.auto_update_plan(0, 1);
    assert!(!p.upgrade_packages && p.update_flatpaks);
}
