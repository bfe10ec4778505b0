use indexmap::IndexMap;
use underpane::config::{Config, MonitorConfig, Scalar};
use underpane::install::{
    bundle_root, check_wallpaper_name, local_zip_path, local_zip_path_from, resolve_zip_source,
    zip_source_from, BundleRoot,
    InstallProgress, ProgressThrottle, ZipSource,
};
use underpane::locale::{HashMapStrings, Translations};
use underpane::monitors::{current_monitors, MonitorGeometry, MonitorPosition, MonitorSize};
use underpane::protocol::{resolve_external_target, ExternalTarget};
use underpane::string_map::StringMap;
use underpane::tracker::Tracker;
use underpane::wallpapers::{manifest_candidates, WallpaperConfigSchema, WallpaperManifest};

fn table(pairs: Vec<(&str, HashMapStrings)>) -> HashMapStrings {
    let mut m = StringMap::new();
    for (k, v) in pairs {
        m.insert(k.to_string(), v);
    }
    HashMapStrings::HashMap(m)
}

fn leaf(s: &str) -> HashMapStrings {
    HashMapStrings::String(s.to_string())
}

#[test]
fn looks_up_dotted_translation_ids() {
    let t = table(vec![("tray", table(vec![("quit", leaf("Quit")), ("configure", leaf("Configure"))]))]);
    assert_eq!(t.get("tray.quit"), Some("Quit"));
    assert_eq!(t.get("tray"), None);
    assert_eq!(t.get("tray.quit.more"), None);
    assert_eq!(t.get("tray.missing"), None);
    assert_eq!(leaf("x").get(""), None);
    assert_eq!(table(vec![("", leaf("e"))]).get(""), Some("e"));
}

#[test]
fn translations_pick_a_locale() {
    let mut locales = StringMap::new();
    locales.insert("en-US".to_string(), table(vec![("tray", table(vec![("quit", leaf("Quit"))]))]));
    locales.insert("zh-CN".to_string(), table(vec![("tray", table(vec![("quit", leaf("退出"))]))]));
    let mut second = StringMap::new();
    second.insert("en-US".to_string(), table(vec![("tray", table(vec![("quit", leaf("Quit"))]))]));
    let t = Translations::new(locales, &["fr-FR".to_string(), "zh-CN".to_string()]);
    assert_eq!(t.get("tray.quit"), "退出");
    assert_eq!(t.get("tray.refresh_wallpapers"), "tray.refresh_wallpapers");
    let t = Translations::new(second, &["de".to_string()]);
    assert_eq!(t.get("tray.quit"), "Quit");
    let t = Translations::new(StringMap::new(), &[]);
    assert_eq!(t.get("tray.quit"), "tray.quit");
}

#[test]
fn tracks_changes() {
    let mut t = Tracker::new(0u32);
    assert!(!t.update(0));
    assert!(t.update(3));
    assert_eq!(*t.get(), 3);
    let mut w = Tracker::new(String::from("cube"));
    assert!(!w.update("cube".to_string()));
    assert!(w.update("video".to_string()));
    assert_eq!(w.get(), "video");
}

#[test]
fn lists_monitors() {
    let ms = [
        MonitorGeometry { x: 0, y: 0, width: 1920, height: 1080 },
        MonitorGeometry { x: -1280, y: 10, width: 1280, height: 1024 },
    ];
    let info = current_monitors(&ms);
    assert_eq!(info.len(), 2);
    assert_eq!(info[0].id, "1");
    assert_eq!(info[1].id, "2");
    assert_eq!(info[1].position, MonitorPosition { x: -1280, y: 10 });
    assert_eq!(info[0].size, MonitorSize { width: 1920, height: 1080 });
    assert!(current_monitors(&[]).is_empty());
}

#[test]
fn orders_manifest_candidates() {
    let names = manifest_candidates(&["zh-CN".to_string(), "en-US".to_string(), "zh-TW".to_string()]);
    assert_eq!(
        names,
        vec!["index.zh-CN.toml", "index.zh.toml", "index.en-US.toml", "index.en.toml", "index.zh-TW.toml", "index.toml"]
    );
    assert_eq!(manifest_candidates(&[]), vec!["index.toml"]);
    assert_eq!(manifest_candidates(&["en".to_string(), "en".to_string()]), vec!["index.en.toml", "index.toml"]);
}

#[test]
fn checks_install_names() {
    assert_eq!(check_wallpaper_name("cube"), Ok(()));
    assert_eq!(
        check_wallpaper_name("Bad Name"),
        Err("invalid wallpaper name 'Bad Name' (allowed: lowercase letters, digits, '-'; cannot start or end with '-')".to_string())
    );
}

#[test]
fn resolves_zip_sources() {
    match resolve_zip_source("https://example.com/w.zip") {
        Ok(ZipSource::Remote(u)) => assert_eq!(u, "https://example.com/w.zip"),
        r => panic!("unexpected {r:?}"),
    }
    match resolve_zip_source("file:///tmp/w.underpane") {
        Ok(ZipSource::LocalFileUrl(u)) => assert_eq!(u, "file:///tmp/w.underpane"),
        r => panic!("unexpected {r:?}"),
    }
    assert_eq!(resolve_zip_source("ftp://host/w.zip").unwrap_err(), "unsupported zip_url scheme 'ftp'");
    assert_eq!(resolve_zip_source("HTTPS://example.com/w.zip").is_ok(), true);
    assert_eq!(
        resolve_zip_source("not a url").unwrap_err(),
        format!("invalid zip_url: {}", url::Url::parse("not a url").unwrap_err())
    );
    assert_eq!(zip_source_from("x", Err("boom".into())).unwrap_err(), "invalid zip_url: boom");
    assert!(matches!(zip_source_from("x", Ok("https".into())), Ok(ZipSource::Remote(_))));
}

#[test]
fn throttles_progress_reports() {
    let mut t = ProgressThrottle::new();
    assert!(t.decide(false, 10, 0));
    assert!(!t.decide(false, 20, 50));
    assert!(t.decide(false, 20, 150));
    assert!(!t.decide(false, 20 + 262143, 200));
    assert!(t.decide(false, 20 + 262144, 200));
    assert!(t.decide(true, 20 + 262144, 200));
    assert_eq!(t.last_bytes, 20 + 262144);
    assert_eq!(t.last_emit_ms, Some(200));
    assert!(!t.decide(false, 5, 100));
}

#[test]
fn finds_bundle_roots() {
    assert_eq!(bundle_root(true, &[true, true]), Ok(BundleRoot::Top));
    assert_eq!(bundle_root(false, &[false, true, false]), Ok(BundleRoot::Subdirectory(1)));
    assert_eq!(bundle_root(false, &[false]), Err("zip is empty or has no index.toml".to_string()));
    assert_eq!(
        bundle_root(false, &[true, false, true]),
        Err("zip has multiple top-level entries and no index.toml at root".to_string())
    );
    let p = InstallProgress::Error { install_id: "i".into(), message: "m".into() };
    assert!(matches!(p, InstallProgress::Error { .. }));
}

fn asset_setup() -> (WallpaperManifest, Config) {
    let mut schema = IndexMap::new();
    schema.insert(
        "bg".to_string(),
        WallpaperConfigSchema::File { name: "bg".into(), group: "g".into(), description: None },
    );
    schema.insert(
        "photos".to_string(),
        WallpaperConfigSchema::Directory { name: "p".into(), group: "g".into(), description: None },
    );
    schema.insert(
        "title".to_string(),
        WallpaperConfigSchema::String { name: "t".into(), group: "g".into(), description: None, default: None },
    );
    let manifest = WallpaperManifest { name: "Cube".into(), config: schema };
    let mut mc = MonitorConfig { wallpaper: "cube".into(), config: StringMap::new() };
    mc.config.insert("bg".into(), Scalar::String("~/bg.png".into()));
    mc.config.insert("photos".into(), Scalar::String("/srv/photos".into()));
    mc.config.insert("title".into(), Scalar::String("t".into()));
    let mut config = Config::default();
    config.monitors.insert("1".into(), mc);
    (manifest, config)
}

#[test]
fn resolves_external_assets() {
    let (m, c) = asset_setup();
    match resolve_external_target(0, Some(&m), &c, "bg/ignored/../x") {
        Some(ExternalTarget::File { disk_path }) => assert_eq!(disk_path, "~/bg.png"),
        r => panic!("unexpected {r:?}"),
    }
    match resolve_external_target(0, Some(&m), &c, "photos/2024//a%20b.jpg") {
        Some(ExternalTarget::Directory { disk_path, segments }) => {
            assert_eq!(disk_path, "/srv/photos");
            assert_eq!(segments, vec!["2024".to_string(), "a b.jpg".to_string()]);
        }
        r => panic!("unexpected {r:?}"),
    }
    match resolve_external_target(0, Some(&m), &c, "%70hotos") {
        Some(ExternalTarget::Directory { segments, .. }) => assert!(segments.is_empty()),
        r => panic!("unexpected {r:?}"),
    }
    assert!(resolve_external_target(0, Some(&m), &c, "photos/..").is_none());
    assert!(resolve_external_target(0, Some(&m), &c, "photos/a%2Fb").is_none());
    assert!(resolve_external_target(0, Some(&m), &c, "photos/a%5Cb").is_none());
    assert!(resolve_external_target(0, Some(&m), &c, "photos/%C3").is_none());
    assert!(resolve_external_target(0, Some(&m), &c, "title").is_none());
    assert!(resolve_external_target(0, Some(&m), &c, "").is_none());
    assert!(resolve_external_target(0, Some(&m), &c, "/bg").is_none());
    assert!(resolve_external_target(1, Some(&m), &c, "bg").is_none());
    assert!(resolve_external_target(0, None, &c, "bg").is_none());
}

#[test]
fn tracker_holds_the_last_value_offered() {
    let mut t = Tracker::new(1u64);
    assert_eq!(*t.get(), 1);
    for v in [4u64, 4, 7, 2, 2] {
        t.update(v);
        assert_eq!(*t.get(), v);
    }
    assert_eq!(*t.get(), 2);
}

#[test]
fn local_zip_paths() {
    let p = local_zip_path("file:///tmp/my%20wall.zip").unwrap();
    assert_eq!(p, std::path::PathBuf::from("/tmp/my wall.zip"));
    assert_eq!(
        local_zip_path("file://elsewhere/w.zip").unwrap_err(),
        "zip_url is not a local file url: file://elsewhere/w.zip"
    );
    assert_eq!(
        local_zip_path_from("file:///w.zip", None).unwrap_err(),
        "zip_url is not a local file url: file:///w.zip"
    );
    let given = std::path::PathBuf::from("/a/b.zip");
    assert_eq!(local_zip_path_from("file:///w.zip", Some(given.clone())).unwrap(), given);
}
