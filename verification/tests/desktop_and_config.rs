use indexmap::IndexMap;
use underpane::config::{home_relative_part, Config, MonitorConfig, Scalar, WallpaperConfig};
use underpane::desktop::{
    monitor_index_from_label, monitor_label, monitor_page_config, plan_window_sync, proxy_path,
    require_config_window, SlotAction,
};
use underpane::string_map::StringMap;
use underpane::wallpapers::{WallpaperCatalog, WallpaperConfigSchema, WallpaperManifest};

fn monitor(wallpaper: &str) -> MonitorConfig {
    MonitorConfig { wallpaper: wallpaper.to_string(), config: StringMap::new() }
}

fn scalar_str(v: Option<&Scalar>) -> Option<&str> {
    match v {
        Some(Scalar::String(s)) => Some(s.as_str()),
        _ => None,
    }
}

#[test]
fn monitor_config_falls_back_to_default() {
    let mut c = Config::default();
    assert!(c.wallpapers_directories.is_empty());
    assert!(c.get_monitor_config(0).is_none());
    c.monitors.insert("2".to_string(), monitor("video"));
    assert!(c.get_monitor_config(0).is_none());
    assert_eq!(c.get_monitor_config(1).unwrap().wallpaper, "video");
    c.monitors.insert("default".to_string(), monitor("cube"));
    assert_eq!(c.get_monitor_config(0).unwrap().wallpaper, "cube");
    assert_eq!(c.get_monitor_config(1).unwrap().wallpaper, "video");
    assert_eq!(c.get_monitor_config(9).unwrap().wallpaper, "cube");
}

#[test]
fn string_map_replaces_and_keeps_order() {
    let mut m: StringMap<u32> = StringMap::new();
    m.insert("b".into(), 1);
    m.insert("a".into(), 2);
    m.insert("b".into(), 3);
    assert_eq!(m.len(), 2);
    assert_eq!(m.get("b"), Some(&3));
    assert_eq!(m.entries()[0].0, "b");
    m.insert_if_absent("a".into(), 9);
    m.insert_if_absent("c".into(), 4);
    assert_eq!(m.get("a"), Some(&2));
    assert_eq!(m.get("c"), Some(&4));
    assert!(m.contains_key("c"));
    assert!(!m.contains_key("d"));
    let copy = m.clone();
    assert_eq!(copy.entries(), m.entries());
}

#[test]
fn tilde_paths() {
    assert_eq!(home_relative_part("~/Wallpapers"), Some("Wallpapers"));
    assert_eq!(home_relative_part("~"), None);
    assert_eq!(home_relative_part("/srv/w"), None);
    assert_eq!(home_relative_part("~user/w"), None);
}

#[test]
fn window_labels() {
    assert_eq!(monitor_label(0), "monitor-1");
    assert_eq!(monitor_label(11), "monitor-12");
    assert_eq!(monitor_index_from_label("monitor-3"), Ok(2));
    assert_eq!(monitor_index_from_label("monitor-0"), Err("invalid monitor index".to_string()));
    assert_eq!(monitor_index_from_label("config"), Err("not a monitor window".to_string()));
    assert_eq!(monitor_index_from_label("monitor-x"), Err("not a monitor window".to_string()));
    for i in [0usize, 1, 7, 99] {
        assert_eq!(monitor_index_from_label(&monitor_label(i)), Ok(i));
    }
    assert_eq!(require_config_window("config"), Ok(()));
    assert_eq!(require_config_window("monitor-1"), Err("not the config window".to_string()));
}

#[test]
fn plans_window_slots() {
    let mut c = Config::default();
    c.monitors.insert("1".to_string(), monitor("cube"));
    c.monitors.insert("3".to_string(), monitor("video"));
    let plan = plan_window_sync(&c, 4, &[true, true, false]);
    assert_eq!(plan, vec![SlotAction::Keep, SlotAction::Clear, SlotAction::Create, SlotAction::Clear]);
    c.monitors.insert("default".to_string(), monitor("cube"));
    let plan = plan_window_sync(&c, 2, &[]);
    assert_eq!(plan, vec![SlotAction::Create, SlotAction::Create]);
    assert!(plan_window_sync(&c, 0, &[true]).is_empty());
}

fn manifest() -> WallpaperManifest {
    let mut config = IndexMap::new();
    config.insert(
        "show_clock".to_string(),
        WallpaperConfigSchema::Bool {
            name: "Show Clock".into(),
            group: "General".into(),
            description: None,
            default: Some(true),
        },
    );
    config.insert(
        "title".to_string(),
        WallpaperConfigSchema::String {
            name: "Title".into(),
            group: "General".into(),
            description: None,
            default: Some("hello".into()),
        },
    );
    config.insert(
        "speed".to_string(),
        WallpaperConfigSchema::Number {
            name: "Speed".into(),
            group: "Motion".into(),
            description: None,
            default: Some(1.5f64.to_bits()),
            min: None,
            max: None,
            step: None,
        },
    );
    config.insert(
        "tint".to_string(),
        WallpaperConfigSchema::Color {
            name: "Tint".into(),
            group: "Look".into(),
            description: None,
            default: Some("#ff0000".into()),
            alpha: false,
        },
    );
    config.insert(
        "bg".to_string(),
        WallpaperConfigSchema::File { name: "Background".into(), group: "Look".into(), description: None },
    );
    config.insert(
        "empty".to_string(),
        WallpaperConfigSchema::File { name: "Unset".into(), group: "Look".into(), description: None },
    );
    config.insert(
        "nodefault".to_string(),
        WallpaperConfigSchema::Bool { name: "X".into(), group: "G".into(), description: None, default: None },
    );
    WallpaperManifest { name: "Cube".to_string(), config }
}

#[test]
fn default_config_lists_declared_defaults() {
    let d: WallpaperConfig = manifest().default_config();
    assert_eq!(d.len(), 4);
    assert!(matches!(d.get("show_clock"), Some(Scalar::Bool(true))));
    assert_eq!(scalar_str(d.get("title")), Some("hello"));
    assert!(matches!(d.get("speed"), Some(Scalar::Number(b)) if f64::from_bits(*b) == 1.5));
    assert_eq!(scalar_str(d.get("tint")), Some("#ff0000"));
    assert!(d.get("nodefault").is_none());
    assert!(d.get("bg").is_none());
}

#[test]
fn page_config_merges_defaults_and_rewrites_files() {
    let mut mc = monitor("cube");
    mc.config.insert("title".into(), Scalar::String("mine".into()));
    mc.config.insert("bg".into(), Scalar::String("/home/u/pics/cat photo.png".into()));
    mc.config.insert("empty".into(), Scalar::String(String::new()));
    mc.config.insert("extra".into(), Scalar::Bool(false));
    let m = manifest();
    let r = monitor_page_config(mc.clone(), Some(&m));
    assert_eq!(r.wallpaper, "cube");
    assert_eq!(scalar_str(r.config.get("title")), Some("mine"));
    assert!(matches!(r.config.get("show_clock"), Some(Scalar::Bool(true))));
    assert_eq!(scalar_str(r.config.get("tint")), Some("#ff0000"));
    assert_eq!(scalar_str(r.config.get("bg")), Some("/.underpane/external-file/bg/cat%20photo.png"));
    assert_eq!(scalar_str(r.config.get("empty")), Some(""));
    assert!(matches!(r.config.get("extra"), Some(Scalar::Bool(false))));
    assert_eq!(r.config.len(), 7);
    let unchanged = monitor_page_config(mc, None);
    assert_eq!(scalar_str(unchanged.config.get("bg")), Some("/home/u/pics/cat photo.png"));
    assert_eq!(unchanged.config.len(), 4);
}

#[test]
fn proxy_paths() {
    assert_eq!(proxy_path("bg", Some("a b.png")), "/.underpane/external-file/bg/a%20b.png");
    assert_eq!(proxy_path("bg", None), "/.underpane/external-file/bg/file");
}

fn named(name: &str) -> WallpaperManifest {
    WallpaperManifest { name: name.to_string(), config: IndexMap::new() }
}

#[test]
fn catalog_keeps_first_found_valid_directories() {
    let mut catalog = WallpaperCatalog::new();
    assert!(catalog.wants("cube", true));
    assert!(!catalog.wants("cube", false));
    assert!(!catalog.wants("-cube", true));
    assert!(!catalog.wants("my cube", true));
    catalog.offer("cube".to_string(), named("First"));
    assert!(!catalog.wants("cube", true));
    catalog.offer("cube".to_string(), named("Second"));
    catalog.offer("bad id".to_string(), named("Bad"));
    assert!(catalog.wants("video", true));
    catalog.offer("video".to_string(), named("Video"));
    let entries = catalog.into_entries();
    assert_eq!(entries.len(), 2);
    assert_eq!(entries[0].0, "cube");
    assert_eq!(entries[0].1.name, "First");
    assert_eq!(entries[1].0, "video");
    assert_eq!(entries[1].1.name, "Video");
}

#[test]
fn default_config_of_a_single_bool_input() {
    let mut config = IndexMap::new();
    config.insert(
        "show_clock".to_string(),
        WallpaperConfigSchema::Bool {
            name: "Show Clock".to_string(),
            group: "General".to_string(),
            description: None,
            default: Some(true),
        },
    );
    let m = WallpaperManifest { name: "My Wallpaper".to_string(), config };
    let d = m.default_config();
    assert_eq!(d.len(), 1);
    assert!(matches!(d.get("show_clock"), Some(Scalar::Bool(true))));
}

#[test]
fn page_config_names_files_by_their_last_piece() {
    let mut mc = monitor("cube");
    mc.config.insert("bg".into(), Scalar::String("pics/sub/../x.y.jpeg".into()));
    let m = manifest();
    let r = monitor_page_config(mc, Some(&m));
    assert_eq!(scalar_str(r.config.get("bg")), Some("/.underpane/external-file/bg/x.y.jpeg"));
    let mut mc = monitor("cube");
    mc.config.insert("bg".into(), Scalar::String("pics/..".into()));
    let r = monitor_page_config(mc, Some(&m));
    assert_eq!(scalar_str(r.config.get("bg")), Some("/.underpane/external-file/bg/file"));
}
