use underpane::config::is_valid_wallpaper_id;

#[test]
fn valid_wallpaper_ids() {
    for name in ["cube", "video", "synthwave-canyon", "a1b2", "a-b-c-9"] {
        assert!(is_valid_wallpaper_id(name), "expected valid: {name}");
    }
}

#[test]
fn rejects_empty_and_boundary_hyphens() {
    for name in ["", "-", "-foo", "foo-", "-foo-"] {
        assert!(!is_valid_wallpaper_id(name), "expected invalid: {name:?}");
    }
}

#[test]
fn rejects_disallowed_characters() {
    for name in [
        "Foo",
        "FOO",
        "foo_bar",
        "foo bar",
        "foo.bar",
        "foo/bar",
        "foo!",
        "ünïcödé",
    ] {
        assert!(!is_valid_wallpaper_id(name), "expected invalid: {name:?}");
    }
}

#[test]
fn rejects_ids_of_sixty_four_bytes_or_more() {
    let long63 = "a".repeat(63);
    let long64 = "a".repeat(64);
    assert!(is_valid_wallpaper_id(&long63));
    assert!(!is_valid_wallpaper_id(&long64));
}
