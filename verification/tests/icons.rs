use ashell::xdg_icons::{
    add_desktop_file, application_dirs, desktop_file_fits, find_similar_icon, icon_dirs, icon_entry, icon_from_path,
    icon_probes, normalize_icon_name, prefix_match_icon, strip_icon_separators, IconEntry, ImageSource, ProbeKind,
    XdgIcon,
};

fn entries(names: &[&str]) -> Vec<IconEntry> {
    names.iter().map(|n| icon_entry(n)).collect()
}

#[test]
fn icon_names_are_normalized() {
    assert_eq!(normalize_icon_name("firefox2"), "firefox2");
    assert_eq!(normalize_icon_name("Org.Gnome.Nautilus"), "orggnomenautilus");
    assert_eq!(normalize_icon_name("code-oss"), "codeoss");
    assert_eq!(normalize_icon_name("\u{212A}ate"), "kate");
    assert_eq!(normalize_icon_name("Über"), "ber");
    assert_eq!(normalize_icon_name(""), "");
    assert_eq!(strip_icon_separators("a-b_c.d"), "abc.d");
}

#[test]
fn similar_icons_contain_or_lie_within_the_name() {
    let es = entries(&["firefox", "firefox-esr", "chromium", "org.mozilla.firefox", "fire"]);
    assert_eq!(
        find_similar_icon("Firefox", &es),
        Some(vec!["firefox-esr".to_string(), "org.mozilla.firefox".to_string(), "fire".to_string()])
    );
    assert_eq!(find_similar_icon("gimp", &es), None);
    let many = entries(&["ab1", "ab2", "ab3", "ab4", "ab5", "ab6", "ab7"]);
    assert_eq!(find_similar_icon("ab", &many).map(|v| v.len()), Some(5));
    assert_eq!(find_similar_icon("a-b", &many).map(|v| v[0].clone()), Some("ab1".to_string()));
}

#[test]
fn prefix_matching_narrows_letter_by_letter() {
    let es = entries(&["kate", "kdenlive", "krita"]);
    assert_eq!(prefix_match_icon("Kate", &es), Some("kate".to_string()));
    assert_eq!(prefix_match_icon("kr", &es), Some("krita".to_string()));
    assert_eq!(prefix_match_icon("k", &es), Some("kate".to_string()));
    assert_eq!(prefix_match_icon("kx", &es), None);
    assert_eq!(prefix_match_icon("", &es), Some("kate".to_string()));
    assert_eq!(prefix_match_icon("kate", &Vec::new()), None);
}

#[test]
fn desktop_files_index_their_icon_by_class_and_stem() {
    let mut index = Vec::new();
    add_desktop_file(
        &mut index,
        "org.gnome.Nautilus",
        "[Desktop Entry]\nName=Files\nIcon= org.gnome.Nautilus \nStartupWMClass=Nautilus\n",
    );
    assert_eq!(
        index,
        vec![
            ("nautilus".to_string(), "org.gnome.Nautilus".to_string()),
            ("orggnomenautilus".to_string(), "org.gnome.Nautilus".to_string()),
            ("gnomenautilus".to_string(), "org.gnome.Nautilus".to_string()),
        ]
    );
    add_desktop_file(&mut index, "nautilus", "Icon=other\n");
    assert_eq!(index.len(), 3);
    add_desktop_file(&mut index, "noicon", "Name=x\n");
    assert_eq!(index.len(), 3);
    assert!(desktop_file_fits(65536));
    assert!(!desktop_file_fits(65537));
}

#[test]
fn lookups_probe_in_order() {
    let es = entries(&["firefox-esr", "foot"]);
    let index = vec![("firefox".to_string(), "/opt/ff.png".to_string())];
    let probes = icon_probes("Firefox", &es, &index);
    assert_eq!(
        probes,
        vec![
            (ProbeKind::Theme, "Firefox".to_string()),
            (ProbeKind::Theme, "firefox-esr".to_string()),
            (ProbeKind::File, "/opt/ff.png".to_string()),
            (ProbeKind::Theme, "firefox-esr".to_string()),
        ]
    );
    assert!(icon_probes("", &es, &index).is_empty());
    match icon_from_path("/usr/share/icons/a.svg".to_string()) {
        XdgIcon::Svg(p) => assert_eq!(p, "/usr/share/icons/a.svg"),
        _ => panic!("expected an svg"),
    }
    match icon_from_path("/usr/share/icons/.svg".to_string()) {
        XdgIcon::Image(ImageSource::Path(p)) => assert_eq!(p, "/usr/share/icons/.svg"),
        _ => panic!("expected an image"),
    }
}

#[test]
fn directories_are_listed_from_the_environment() {
    assert_eq!(
        application_dirs(&Some("/x/".to_string()), &Some("/home/u".to_string()), &None),
        vec![
            "/x/applications".to_string(),
            "/home/u/.local/share/applications".to_string(),
            "/usr/local/share/applications".to_string(),
            "/usr/share/applications".to_string(),
            "/usr/local/share/applications".to_string(),
            "/usr/share/applications".to_string(),
        ]
    );
    assert_eq!(
        icon_dirs(&None, &None, &Some("a::/b".to_string())),
        vec![
            "a/icons".to_string(),
            "a/pixmaps".to_string(),
            "/b/icons".to_string(),
            "/b/pixmaps".to_string(),
            "/usr/share/icons".to_string(),
            "/usr/share/pixmaps".to_string(),
        ]
    );
}

#[test]
fn normalized_names_are_lower_alnum_and_stay_put() {
    for name in ["Google-Chrome", "Org.Gnome.Nautilus", "\u{212A}ate", "firefox2", "ÉCRAN_Setup"] {
        let once = normalize_icon_name(name);
        assert!(once.chars().all(|c| c.is_ascii_lowercase() || c.is_ascii_digit()));
        assert_eq!(normalize_icon_name(&once), once);
    }
    assert_eq!(normalize_icon_name("Google-Chrome"), "googlechrome");
}
