use ashell::tray::dbus::{best_icon_pixmap, split_service_name, Icon, StatusNotifierWatcher};
use ashell::tray::{pixmap_to_icon, ItemStatus, TrayIcon};
use ashell::xdg_icons::ImageSource;

fn icon(width: i32, height: i32) -> Icon {
    Icon {
        width,
        height,
        bytes: vec![0u8; (width.max(0) as usize) * (height.max(0) as usize) * 4],
    }
}

fn valid_pixmap(width: i32, height: i32) -> Icon {
    Icon {
        width,
        height,
        bytes: vec![0u8; (width as usize) * (height as usize) * 4],
    }
}

#[test]
fn protocol_version_is_one() {
    let watcher = StatusNotifierWatcher::new();
    assert_eq!(watcher.protocol_version(), 1);
}

#[test]
fn host_is_reported_registered() {
    let watcher = StatusNotifierWatcher::new();
    assert!(watcher.is_status_notifier_host_registered());
}

#[test]
fn best_icon_pixmap_picks_largest_by_pixel_count() {
    let small = icon(16, 16);
    let large = icon(48, 48);
    let medium = icon(24, 24);

    let icons = vec![small, large, medium];
    let best = best_icon_pixmap(&icons).expect("expected a best icon");

    assert_eq!(best.width, 48);
    assert_eq!(best.height, 48);
    assert_eq!(best.pixel_count(), 48 * 48);
}

#[test]
fn best_icon_pixmap_ignores_zero_dimension_entries() {
    let zero = icon(0, 32);
    let valid = icon(16, 16);

    let icons = vec![zero, valid];
    let best = best_icon_pixmap(&icons).expect("expected a best icon");

    assert_eq!(best.width, 16);
    assert_eq!(best.height, 16);
    assert_eq!(best.pixel_count(), 16 * 16);
}

#[test]
fn best_icon_pixmap_returns_none_for_empty_set() {
    assert!(best_icon_pixmap(&[]).is_none());
}

#[test]
fn pixel_count_saturates_on_overflow() {
    let huge = Icon {
        width: i32::MAX,
        height: i32::MAX,
        bytes: Vec::new(),
    };
    assert_eq!(huge.pixel_count(), 0);
}

#[test]
fn dbus_split_service_name_splits_unique_sender_from_path() {
    let (sender, path) = split_service_name(":1.131/StatusNotifierItem");
    assert_eq!(sender, ":1.131");
    assert_eq!(path, "/StatusNotifierItem");
}

#[test]
fn split_service_name_splits_at_first_slash() {
    let (sender, path) = split_service_name(":1.283/org/blueman/sni");
    assert_eq!(sender, ":1.283");
    assert_eq!(path, "/org/blueman/sni");
}

#[test]
fn split_service_name_defaults_path_for_bare_well_known_name() {
    let (sender, path) = split_service_name("org.kde.StatusNotifierItem-123");
    assert_eq!(sender, "org.kde.StatusNotifierItem-123");
    assert_eq!(path, "/StatusNotifierItem");
}

#[test]
fn dbus_split_service_name_handles_bare_path() {
    let (sender, path) = split_service_name("/StatusNotifierItem");
    assert_eq!(sender, "");
    assert_eq!(path, "/StatusNotifierItem");
}

#[test]
fn item_status_parses_active() {
    assert_eq!(ItemStatus::from("Active"), ItemStatus::Active);
}

#[test]
fn item_status_parses_needs_attention() {
    assert_eq!(ItemStatus::from("NeedsAttention"), ItemStatus::NeedsAttention);
}

#[test]
fn item_status_defaults_passive_for_unknown_and_empty() {
    assert_eq!(ItemStatus::from("Passive"), ItemStatus::Passive);
    assert_eq!(ItemStatus::from(""), ItemStatus::Passive);
    assert_eq!(ItemStatus::from("garbage"), ItemStatus::Passive);
}

#[test]
fn item_status_default_is_passive() {
    assert_eq!(ItemStatus::default(), ItemStatus::Passive);
}

#[test]
fn pixmap_to_icon_accepts_valid_pixmap() {
    let icon = valid_pixmap(24, 24);
    let result = pixmap_to_icon(vec![icon]);
    assert!(result.is_some());
}

#[test]
fn pixmap_to_icon_rejects_zero_dimension_pixmap() {
    let icon = Icon {
        width: 0,
        height: 24,
        bytes: vec![],
    };
    assert!(pixmap_to_icon(vec![icon]).is_none());
}

#[test]
fn pixmap_to_icon_rejects_byte_mismatch() {
    let icon = Icon {
        width: 24,
        height: 24,
        bytes: vec![0u8; 100],
    };
    assert!(pixmap_to_icon(vec![icon]).is_none());
}

#[test]
fn pixmap_to_icon_picks_largest_pixmap() {
    let small = valid_pixmap(16, 16);
    let large = valid_pixmap(48, 48);

    let result = pixmap_to_icon(vec![small, large]).expect("expected an icon");

    assert!(matches!(result, TrayIcon::Image(_)));
}

#[test]
fn pixmap_to_icon_returns_none_for_empty_vec() {
    assert!(pixmap_to_icon(Vec::new()).is_none());
}

#[test]
fn mod_split_service_name_splits_unique_sender_from_path() {
    let (sender, path) = ashell::tray::split_service_name(":1.131/StatusNotifierItem");
    assert_eq!(sender, ":1.131");
    assert_eq!(path, "/StatusNotifierItem");
}

#[test]
fn split_service_name_defaults_path_for_bare_name() {
    let (sender, path) = ashell::tray::split_service_name("org.kde.StatusNotifierItem-123");
    assert_eq!(sender, "org.kde.StatusNotifierItem-123");
    assert_eq!(path, "/StatusNotifierItem");
}

#[test]
fn mod_split_service_name_handles_bare_path() {
    let (sender, path) = ashell::tray::split_service_name("/StatusNotifierItem");
    assert_eq!(sender, "");
    assert_eq!(path, "/StatusNotifierItem");
}

#[test]
fn pixmap_to_icon_rotates_argb_to_rgba_and_prefers_later_equal_size() {
    let first = Icon { width: 1, height: 1, bytes: vec![1, 2, 3, 4] };
    let second = Icon { width: 1, height: 1, bytes: vec![9, 8, 7, 6] };
    match pixmap_to_icon(vec![first, second]) {
        Some(TrayIcon::Image(ImageSource::Rgba { width, height, pixels })) => {
            assert_eq!((width, height), (1, 1));
            assert_eq!(pixels, vec![8, 7, 6, 9]);
        }
        _ => panic!("expected an RGBA image"),
    }
}

#[test]
fn watcher_prefixes_paths_with_the_sender_and_ignores_repeats() {
    let mut watcher = StatusNotifierWatcher::new();
    assert_eq!(
        watcher.register_status_notifier_item("/StatusNotifierItem", ":1.5"),
        Some(":1.5/StatusNotifierItem".to_string())
    );
    assert_eq!(watcher.register_status_notifier_item("/Other", ":1.5"), None);
    assert_eq!(
        watcher.register_status_notifier_item("org.kde.Item-1", ":1.6"),
        Some("org.kde.Item-1".to_string())
    );
    assert_eq!(
        watcher.registered_status_notifier_items(),
        vec![":1.5/StatusNotifierItem".to_string(), "org.kde.Item-1".to_string()]
    );
    assert_eq!(watcher.remove_sender(":1.5"), Some(":1.5/StatusNotifierItem".to_string()));
    assert_eq!(watcher.remove_sender(":1.5"), None);
    assert!(watcher.register_status_notifier_host(":1.9".to_string()));
    assert!(!watcher.register_status_notifier_host(":1.10".to_string()));
}
