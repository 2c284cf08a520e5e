use epic_asset_manager::engines::{
    association_text, can_be_refreshed, engines_refresh_delay, refresh_delay_from, desc_order_of, docker_type_selected,
    docker_version_selected, engine_binary_name, engine_order, engine_order_of,
    epic_install_dir_name, epic_version_label, filter_versions, group_docker_tags, install_entry,
    last_match_label, first_match_group, sort_versions_desc, version_desc_order, version_text, versions_by_label,
    engine_is_stale, install_check, EpicEnginesBox, InstallCheck, Order, UnrealVersion,
};

fn version(major: i64, minor: i64, patch: i64) -> UnrealVersion {
    UnrealVersion {
        major_version: major,
        minor_version: minor,
        patch_version: patch,
        changelist: 0,
        compatible_changelist: 0,
        is_licensee_version: 0,
        is_promoted_build: 0,
        branch_name: "++UE5+Release-5.1".to_string(),
    }
}

#[test]
fn install_list_entries() {
    let (g, p) = install_entry("{ABC-123}", "/opt/UE_5.1/");
    assert_eq!(g, "ABC-123");
    assert_eq!(p, "/opt/UE_5.1");
    let (g, p) = install_entry("plain", "/opt/x");
    assert_eq!(g, "plain");
    assert_eq!(p, "/opt/x");
}

#[test]
fn version_texts() {
    assert_eq!(version_text(&version(5, 1, 0)), "5.1.0");
    assert_eq!(association_text(&version(4, 27, 2)), "4.27");
    assert_eq!(version_text(&version(-1, -1, -1)), "-1.-1.-1");
}

#[test]
fn engines_by_guid_and_association() {
    let mut b = EpicEnginesBox::new();
    assert!(b.add_engine("g1".to_string(), "/opt/a".to_string(), version(5, 1, 0)));
    assert!(!b.add_engine("g2".to_string(), "/opt/a".to_string(), version(5, 2, 0)));
    let e = b.engine_from_assoociation(&"g1".to_string()).unwrap();
    assert_eq!(e.path, "/opt/a");
    let e = b.engine_from_assoociation(&"5.2".to_string()).unwrap();
    assert_eq!(e.guid.as_deref(), Some("g2"));
    assert!(b.engine_from_assoociation(&"4.27".to_string()).is_none());
    b.remove_engine(&"g1".to_string());
    assert!(b.engine_from_assoociation(&"g1".to_string()).is_none());
}

#[test]
fn engine_list_order() {
    let a = Some("5.1.0".to_string());
    let b = Some("5.2.0".to_string());
    assert_eq!(engine_order(false, &a, true, &b), Order::Greater);
    assert_eq!(engine_order(true, &a, false, &b), Order::Less);
    assert_eq!(engine_order(true, &a, true, &b), Order::Greater);
    assert_eq!(engine_order(true, &b, true, &a), Order::Less);
    assert_eq!(engine_order(true, &a, true, &a), Order::Equal);
    assert_eq!(engine_order_of(None), Order::Less);
    assert_eq!(engine_order_of(Some(-1)), Order::Greater);
    assert_eq!(engine_order_of(Some(1)), Order::Less);
}

#[test]
fn newest_version_first() {
    assert_eq!(version_desc_order("5.2.0", "5.1.0"), Order::Less);
    assert_eq!(version_desc_order("5.1.0", "5.2.0"), Order::Greater);
    assert_eq!(version_desc_order("5.1.0", "5.1.0"), Order::Equal);
    assert_eq!(desc_order_of(None), Order::Equal);
    assert_eq!(desc_order_of(Some(-1)), Order::Less);
}

#[test]
fn archive_labels() {
    assert_eq!(
        epic_version_label("Linux_Unreal_Engine_5.1.0.zip").as_deref(),
        Some("5.1.0")
    );
    assert_eq!(
        epic_version_label("Linux_Unreal_Engine_5.2.0_preview-1.zip").as_deref(),
        Some("5.2.0 (preview-1)")
    );
    assert_eq!(epic_version_label("something.zip"), None);
    assert_eq!(
        epic_install_dir_name("Linux_Unreal_Engine_5.2.0_preview-1.zip").as_deref(),
        Some("5.2.0_preview-1")
    );
    assert_eq!(epic_install_dir_name("nothing"), None);
}

#[test]
fn labels_from_captures() {
    let caps = vec![
        vec![Some("x".to_string()), Some("1.2.3".to_string()), None],
        vec![Some("y".to_string()), None, None],
    ];
    assert_eq!(last_match_label(&caps).as_deref(), Some("1.2.3"));
    assert_eq!(first_match_group(&caps).as_deref(), Some("1.2.3"));
    assert_eq!(first_match_group(&vec![]), None);
}

#[test]
fn archives_by_version_name() {
    let names = vec![
        "Linux_Unreal_Engine_5.1.0.zip".to_string(),
        "Linux_Unreal_Engine_5.1.0_preview-2.zip".to_string(),
        "Linux_Unreal_Engine_5.1.0.zip".to_string(),
    ];
    let m = versions_by_label(&names);
    assert_eq!(m.get(&"5.1.0".to_string()), Some(&2));
    assert_eq!(m.get(&"5.1.0 (preview-2)".to_string()), Some(&1));
    assert_eq!(filter_versions(&names, &"Linux_Unreal_Engine_5.1.0.zip".to_string()), Some(0));
    assert_eq!(filter_versions(&names, &"none".to_string()), None);
}

#[test]
fn docker_tags_by_version() {
    let tags = vec![
        "dev-5.1.0".to_string(),
        "dev-slim-5.1.0".to_string(),
        "runtime".to_string(),
        "dev-5.2.1".to_string(),
    ];
    let g = group_docker_tags(&tags);
    assert_eq!(
        g.get(&"5.1.0".to_string()),
        Some(&vec!["dev-5.1.0".to_string(), "dev-slim-5.1.0".to_string()])
    );
    assert_eq!(g.get(&"5.2.1".to_string()), Some(&vec!["dev-5.2.1".to_string()]));
    assert_eq!(g.len(), 2);
}

#[test]
fn docker_image_choice() {
    let labels = vec!["dev-slim-5.1.0".to_string(), "dev-5.1.0".to_string()];
    assert_eq!(docker_type_selected(&labels, true).as_deref(), Some("dev-5.1.0"));
    assert_eq!(docker_type_selected(&labels, false).as_deref(), Some("dev-slim-5.1.0"));
    let (any_slim, full) = docker_version_selected(&labels);
    assert!(any_slim);
    assert_eq!(full.as_deref(), Some("dev-5.1.0"));
    let (any_slim, full) = docker_version_selected(&vec!["dev-slim-5.1.0".to_string()]);
    assert!(any_slim);
    assert_eq!(full, None);
}

#[test]
fn editor_binary_and_refresh() {
    assert_eq!(engine_binary_name(true, true).as_deref(), Some("UE4Editor"));
    assert_eq!(engine_binary_name(false, true).as_deref(), Some("UnrealEditor"));
    assert_eq!(engine_binary_name(false, false), None);
    assert!(can_be_refreshed(0, 0));
    assert!(!can_be_refreshed(1, 0));
}

#[test]
fn version_names_newest_first() {
    let v = vec!["5.0.3".to_string(), "5.2.0 (preview-1)".to_string(), "5.1.1".to_string()];
    let sorted = sort_versions_desc(&v);
    assert_eq!(sorted[2], "5.0.3");
    assert_eq!(sorted.len(), 3);
    assert!(sorted.contains(&"5.1.1".to_string()));
}

#[test]
fn refresh_delays() {
    assert_eq!(refresh_delay_from(7, 5), 900 + 2 * 60);
    assert_eq!(refresh_delay_from(0, 15), 900);
    for _ in 0..20 {
        let d = engines_refresh_delay();
        assert!((900..1200).contains(&d) && d % 60 == 0);
    }
}

#[test]
fn docker_install_space() {
    assert_eq!(install_check(false, Some(10), 1), InstallCheck::MissingDirectory);
    assert_eq!(install_check(true, Some(10), 11), InstallCheck::NoSpace);
    assert_eq!(install_check(true, None, 1), InstallCheck::NoSpace);
    assert_eq!(install_check(true, Some(10), 10), InstallCheck::Fits);
}

#[test]
fn stale_engines() {
    assert!(!engine_is_stale(true, true, true));
    assert!(engine_is_stale(false, true, true));
    assert!(engine_is_stale(true, false, true));
    assert!(engine_is_stale(true, true, false));
}
