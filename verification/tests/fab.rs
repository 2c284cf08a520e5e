use epic_asset_manager::fab::{
    browse_category_at, category_filter, fab_count_label, insert_sorted, listing_url, price_label,
    search_query, thumbnail_extension, thumbnail_file_name, version_name, EpicFabVersionDialog,
    FabFilter, FabLibraryBox, FabTag, FabTagGroup, ProjectVersion,
};

fn s(x: &str) -> String {
    x.to_string()
}

#[test]
fn search_texts() {
    assert_eq!(search_query(""), None);
    assert_eq!(search_query("rocks"), Some(s("rocks")));
}

#[test]
fn labels_and_links() {
    assert_eq!(fab_count_label(3), "3 assets");
    assert_eq!(fab_count_label(1), "1 assets");
    assert_eq!(listing_url("abc-123"), "https://www.fab.com/listings/abc-123");
    assert_eq!(price_label(Some(true), &Some(s("$1.00"))), "Free");
    assert_eq!(price_label(None, &Some(s("$2.50"))), "$2.50");
    assert_eq!(price_label(Some(false), &None), "View on Fab");
}

#[test]
fn thumbnail_names() {
    assert_eq!(thumbnail_extension("https://cdn/x/image.jpeg"), "jpeg");
    assert_eq!(thumbnail_extension("https://cdn/x/image.webp2"), "png");
    assert_eq!(thumbnail_extension("abc"), "abc");
    assert_eq!(thumbnail_extension("abcde"), "png");
    assert_eq!(thumbnail_extension("file."), "");
    assert_eq!(thumbnail_extension("a.éé"), "éé");
    assert_eq!(thumbnail_extension("a.ééé"), "png");
    assert_eq!(thumbnail_file_name("u/p.png", &Some(s("md5x")), "id"), "md5x.png");
    assert_eq!(thumbnail_file_name("u/p.jpg", &None, "id"), "id.jpg");
}

#[test]
fn category_filters() {
    let names = vec![s(""), s("Audio"), s("Props"), s("")];
    assert_eq!(category_filter(0, &names), None);
    assert_eq!(category_filter(u32::MAX, &names), None);
    assert_eq!(category_filter(2, &names), Some(s("Props")));
    assert_eq!(category_filter(3, &names), None);
    assert_eq!(category_filter(9, &names), None);
    assert_eq!(browse_category_at(1, &names), Some(s("Audio")));
    assert_eq!(browse_category_at(0, &names), None);
    assert_eq!(browse_category_at(7, &names), None);
}

#[test]
fn local_filter() {
    let f = FabFilter { search: Some(s("ROCK")), downloaded_only: true, favorites_only: false, category: None };
    assert!(f.matches("Big Rocks", true, false, false));
    assert!(!f.matches("Big Rocks", false, false, false));
    assert!(!f.matches("Trees", true, false, false));
    let g = FabFilter { search: None, downloaded_only: false, favorites_only: true, category: Some(s("Props")) };
    assert!(g.matches("x", false, true, true));
    assert!(!g.matches("x", false, true, false));
    assert!(!g.matches("x", false, false, true));
}

#[test]
fn sorted_names_without_repeats() {
    let mut names: Vec<String> = Vec::new();
    assert!(insert_sorted(&mut names, &s("b")));
    assert!(insert_sorted(&mut names, &s("a")));
    assert!(insert_sorted(&mut names, &s("c")));
    assert!(!insert_sorted(&mut names, &s("b")));
    assert!(insert_sorted(&mut names, &s("B")));
    assert_eq!(names, vec![s("B"), s("a"), s("b"), s("c")]);
}

#[test]
fn library_assets_and_drop_down() {
    let mut f = FabLibraryBox::new();
    assert_eq!(f.category_labels, vec![s("All")]);
    assert!(f.add_fab_asset(&s("id1"), &vec![Some(s("Props")), Some(s("")), None, Some(s("Audio"))]));
    assert!(!f.add_fab_asset(&s("id1"), &vec![Some(s("Other"))]));
    assert_eq!(f.category_names, vec![s("Audio"), s("Props")]);
    assert_eq!(f.category_labels, vec![s("All"), s("Audio"), s("Props")]);
    assert_eq!(f.category_filter_names, vec![s(""), s("Audio"), s("Props")]);
    assert!(!f.category_selected(2));
    assert!(f.add_fab_asset(&s("id2"), &vec![Some(s("Materials"))]));
    assert_eq!(f.category_filter_names, vec![s(""), s("Audio"), s("Materials"), s("Props")]);
    assert_eq!(f.selected_category, 3);
    let filter = f.current_filter(false, false).unwrap();
    assert_eq!(filter.category, Some(s("Props")));
    f.clear();
    assert_eq!(f.selected_category, 0);
    assert!(f.current_filter(false, false).is_none());
    assert!(f.current_filter(true, false).is_some());
}

#[test]
fn search_while_browsing_is_not_local() {
    let mut f = FabLibraryBox::new();
    assert!(f.search_changed("rock"));
    assert_eq!(f.search, Some(s("rock")));
    assert!(f.search_changed(""));
    assert_eq!(f.search, None);
    assert!(f.set_browse_mode(true));
    assert!(!f.search_changed("tree"));
    assert_eq!(f.search, None);
    f.search_marketplace("tree");
    assert_eq!(f.search, Some(s("tree")));
}

#[test]
fn browsing_the_store() {
    let mut f = FabLibraryBox::new();
    f.apply_fab_taxonomy(vec![FabTagGroup {
        tags: Some(vec![
            FabTag { name: Some(s("3D")), slug: Some(s("3d-models")) },
            FabTag { name: None, slug: Some(s("hidden")) },
            FabTag { name: Some(s("Audio")), slug: None },
        ]),
    }]);
    assert_eq!(f.category_labels, vec![s("All")]);
    assert!(f.set_browse_mode(true));
    assert_eq!(f.category_labels, vec![s("All"), s("3D"), s("Audio")]);
    assert_eq!(f.category_filter_names, vec![s(""), s("3d-models"), s("")]);
    assert!(f.category_selected(1));
    assert_eq!(f.browse_category, Some(s("3d-models")));
    assert!(f.add_fab_browse_result(&s("l1")));
    assert!(!f.add_fab_browse_result(&s("l1")));
    assert!(f.flush_fab_browse_results(Some(s("next"))));
    let q = f.browse_query(Some(s("next")), true, true);
    assert_eq!(q.channels, "unreal-engine");
    assert_eq!(q.count, 40);
    assert_eq!(q.sort_by, "-createdAt");
    assert_eq!(q.cursor, Some(s("next")));
    assert_eq!(q.categories, Some(s("3d-models")));
    assert_eq!(q.is_free, Some(true));
    assert_eq!(q.min_discount_percentage, Some(1));
    let q = f.browse_query(None, false, false);
    assert_eq!(q.is_free, None);
    assert_eq!(q.min_discount_percentage, None);
    assert!(f.category_selected(2));
    assert_eq!(f.browse_category, None);
    assert!(f.current_filter(true, true).is_none());
    assert!(!f.set_browse_mode(false));
    assert!(!f.flush_fab_browse_results(Some(s("c"))));
    assert_eq!(f.category_labels, vec![s("All")]);
    assert!(!f.set_browse_mode(true));
}

fn pv(id: &str, engines: &[&str], platforms: &[&str]) -> ProjectVersion {
    ProjectVersion {
        artifact_id: s(id),
        engine_versions: engines.iter().map(|e| s(e)).collect(),
        target_platforms: platforms.iter().map(|p| s(p)).collect(),
    }
}

#[test]
fn version_dialog() {
    assert_eq!(version_name(&pv("art", &["UE_5.1", "UE_5.2"], &[])), "5.1, 5.2");
    assert_eq!(version_name(&pv("art", &[], &[])), "art");
    let mut d = EpicFabVersionDialog::new();
    d.set_fab_asset(&vec![pv("a1", &["UE_5.3"], &["Windows", "Linux"]), pv("a2", &[], &[])]);
    assert_eq!(d.version_names, vec![s("5.3"), s("a2")]);
    assert_eq!(d.platforms_for(0), Some(vec![s("Windows"), s("Linux")]));
    assert_eq!(d.platforms_for(5), None);
    assert_eq!(d.selected_artifact_id(1), Some(s("a2")));
    assert_eq!(d.selected_platform(0, 1), Some(s("Linux")));
    assert_eq!(d.selected_platform(1, 0), None);
    assert_eq!(d.download_choice(0, 1), Some((s("a1"), s("Linux"))));
    assert_eq!(d.download_choice(1, 0), Some((s("a2"), s("Windows"))));
    assert_eq!(d.download_choice(2, 0), None);
}
