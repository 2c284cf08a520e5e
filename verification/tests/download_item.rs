use epic_asset_manager::download_item::{
    CancelRequest, EpicDownloadItem, ItemType, PauseRequest, PostDownloadAction,
};

fn asset_item() -> EpicDownloadItem {
    let mut it = EpicDownloadItem::new();
    it.item_type = ItemType::Asset;
    it.release = Some("rel".to_string());
    it
}

#[test]
fn files_finish_at_the_last_one() {
    let mut it = asset_item();
    it.set_total_size(300);
    it.set_total_files(3);
    it.add_downloaded_size_at(100, 0);
    assert!(!it.file_processed());
    assert!(!it.file_processed());
    assert!(it.file_processed());
    assert_eq!(it.downloaded_size(), 300);
    assert_eq!(it.extracted_files, 3);
    assert!(it.speed_queue.is_empty());
}

#[test]
fn paused_item_ignores_progress() {
    let mut it = asset_item();
    it.set_total_files(1);
    let _ = it.pause();
    it.add_downloaded_size_at(100, 5);
    assert_eq!(it.downloaded_size(), 0);
    assert!(!it.file_processed());
    assert_eq!(it.extracted_files, 0);
}

#[test]
fn progress_enables_actions() {
    let mut it = asset_item();
    it.add_downloaded_size_at(10, 1);
    assert!(it.cancel_enabled);
    assert!(it.pause_enabled);
    let mut epic = EpicDownloadItem::new();
    epic.item_type = ItemType::Epic;
    epic.pause_enabled = true;
    epic.add_downloaded_size_at(10, 1);
    assert!(epic.cancel_enabled);
    assert!(!epic.pause_enabled);
}

#[test]
fn pause_toggles_between_pause_and_resume() {
    let mut it = asset_item();
    match it.pause() {
        PauseRequest::PauseAsset(r) => assert_eq!(r, "rel"),
        other => panic!("unexpected {:?}", other),
    }
    assert!(it.paused);
    assert!(!it.pause_enabled);
    match it.pause() {
        PauseRequest::ResumeAsset(r) => assert_eq!(r, "rel"),
        other => panic!("unexpected {:?}", other),
    }
    assert!(!it.paused);
    it.pause_cooldown_elapsed();
    assert!(it.pause_enabled);
}

#[test]
fn pause_of_entry_without_version_asks_nothing() {
    let mut it = EpicDownloadItem::new();
    it.item_type = ItemType::Docker;
    assert!(matches!(it.pause(), PauseRequest::Nothing));
    it.version = Some("5.1".to_string());
    assert!(matches!(it.pause(), PauseRequest::ResumeDocker(v) if v == "5.1"));
}

#[test]
fn cancel_disables_actions() {
    let mut it = asset_item();
    it.cancel_enabled = true;
    it.pause_enabled = true;
    assert!(matches!(it.cancel(), CancelRequest::Asset(r) if r == "rel"));
    assert!(it.canceled);
    assert!(!it.cancel_enabled && !it.pause_enabled);
    let mut epic = EpicDownloadItem::new();
    epic.item_type = ItemType::Epic;
    epic.version = Some("5.2".to_string());
    assert!(matches!(epic.cancel(), CancelRequest::Epic(v) if v == "5.2"));
}

#[test]
fn adding_actions_twice_adds_nothing_more() {
    let mut it = EpicDownloadItem::new();
    let acts = vec![
        PostDownloadAction::Copy("/a".to_string(), false),
        PostDownloadAction::NoVault,
    ];
    it.add_actions(&acts);
    assert_eq!(it.actions().len(), 2);
    it.add_actions(&acts);
    assert_eq!(it.actions().len(), 2);
    it.add_actions(&vec![PostDownloadAction::Copy("/a".to_string(), true)]);
    let all = it.actions();
    assert_eq!(all.len(), 3);
    assert!(matches!(&all[2], PostDownloadAction::Copy(p, true) if p == "/a"));
}

#[test]
fn speed_over_two_seconds() {
    let mut it = asset_item();
    it.add_downloaded_size_at(1_000_000, 0);
    it.add_downloaded_size_at(1_000_000, 2_000_000_000);
    let speed = it.speed_update();
    assert_eq!(speed, Some(1_000_000));
    assert_eq!(it.speed.as_deref(), Some("Downloading - 1.0 MB/s"));
}

#[test]
fn speed_needs_more_than_a_second() {
    let mut it = asset_item();
    it.add_downloaded_size_at(10, 0);
    it.add_downloaded_size_at(10, 500_000_000);
    assert_eq!(it.speed_update(), None);
    assert_eq!(it.speed, None);
}

#[test]
fn halted_item_shows_paused_speed() {
    let mut it = asset_item();
    let _ = it.pause();
    assert_eq!(it.speed_update(), None);
    assert_eq!(it.speed.as_deref(), Some("Paused/Cancelled"));
}

#[test]
fn entry_getters() {
    let mut it = asset_item();
    it.path = Some("/vault/x".to_string());
    assert_eq!(it.path(), Some("/vault/x".to_string()));
    assert_eq!(it.release(), Some("rel".to_string()));
    assert_eq!(it.asset(), None);
    assert_eq!(it.version(), None);
    assert_eq!(it.target(), None);
    assert!(!it.paused());
    assert!(!it.canceled());
    assert_eq!(it.item_type(), ItemType::Asset);
}
