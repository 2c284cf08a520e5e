use epic_asset_manager::download_item::{CancelRequest, PauseRequest, PostDownloadAction};
use epic_asset_manager::download_manager::{
    chunk_temp_dir, chunk_temp_path, file_target_path, files_dir, push_path, release_listed, ChunkPart,
    DownloadTarget, EpicDownloadManager,
};

fn part(guid: &str, link: Option<&str>) -> ChunkPart {
    ChunkPart {
        guid: guid.to_string(),
        link: link.map(|l| l.to_string()),
        offset: 0,
        size: 10,
    }
}

fn manager_with_item(release: &str) -> EpicDownloadManager {
    let mut m = EpicDownloadManager::new();
    assert!(m.add_asset_download(release.to_string(), "asset".to_string(), Some("Label".to_string()), None, None));
    m
}

#[test]
fn shared_chunks_are_fetched_once() {
    let mut m = manager_with_item("rel");
    let fetch = m.download_asset_file(
        "rel".to_string(),
        "r1".to_string(),
        "a.txt".to_string(),
        vec![part("g1", None), part("g2", None), part("g1", None)],
        "h".to_string(),
    );
    assert_eq!(fetch, vec!["g1".to_string(), "g2".to_string()]);
    let fetch2 = m.download_asset_file(
        "rel".to_string(),
        "r1".to_string(),
        "b.txt".to_string(),
        vec![part("g2", None), part("g3", None)],
        "h".to_string(),
    );
    assert_eq!(fetch2, vec!["g3".to_string()]);
    let waiting = m.downloaded_chunks.get(&"g1".to_string()).unwrap();
    assert_eq!(waiting, &vec!["rel/r1/a.txt".to_string(), "rel/r1/a.txt".to_string()]);
}

#[test]
fn file_of_unknown_download_is_ignored() {
    let mut m = EpicDownloadManager::new();
    let fetch = m.download_asset_file(
        "nope".to_string(),
        "r".to_string(),
        "a".to_string(),
        vec![part("g1", None)],
        "h".to_string(),
    );
    assert!(fetch.is_empty());
    assert_eq!(m.downloaded_files.len(), 0);
}

#[test]
fn file_is_ready_when_all_chunks_finished_and_frees_them() {
    let mut m = manager_with_item("rel");
    let _ = m.download_asset_file(
        "rel".to_string(),
        "r1".to_string(),
        "a.txt".to_string(),
        vec![part("g1", None), part("g2", None)],
        "h".to_string(),
    );
    let ready = m.chunk_finished(&"g1".to_string());
    assert!(ready.is_empty());
    let ready = m.chunk_finished(&"g2".to_string());
    assert_eq!(ready.len(), 1);
    assert_eq!(ready[0].0, "rel/r1/a.txt");
    let details = &ready[0].1;
    assert_eq!(details.finished_chunks.len(), 2);
    let free = m.finalize_file_download(&ready[0].0, details);
    let mut free = free;
    free.sort();
    assert_eq!(free, vec!["g1".to_string(), "g2".to_string()]);
    assert_eq!(m.downloaded_files.len(), 0);
    assert_eq!(m.downloaded_chunks.get(&"g1".to_string()).unwrap().len(), 0);
}

#[test]
fn chunk_shared_with_another_file_is_not_freed() {
    let mut m = manager_with_item("rel");
    for name in ["a", "b"] {
        let _ = m.download_asset_file(
            "rel".to_string(),
            "r1".to_string(),
            name.to_string(),
            vec![part("g1", None)],
            "h".to_string(),
        );
    }
    let ready = m.chunk_finished(&"g1".to_string());
    assert_eq!(ready.len(), 2);
    let free = m.finalize_file_download(&ready[0].0, &ready[0].1);
    assert!(free.is_empty());
    let free = m.finalize_file_download(&ready[1].0, &ready[1].1);
    assert_eq!(free, vec!["g1".to_string()]);
}

#[test]
fn paused_chunk_comes_back_on_resume() {
    let mut m = manager_with_item("rel");
    let _ = m.download_asset_file(
        "rel".to_string(),
        "r1".to_string(),
        "a".to_string(),
        vec![part("g1", None), part("g2", None)],
        "h".to_string(),
    );
    let guids = m.pause_asset_download(&"rel".to_string());
    assert_eq!(guids, vec!["g1".to_string(), "g2".to_string()]);
    m.pause_asset_chunk("http://u/1".to_string(), "/tmp/g1.chunk".to_string(), "g1".to_string());
    let pending = m.resume_asset_download(&"rel".to_string());
    assert_eq!(pending.len(), 1);
    assert_eq!(pending[0].0, "g1");
    assert_eq!(pending[0].1, vec![("http://u/1".to_string(), "/tmp/g1.chunk".to_string())]);
    assert_eq!(m.paused_asset_chunks.len(), 0);
    let again = m.resume_asset_download(&"rel".to_string());
    assert!(again.is_empty());
}

#[test]
fn cancel_forgets_files_and_chunks_of_the_asset() {
    let mut m = manager_with_item("rel");
    let _ = m.download_asset_file(
        "rel".to_string(),
        "r1".to_string(),
        "a".to_string(),
        vec![part("g1", None)],
        "h".to_string(),
    );
    let (guids, pending) = m.cancel_asset_download(&"rel".to_string());
    assert_eq!(guids, Some(vec!["g1".to_string()]));
    assert!(pending.is_empty());
    assert_eq!(m.downloaded_files.len(), 0);
    assert!(!m.downloaded_chunks.contains_key(&"g1".to_string()));
    assert!(!m.asset_guids.contains_key(&"rel".to_string()));
}

#[test]
fn adding_the_same_download_twice_is_refused() {
    let mut m = manager_with_item("rel");
    assert!(!m.add_asset_download("rel".to_string(), "other".to_string(), None, None, None));
    let item = m.download_items.get(&"rel".to_string()).unwrap();
    assert_eq!(item.asset.as_deref(), Some("asset"));
}

#[test]
fn chunk_urls_accumulate_and_redownload_avoids_failed_link() {
    let mut m = EpicDownloadManager::new();
    m.add_chunk_urls(&vec![part("g", Some("http://a")), part("g", Some("http://b")), part("h", None)]);
    assert_eq!(
        m.chunk_urls.get(&"g".to_string()).unwrap(),
        &vec!["http://a".to_string(), "http://b".to_string()]
    );
    assert!(!m.chunk_urls.contains_key(&"h".to_string()));
    assert!(!m.chunk_urls_exhausted(&"http://a".to_string(), &"g".to_string()));
    let url = m.redownload_chunk(&"http://a".to_string(), &"g".to_string());
    assert_eq!(url, "http://b");
}

#[test]
fn pause_and_cancel_requests_of_an_item() {
    let mut m = manager_with_item("rel");
    match m.pause_item(&"rel".to_string()) {
        Some(PauseRequest::PauseAsset(r)) => assert_eq!(r, "rel"),
        other => panic!("unexpected {:?}", other),
    }
    match m.pause_item(&"rel".to_string()) {
        Some(PauseRequest::ResumeAsset(r)) => assert_eq!(r, "rel"),
        other => panic!("unexpected {:?}", other),
    }
    match m.cancel_item(&"rel".to_string()) {
        Some(CancelRequest::Asset(r)) => assert_eq!(r, "rel"),
        other => panic!("unexpected {:?}", other),
    }
    assert!(m.pause_item(&"missing".to_string()).is_none());
}

#[test]
fn copy_targets_and_vault_choice() {
    let mut m = EpicDownloadManager::new();
    let actions = vec![PostDownloadAction::Copy("/proj".to_string(), true), PostDownloadAction::NoVault];
    assert!(m.add_asset_download("rel".to_string(), "asset".to_string(), None, None, Some(actions)));
    let (targets, vault) = m.copy_targets(&"rel".to_string());
    assert_eq!(targets, vec![("/proj".to_string(), true)]);
    assert!(!vault);
    let vaults = vec!["/vault".to_string()];
    match m.target_dir(&"rel".to_string(), &vaults) {
        Some(DownloadTarget::Custom(p)) => assert_eq!(p, "/proj"),
        other => panic!("unexpected {:?}", other),
    }
}

#[test]
fn releases_by_app_id() {
    let apps = vec![None, Some("a1".to_string()), Some("a2".to_string())];
    assert!(release_listed(&apps, &"a2".to_string()));
    assert!(!release_listed(&apps, &"a3".to_string()));
    assert!(!release_listed(&vec![], &"a1".to_string()));
}

#[test]
fn download_paths() {
    let s = |x: &str| x.to_string();
    assert_eq!(push_path("/vault", "rel"), "/vault/rel");
    assert_eq!(push_path("/vault/", "rel"), "/vault/rel");
    assert_eq!(push_path("", "rel"), "rel");
    assert_eq!(push_path("/vault", "/abs"), "/abs");
    assert_eq!(files_dir(&DownloadTarget::Vault(s("/v")), &s("rel")), "/v/rel/data");
    assert_eq!(files_dir(&DownloadTarget::Custom(s("/proj/Content")), &s("rel")), "/proj/Content");
    assert_eq!(
        file_target_path(&DownloadTarget::Vault(s("/v")), &s("rel"), &s("Content/a.uasset")),
        "/v/rel/data/Content/a.uasset"
    );
    assert_eq!(chunk_temp_dir(&vec![s("/v"), s("/w")], &s("/tmp/eam"), &s("rel")), "/v/rel/temp");
    assert_eq!(chunk_temp_dir(&vec![], &s("/tmp/eam"), &s("rel")), "/tmp/eam/rel/temp");
    assert_eq!(chunk_temp_path("/v/rel/temp", "ABC"), "/v/rel/temp/ABC.chunk");
}

#[test]
fn extraction_plan_skips_destination_copy() {
    let s = |x: &str| x.to_string();
    let vaults = vec![s("/vault")];
    let mut m = EpicDownloadManager::new();
    let actions = vec![
        PostDownloadAction::Copy(s("/a"), false),
        PostDownloadAction::Copy(s("/proj"), true),
        PostDownloadAction::NoVault,
    ];
    assert!(m.add_asset_download(s("rel"), s("asset"), None, None, Some(actions)));
    match m.extraction_plan(&s("rel"), &vaults, &s("r1"), &s("Content/x.uasset")) {
        Some((DownloadTarget::Custom(d), dest, copies)) => {
            assert_eq!(d, "/proj");
            assert_eq!(dest, "/proj/Content/x.uasset");
            assert_eq!(copies, vec![(s("/a"), false)]);
        }
        other => panic!("unexpected {:?}", other),
    }

    let mut k = EpicDownloadManager::new();
    let keep = vec![PostDownloadAction::Copy(s("/proj"), true)];
    assert!(k.add_asset_download(s("rel"), s("asset"), None, None, Some(keep)));
    match k.extraction_plan(&s("rel"), &vaults, &s("r1"), &s("f.bin")) {
        Some((DownloadTarget::Vault(v), dest, copies)) => {
            assert_eq!(v, "/vault");
            assert_eq!(dest, "/vault/r1/data/f.bin");
            assert_eq!(copies, vec![(s("/proj"), true)]);
        }
        other => panic!("unexpected {:?}", other),
    }
    assert!(k.extraction_plan(&s("rel"), &vec![], &s("r1"), &s("f.bin")).is_none());
}
