use epic_asset_manager::asset_details::{
    action_groups, release_rows, size_text, asset_categories_text, collapse_blank_lines, compatible_text, description_markup,
    detail_actions, detail_image_wanted, fab_versions_and_platforms, favorite_icon,
    favorite_toggle, list_text, named_only, url_row, AssetKind, DetailAction, DetailSubject,
    EpicAssetDetails, WarningChange,
};
use epic_asset_manager::fab::ProjectVersion;

fn s(x: &str) -> String {
    x.to_string()
}

#[test]
fn actions_by_kind() {
    let (a, w) = detail_actions(Some(AssetKind::Project), true);
    assert_eq!(
        a,
        vec![
            DetailAction::Download,
            DetailAction::LocalAssets,
            DetailAction::AddToProject,
            DetailAction::CreateProject
        ]
    );
    assert_eq!(w, WarningChange::Hide);
    let (a, w) = detail_actions(Some(AssetKind::Asset), false);
    assert_eq!(a, vec![DetailAction::Download, DetailAction::AddToProject]);
    assert_eq!(w, WarningChange::Hide);
    let (a, w) = detail_actions(Some(AssetKind::Game), false);
    assert_eq!(a, vec![DetailAction::Download]);
    assert_eq!(w, WarningChange::GamesOnlyDownload);
    let (_, w) = detail_actions(Some(AssetKind::Engine), false);
    assert_eq!(w, WarningChange::WindowsEngineBuild);
    let (_, w) = detail_actions(Some(AssetKind::Plugin), false);
    assert_eq!(w, WarningChange::Hide);
    let (a, w) = detail_actions(None, true);
    assert_eq!(a, vec![DetailAction::Download, DetailAction::LocalAssets]);
    assert_eq!(w, WarningChange::Keep);
}

#[test]
fn carousel_images() {
    assert!(detail_image_wanted(300, 300));
    assert!(!detail_image_wanted(299, 1000));
    assert!(!detail_image_wanted(1000, 10));
}

#[test]
fn categories_row() {
    let paths = vec![s("assets/props/rocks"), s("plain"), s("assets/nature")];
    assert_eq!(asset_categories_text(&paths), "assets, props/rocks, nature");
    assert_eq!(asset_categories_text(&vec![s("a"), s("b")]), "a, b");
    assert_eq!(asset_categories_text(&vec![]), "");
}

#[test]
fn description_rows() {
    assert_eq!(collapse_blank_lines("a\n\nb\n\n\nc"), "a\nb\n\nc");
    let m = description_markup("<p>Hello <b>world</b></p>");
    assert!(m.contains("Hello"));
    assert!(m.contains("world"));
    assert!(!m.contains("<p>"));
}

#[test]
fn list_rows() {
    assert_eq!(compatible_text(&vec![s("UE_5.1"), s("UE_5.2")]), Some(s("5.1, 5.2")));
    assert_eq!(compatible_text(&vec![]), None);
    assert_eq!(list_text(&vec![s("Windows"), s("Linux")]), Some(s("Windows, Linux")));
    assert_eq!(list_text(&vec![]), None);
    assert_eq!(named_only(&vec![Some(s("A")), None, Some(s("B"))]), vec![s("A"), s("B")]);
    assert_eq!(url_row(""), None);
    assert_eq!(url_row("http://x"), Some(s("URL: <a href=\"http://x\">http://x</a>")));
}

#[test]
fn versions_flattened() {
    let v = vec![
        ProjectVersion { artifact_id: s("a"), engine_versions: vec![s("UE_5.1")], target_platforms: vec![s("Windows")] },
        ProjectVersion { artifact_id: s("b"), engine_versions: vec![s("UE_5.2"), s("UE_5.3")], target_platforms: vec![] },
    ];
    let (e, p) = fab_versions_and_platforms(&v);
    assert_eq!(e, vec![s("UE_5.1"), s("UE_5.2"), s("UE_5.3")]);
    assert_eq!(p, vec![s("Windows")]);
}

#[test]
fn pane_shows_one_asset() {
    let mut d = EpicAssetDetails::new();
    assert!(!d.has_asset());
    assert!(d.set_asset(&s("a")));
    assert!(d.expanded);
    assert!(!d.set_asset(&s("a")));
    assert!(d.set_fab_asset(&s("a")));
    assert!(matches!(&d.subject, DetailSubject::Fab(id) if id == "a"));
    assert_eq!(d.favorite_target(), Some(s("a")));
    d.collapse();
    assert!(!d.expanded);
    assert!(d.has_asset());
}

#[test]
fn favorites() {
    assert_eq!(favorite_toggle("starred"), (true, s("non-starred-symbolic")));
    assert_eq!(favorite_toggle("non-starred-symbolic"), (false, s("starred")));
    assert_eq!(favorite_icon(Some(true)), "starred");
    assert_eq!(favorite_icon(Some(false)), "non-starred-symbolic");
    assert_eq!(favorite_icon(None), "non-starred-symbolic");
}

#[test]
fn action_groups_by_kind() {
    assert_eq!(action_groups(Some(AssetKind::Asset)), Some((true, false)));
    assert_eq!(action_groups(Some(AssetKind::Project)), Some((true, true)));
    assert_eq!(action_groups(Some(AssetKind::Game)), Some((false, false)));
    assert_eq!(action_groups(None), None);
}

#[test]
fn release_detail_rows() {
    let rows = release_rows(
        &Some(vec![s("UE_5.1"), s("UE_5.2")]),
        &Some(vec![s("Windows")]),
        &Some(s("2023-01-02")),
        &Some(s("")),
    );
    assert_eq!(
        rows,
        vec![
            s("Supported versions: 5.1, 5.2"),
            s("Platforms: Windows"),
            s("Release Date: 2023-01-02"),
        ]
    );
    let rows = release_rows(&None, &None, &None, &Some(s("Fixed")));
    assert_eq!(rows, vec![s("Release Note: Fixed")]);
}

#[test]
fn download_sizes() {
    assert_eq!(size_text(1_500_000), "1.50 MB");
    assert_eq!(size_text(0), "0 B");
}

#[test]
fn rows_escape_markup() {
    assert_eq!(asset_categories_text(&vec![s("R&D/<tools>")]), "R&amp;D, &lt;tools&gt;");
    assert_eq!(compatible_text(&vec![s("UE_5.1 <beta>")]), Some(s("5.1 &lt;beta&gt;")));
    assert_eq!(list_text(&vec![s("Mac & Linux")]), Some(s("Mac &amp; Linux")));
}
