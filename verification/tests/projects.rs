use epic_asset_manager::projects::{
    add_found_version, add_location, add_to_project_heading, directory_labels, engine_choices,
    first_release_app, local_copy_lists, overwrite_warning, parse_i32_text, project_form_state,
    project_name_from_files, project_plan, sort_newest_first, version_key, ProjectPlan,
};

fn s(x: &str) -> String {
    x.to_string()
}

fn chars(x: &str) -> Vec<char> {
    x.chars().collect()
}

#[test]
fn parses_like_str_parse() {
    for text in ["0", "42", "-7", "+5", "2147483647", "-2147483648", "2147483648", "", "-", "+", "1a", "007", "99999999999"] {
        assert_eq!(parse_i32_text(&chars(text)), text.parse::<i32>().ok(), "{text}");
    }
}

#[test]
fn version_keys() {
    assert_eq!(version_key("5.1.0"), (5, 1, 0));
    assert_eq!(version_key("4.27"), (4, 27, 0));
    assert_eq!(version_key("5.x.2"), (5, 2, 0));
    assert_eq!(version_key(""), (0, 0, 0));
    assert_eq!(version_key("1.2.3.4"), (1, 2, 3));
}

#[test]
fn newest_versions_first() {
    let v = vec![s("4.27.2"), s("5.1.0"), s("5.1"), s("4.26.0"), s("5.3.1")];
    assert_eq!(
        sort_newest_first(&v),
        vec![s("5.3.1"), s("5.1.0"), s("5.1"), s("4.27.2"), s("4.26.0")]
    );
    let (choices, enabled) = engine_choices(&v);
    assert!(enabled);
    assert_eq!(choices[0], "5.3.1");
    let (choices, enabled) = engine_choices(&vec![]);
    assert!(!enabled);
    assert_eq!(choices, vec![s("No engines found")]);
}

#[test]
fn found_versions_are_unique() {
    let mut found = Vec::new();
    add_found_version(&mut found, "5.1.0");
    add_found_version(&mut found, "");
    add_found_version(&mut found, "5.1.0");
    add_found_version(&mut found, "5.2.0");
    assert_eq!(found, vec![s("5.1.0"), s("5.2.0")]);
}

#[test]
fn project_locations() {
    let mut locs = vec![s("/a"), s("/b")];
    assert_eq!(add_location(&mut locs, &s("/b")), (1, false));
    assert_eq!(add_location(&mut locs, &s("/c")), (2, true));
    assert_eq!(locs, vec![s("/a"), s("/b"), s("/c")]);
}

#[test]
fn project_form_and_plan() {
    assert_eq!(project_form_state(false, Some(true)), (false, Some(false)));
    assert_eq!(project_form_state(true, Some(true)), (true, Some(true)));
    assert_eq!(project_form_state(true, None), (true, None));
    let local = Some(s("/vault/A/data"));
    let version = Some(s("rel-1"));
    assert!(matches!(project_plan(false, true, false, false, true, &local, &version), ProjectPlan::Nothing));
    assert!(matches!(project_plan(true, false, false, false, true, &local, &version), ProjectPlan::Nothing));
    assert!(matches!(project_plan(true, true, true, false, true, &local, &version), ProjectPlan::WarnExists));
    assert!(matches!(project_plan(true, true, true, true, true, &local, &version), ProjectPlan::CopyFrom(p) if p == "/vault/A/data"));
    assert!(matches!(project_plan(true, true, false, false, true, &None, &version), ProjectPlan::Download(v) if v == "rel-1"));
    assert!(matches!(project_plan(true, true, false, false, true, &None, &None), ProjectPlan::Nothing));
    assert!(matches!(project_plan(true, true, false, false, false, &local, &version), ProjectPlan::Nothing));
}

#[test]
fn directory_choices() {
    assert_eq!(
        directory_labels(&vec![s("/v1"), s("/v2")]),
        vec![s("/v1 (default)"), s("/v2")]
    );
    assert!(directory_labels(&vec![]).is_empty());
}

#[test]
fn project_names_and_warnings() {
    let files = vec![s("Content/a.uasset"), s("Game.uproject"), s("Other.uproject")];
    assert_eq!(project_name_from_files(&files), Some(s("Game")));
    assert_eq!(project_name_from_files(&vec![s("x.uprojectx")]), None);
    let (shown, text) = overwrite_warning(&vec![s("/p/a"), s("/p/b")]);
    assert!(shown);
    assert_eq!(text, "Files that would be overwritten: \n/p/a\n/p/b");
    let (shown, text) = overwrite_warning(&vec![]);
    assert!(!shown);
    assert_eq!(text, "Files that would be overwritten: ");
}

#[test]
fn releases_and_local_copies() {
    assert_eq!(first_release_app(&vec![None, Some(s("b"))]), None);
    assert_eq!(first_release_app(&vec![Some(s("a"))]), Some(s("a")));
    assert_eq!(first_release_app(&vec![]), None);
    assert_eq!(add_to_project_heading("Rocks"), "Add \"Rocks\" to project:");
    let entries = vec![(s("r1"), s("/v/1")), (s("r2"), s("/v/2")), (s("r1"), s("/w/1"))];
    let (mine, other) = local_copy_lists(&entries, &s("r1"));
    assert_eq!(mine, vec![s("/v/1"), s("/w/1")]);
    assert_eq!(other, vec![s("/v/2")]);
}
