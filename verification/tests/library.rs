use epic_asset_manager::engines::Order;
use epic_asset_manager::library::{
    asset_visible, capitalize_first_letter, category_order, category_order_lower, compare_text,
    count_label, date_order, game_visible, has_previous, library_can_be_refreshed, library_refresh_delay,
    marketplace_url,
    parent_category_path, name_order, product_name,
    resolve_open_asset, toggled_order_icon, CategoryChange, EpicLibraryBox, EpicSidebarCategories,
};
use epic_asset_manager::str_map::StrMap;

fn chars(s: &str) -> Vec<char> {
    s.chars().collect()
}

#[test]
fn product_names_from_titles() {
    assert_eq!(product_name("Paragon: Agora & Monolith"), "paragon-agora--monolith");
    assert_eq!(product_name("Big Rocks 2"), "big-rocks-2");
    assert_eq!(product_name("Ünïcode"), "ncode");
}

#[test]
fn search_ignores_ascii_case() {
    assert!(asset_visible("Big Rocks", &Some("ROCK".to_string()), None));
    assert!(!asset_visible("Big Rocks", &Some("tree".to_string()), None));
    assert!(asset_visible("Big Rocks", &None, Some(true)));
    assert!(!asset_visible("Big Rocks", &None, Some(false)));
}

#[test]
fn item_counts() {
    assert_eq!(count_label(1), "1 item");
    assert_eq!(count_label(0), "0 items");
    assert_eq!(count_label(42), "42 items");
}

#[test]
fn opening_links() {
    let mut products: StrMap<String> = StrMap::new();
    products.insert("big-rocks".to_string(), "id-1".to_string());
    products.insert("trees".to_string(), "id-2".to_string());
    assert_eq!(resolve_open_asset(&Some("x".to_string()), &None, &products), Some("x".to_string()));
    assert_eq!(
        resolve_open_asset(&None, &Some("trees".to_string()), &products),
        Some("id-2".to_string())
    );
    assert_eq!(
        resolve_open_asset(&None, &Some("big-rocks-pack".to_string()), &products),
        Some("id-1".to_string())
    );
    assert_eq!(resolve_open_asset(&None, &Some("nothing".to_string()), &products), None);
    assert_eq!(resolve_open_asset(&None, &None, &products), None);
}

#[test]
fn recorded_title_opens_its_asset() {
    let mut lib = EpicLibraryBox::new();
    let (_, new) = lib.add_asset(&"id-7".to_string(), &Some("Cool Trees".to_string()), &vec![]);
    assert!(new);
    let slug = product_name("Cool Trees");
    assert_eq!(
        resolve_open_asset(&None, &Some(slug), &lib.asset_product_names),
        Some("id-7".to_string())
    );
}

#[test]
fn sort_icon_toggles() {
    assert_eq!(toggled_order_icon("view-sort-ascending-symbolic"), "view-sort-descending-symbolic");
    assert_eq!(toggled_order_icon("view-sort-descending-symbolic"), "view-sort-ascending-symbolic");
}

#[test]
fn code_point_order() {
    assert_eq!(compare_text(&chars("abc"), &chars("abd")), Order::Less);
    assert_eq!(compare_text(&chars("abc"), &chars("ab")), Order::Greater);
    assert_eq!(compare_text(&chars("abc"), &chars("abc")), Order::Equal);
    assert_eq!(compare_text(&chars("B"), &chars("a")), Order::Less);
    assert_eq!(compare_text(&chars(""), &chars("a")), Order::Less);
}

#[test]
fn name_and_date_orders() {
    assert_eq!(name_order("apple", "Banana", true), Order::Less);
    assert_eq!(name_order("apple", "Banana", false), Order::Greater);
    assert_eq!(date_order(None, Some(1), true), Order::Less);
    assert_eq!(date_order(Some(1), None, true), Order::Greater);
    assert_eq!(date_order(Some(1), Some(2), true), Order::Less);
    assert_eq!(date_order(Some(1), Some(2), false), Order::Greater);
    assert_eq!(date_order(Some(3), Some(3), false), Order::Equal);
}

#[test]
fn side_bar_category_order() {
    assert_eq!(category_order("All", "assets"), Order::Less);
    assert_eq!(category_order("assets", "ALL"), Order::Greater);
    assert_eq!(category_order("Downloaded", "Favorites"), Order::Less);
    assert_eq!(category_order("Favorites", "assets"), Order::Less);
    assert_eq!(category_order("Zed", "alpha"), Order::Greater);
    assert_eq!(category_order_lower("all", "downloaded"), Order::Less);
}

#[test]
fn capitalized_titles() {
    assert_eq!(capitalize_first_letter("assets"), "Assets");
    assert_eq!(capitalize_first_letter(""), "");
    assert_eq!(capitalize_first_letter("ßtraße"), "SStraße");
}

#[test]
fn side_bar_categories() {
    let mut c = EpicSidebarCategories::new();
    assert_eq!(c.add_category("assets", "assets", true), CategoryChange::Added);
    assert_eq!(c.entries[0].title, "Assets");
    assert_eq!(c.add_category("assets", "assets", true), CategoryChange::Unchanged);
    assert_eq!(c.add_category("assets", "assets", false), CategoryChange::MadeBranch(0));
    assert!(!c.entries[0].leaf);
    assert_eq!(c.entries.len(), 1);
}

#[test]
fn library_records_assets_once() {
    let mut lib = EpicLibraryBox::new();
    let paths = vec!["assets/props".to_string(), "assets".to_string(), "assets/props".to_string()];
    let (fresh, new) = lib.add_asset(&"a".to_string(), &Some("A".to_string()), &paths);
    assert!(new);
    assert_eq!(fresh, vec!["assets/props".to_string(), "assets".to_string()]);
    let (fresh, new) = lib.add_asset(&"a".to_string(), &None, &vec!["plugins".to_string()]);
    assert!(!new);
    assert_eq!(fresh, vec!["plugins".to_string()]);
}

#[test]
fn loading_progress() {
    let mut lib = EpicLibraryBox::new();
    assert!(!lib.progress_visible());
    lib.start_processing_asset();
    assert!(lib.progress_visible());
    lib.end_processing_asset();
    assert!(!lib.progress_visible());
    assert!(library_can_be_refreshed(0, 0, 0, 0));
    assert!(!library_can_be_refreshed(0, 1, 0, 0));
}

#[test]
fn category_levels() {
    assert!(has_previous("assets/props"));
    assert!(!has_previous("assets"));
    assert_eq!(parent_category_path("assets/props/rocks"), "assets/props");
    assert_eq!(parent_category_path("assets"), "");
    assert_eq!(parent_category_path("assets/props/"), "assets/props");
}

#[test]
fn store_page_link() {
    assert_eq!(
        marketplace_url("abc"),
        "https://www.epicgames.com/id/exchange?exchangeCode=abc&redirectUrl=https%3A%2F%2Fwww.unrealengine.com%2Fmarketplace"
    );
}

#[test]
fn library_refresh_delay_in_range() {
    for _ in 0..20 {
        let d = library_refresh_delay();
        assert!((900..1800).contains(&d) && d % 60 == 0);
    }
}

#[test]
fn games_filter() {
    assert!(game_visible("Fortnite", &Some("NITE".to_string())));
    assert!(!game_visible("Fortnite", &Some("rocket".to_string())));
    assert!(game_visible("Fortnite", &None));
}
