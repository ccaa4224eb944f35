use n4::config::{generate_robot_food, SiteConfig};
use n4::error::ContentError;
use n4::meta::{read_content_meta_file, read_menu_meta_file, ContentMeta, MenuItemMeta};
use n4::time::UtcTime;

fn config() -> SiteConfig {
    SiteConfig {
        prod_host: "https://example.org".to_string(),
        xml_priority: "0.64".to_string(),
        base_dir: "site/".to_string(),
        local_content_dir: "/srv/".to_string(),
    }
}

#[test]
fn local_path_joins_dir_and_base() {
    assert_eq!(config().local_path(), "/srv/site/");
    assert_eq!(config().content_root(), "/srv/site/");
}

#[test]
fn initial_config_values() {
    let c = SiteConfig::initial();
    assert_eq!(c.prod_host, "https://localhost:8000");
    assert_eq!(c.xml_priority, "0.64");
    assert_eq!(c.base_dir, "/");
    assert_eq!(c.local_content_dir, "/");
}

#[test]
fn base_dir_must_end_with_separator() {
    assert!(config().base_dir_is_closed());
    let mut open = config();
    open.base_dir = "site".to_string();
    assert!(!open.base_dir_is_closed());
    open.base_dir = "".to_string();
    assert!(!open.base_dir_is_closed());
}

#[test]
fn robot_food_names_the_sitemap() {
    assert_eq!(
        generate_robot_food(&config()),
        "User-agents: *\nAllow: *\n\nSitemap: https://example.org/sitemap.xml"
    );
}

#[test]
fn content_meta_defaults() {
    let meta = ContentMeta::default();
    assert_eq!(meta.content_icon, "/static/images/content_default_icon.svg");
    assert_eq!(meta.description, "Default description value");
    assert_eq!(meta.timestamp_override, None);
    assert_eq!(meta.weight, 100);
    assert_eq!(meta.author, "Gatewaynode");
    assert_eq!(meta.license, "cc-by-sa");
    assert!(meta.content_list.is_empty());
    assert_eq!(meta.content_type, "page");
    assert_eq!(meta.content_class, "basic-page");
}

#[test]
fn menu_meta_defaults() {
    let meta = MenuItemMeta::default();
    assert_eq!(meta.menu_icon, "/static/images/menu_default_icon.svg");
    assert_eq!(meta.description, "Menu default description.");
    assert_eq!(meta.weight, 100);
    assert_eq!(meta.section_class, "section");
    assert_eq!(meta.section_template, "article");
}

#[test]
fn decoded_content_meta_is_returned_verbatim() {
    let mut given = ContentMeta::default();
    given.description = "About the guide".to_string();
    given.weight = 5;
    given.timestamp_override = Some(UtcTime { secs: 1_600_000_000, nanos: 250 });
    given.content_list = vec!["docs/a.md".to_string(), "docs/b.md".to_string()];
    let meta = read_content_meta_file(&Ok(given));
    assert_eq!(meta.description, "About the guide");
    assert_eq!(meta.weight, 5);
    assert_eq!(meta.timestamp_override, Some(UtcTime { secs: 1_600_000_000, nanos: 250 }));
    assert_eq!(meta.content_list, vec!["docs/a.md".to_string(), "docs/b.md".to_string()]);
    assert_eq!(meta.author, "Gatewaynode");
}

#[test]
fn malformed_content_meta_degrades_to_default() {
    let meta = read_content_meta_file(&Err("expected value at line 1 column 1".to_string()));
    assert_eq!(meta.description, "JSON Parse Error: expected value at line 1 column 1");
    assert_eq!(meta.content_icon, "/static/images/content_default_icon.svg");
    assert_eq!(meta.weight, 100);
    assert_eq!(meta.author, "Gatewaynode");
    assert_eq!(meta.license, "cc-by-sa");
    assert!(meta.content_list.is_empty());
    assert_eq!(meta.content_type, "page");
    assert_eq!(meta.content_class, "basic-page");
    assert_eq!(meta.timestamp_override, None);
}

#[test]
fn malformed_menu_meta_degrades_to_default() {
    let meta = read_menu_meta_file(&Err("EOF while parsing".to_string()));
    assert_eq!(meta.description, "JSON Parse Error: EOF while parsing");
    assert_eq!(meta.menu_icon, "/static/images/menu_default_icon.svg");
    assert_eq!(meta.weight, 100);
    let mut given = MenuItemMeta::default();
    given.weight = 3;
    assert_eq!(read_menu_meta_file(&Ok(given)).weight, 3);
}

#[test]
fn error_messages_name_the_rule() {
    assert_eq!(
        ContentError::Configuration.message(),
        "Base dir is missing the trailing directory delimiter."
    );
    assert_eq!(
        ContentError::PathFormat.message(),
        "The content base directory does not occur in the path."
    );
    assert_ne!(
        ContentError::CyclicReference.message(),
        ContentError::MissingContent.message()
    );
    assert_ne!(
        ContentError::MissingDirectory.message(),
        ContentError::UnreadableSidecar.message()
    );
}

#[test]
fn utc_time_keys_order_by_seconds_then_nanos() {
    let a = UtcTime { secs: 5, nanos: 999_999_999 };
    let b = UtcTime { secs: 6, nanos: 0 };
    let c = UtcTime { secs: 6, nanos: 1 };
    let d = UtcTime { secs: -1, nanos: 5 };
    assert!(a.sort_key() < b.sort_key());
    assert!(b.sort_key() < c.sort_key());
    assert!(d.sort_key() < UtcTime::epoch().sort_key());
    assert_eq!(UtcTime::from_secs(6), b);
    assert_eq!(UtcTime::from_secs(1).sort_key(), 0x1_0000_0000);
}
