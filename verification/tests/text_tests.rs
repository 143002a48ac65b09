use generate_summary::config::Config;
use generate_summary::text::{find_last_dot, markdown_file, name_for, stem_of_str, str_le, str_lt};
use generate_summary::GenerateSummary;

#[test]
fn lexicographic_order_on_names() {
    assert!(str_lt("a", "b"));
    assert!(!str_lt("b", "a"));
    assert!(!str_lt("a", "a"));
    assert!(str_le("a", "a"));
    assert!(str_lt("a", "ab"));
    assert!(!str_lt("ab", "a"));
    assert!(str_lt("abc", "abd"));
    assert!(str_lt("", "a"));
    // Byte-wise ordering: upper case sorts before lower case.
    assert!(str_lt("SUMMARY.md", "intro.md"));
    assert!(str_lt("guide", "intro"));
}

#[test]
fn stems_follow_filesystem_conventions() {
    assert_eq!(stem_of_str("setup.md"), "setup");
    assert_eq!(stem_of_str("archive.tar.gz"), "archive.tar");
    assert_eq!(stem_of_str("plain"), "plain");
    assert_eq!(stem_of_str(".hidden"), ".hidden");
    assert_eq!(stem_of_str("trailing."), "trailing");
    assert_eq!(stem_of_str(""), "");
}

#[test]
fn last_dot_positions() {
    assert_eq!(find_last_dot("a.b.c"), Some(3));
    assert_eq!(find_last_dot("abc"), None);
    assert_eq!(find_last_dot(".x"), Some(0));
}

#[test]
fn markdown_extension_detection() {
    assert!(markdown_file("setup.md"));
    assert!(markdown_file("a.b.md"));
    assert!(!markdown_file("setup.txt"));
    assert!(!markdown_file("setupmd"));
    assert!(!markdown_file(".md"));
    assert!(!markdown_file("setup.md.bak"));
    assert!(!markdown_file("setup.MD"));
}

#[test]
fn name_for_uses_heading_only_when_configured() {
    let mut config = Config::default();
    assert_eq!(name_for(Some("# Title"), "stem".to_string(), &config), "stem");
    config.derive_title_from_heading = true;
    assert_eq!(name_for(Some("# Title"), "stem".to_string(), &config), "Title");
    assert_eq!(name_for(Some("# Title\n"), "stem".to_string(), &config), "Title");
    assert_eq!(name_for(Some("no heading"), "stem".to_string(), &config), "stem");
    assert_eq!(name_for(None, "stem".to_string(), &config), "stem");
}

#[test]
fn preprocessor_identity() {
    let pre = GenerateSummary::new();
    assert_eq!(pre.name(), "generate-summary");
    assert!(pre.supports_renderer("html"));
    assert!(!pre.supports_renderer("not-supported"));
}

#[test]
fn default_configuration_values() {
    let config = Config::default();
    assert!(!config.derive_title_from_heading);
    assert_eq!(config.index_base_name, "README");
    assert!(!config.create_missing_index);
    assert!(!config.ignore_missing_index);
}
