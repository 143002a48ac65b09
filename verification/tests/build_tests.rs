use generate_summary::chapter::{BuildError, ChapterNode};
use generate_summary::config::Config;
use generate_summary::tree::Entry;
use generate_summary::GenerateSummary;

fn file(name: &str, first_line: &str) -> Entry {
    Entry::File { name: name.to_string(), first_line: first_line.to_string() }
}

fn dir(name: &str, entries: Vec<Entry>) -> Entry {
    Entry::Dir { name: name.to_string(), entries }
}

fn path(components: &[&str]) -> Vec<String> {
    components.iter().map(|c| c.to_string()).collect()
}

fn build(entries: Vec<Entry>, config: &Config) -> Result<(Vec<ChapterNode>, Vec<Vec<String>>), BuildError> {
    GenerateSummary::new().build(entries, config).map(|out| (out.chapters, out.stubs))
}

#[test]
fn empty_root_yields_empty_tree() {
    let (chapters, stubs) = build(vec![], &Config::default()).unwrap();
    assert!(chapters.is_empty());
    assert!(stubs.is_empty());
}

#[test]
fn only_nonmatching_files_yield_empty_tree() {
    let entries = vec![file("notes.txt", ""), file("image.png", ""), file("md", "")];
    let (chapters, stubs) = build(entries, &Config::default()).unwrap();
    assert!(chapters.is_empty());
    assert!(stubs.is_empty());
}

#[test]
fn hidden_document_without_stem_is_ignored() {
    // ".md" has no filename stem, so it does not carry the document extension.
    let (chapters, _) = build(vec![file(".md", "")], &Config::default()).unwrap();
    assert!(chapters.is_empty());
}

#[test]
fn end_to_end_sample_scenario() {
    let entries = vec![
        file("intro.md", ""),
        dir("guide", vec![file("README.md", ""), file("setup.md", "")]),
    ];
    let (chapters, stubs) = build(entries, &Config::default()).unwrap();
    assert!(stubs.is_empty());
    assert_eq!(chapters.len(), 2);

    let guide = &chapters[0];
    assert_eq!(guide.display_name, "guide");
    assert_eq!(guide.number, vec![1]);
    assert_eq!(guide.content_path, Some(path(&["guide", "README.md"])));
    assert_eq!(guide.children.len(), 1);
    let setup = &guide.children[0];
    assert_eq!(setup.display_name, "setup");
    assert_eq!(setup.number, vec![1, 1]);
    assert_eq!(setup.content_path, Some(path(&["guide", "setup.md"])));
    assert!(setup.children.is_empty());

    let intro = &chapters[1];
    assert_eq!(intro.display_name, "intro");
    assert_eq!(intro.number, vec![2]);
    assert_eq!(intro.content_path, Some(path(&["intro.md"])));
    assert!(intro.children.is_empty());
}

#[test]
fn siblings_are_sorted_and_numbered_contiguously() {
    let entries = vec![file("c.md", ""), file("a.md", ""), file("b.md", "")];
    let (chapters, _) = build(entries, &Config::default()).unwrap();
    assert_eq!(chapters.len(), 3);
    assert_eq!(chapters[0].display_name, "a");
    assert_eq!(chapters[1].display_name, "b");
    assert_eq!(chapters[2].display_name, "c");
    assert_eq!(chapters[0].number, vec![1]);
    assert_eq!(chapters[1].number, vec![2]);
    assert_eq!(chapters[2].number, vec![3]);
}

#[test]
fn deep_numbering_extends_parent_number() {
    let entries = vec![dir(
        "guide",
        vec![
            file("README.md", ""),
            dir("advanced", vec![file("README.md", ""), file("tricks.md", "")]),
        ],
    )];
    let (chapters, _) = build(entries, &Config::default()).unwrap();
    assert_eq!(chapters[0].number, vec![1]);
    let advanced = &chapters[0].children[0];
    assert_eq!(advanced.number, vec![1, 1]);
    assert_eq!(advanced.children[0].number, vec![1, 1, 1]);
    assert_eq!(advanced.children[0].display_name, "tricks");
}

#[test]
fn title_derivation_from_heading() {
    let entries = vec![file("started.md", "# Getting Started")];
    let mut config = Config::default();
    config.derive_title_from_heading = true;
    let (chapters, _) = build(entries, &config).unwrap();
    assert_eq!(chapters[0].display_name, "Getting Started");
}

#[test]
fn title_falls_back_to_stem_when_derivation_is_off() {
    let entries = vec![file("started.md", "# Getting Started")];
    let (chapters, _) = build(entries, &Config::default()).unwrap();
    assert_eq!(chapters[0].display_name, "started");
}

#[test]
fn title_falls_back_when_first_line_is_no_heading() {
    let mut config = Config::default();
    config.derive_title_from_heading = true;

    let (chapters, _) = build(vec![file("a.md", "plain text")], &config).unwrap();
    assert_eq!(chapters[0].display_name, "a");

    let (chapters, _) = build(vec![file("b.md", "#NoSpace")], &config).unwrap();
    assert_eq!(chapters[0].display_name, "b");

    let (chapters, _) = build(vec![file("c.md", "## second level")], &config).unwrap();
    assert_eq!(chapters[0].display_name, "c");
}

#[test]
fn title_derivation_trims_line_terminator() {
    let mut config = Config::default();
    config.derive_title_from_heading = true;
    let (chapters, _) = build(vec![file("a.md", "# Getting Started\n")], &config).unwrap();
    assert_eq!(chapters[0].display_name, "Getting Started");
    let (chapters, _) = build(vec![file("b.md", "# Windows Title\r\n")], &config).unwrap();
    assert_eq!(chapters[0].display_name, "Windows Title");
}

#[test]
fn missing_index_fails_by_default() {
    let entries = vec![dir("guide", vec![file("setup.md", "")])];
    let err = build(entries, &Config::default()).unwrap_err();
    assert_eq!(err, BuildError::MissingIndexDocument { path: path(&["guide", "README.md"]) });
}

#[test]
fn missing_index_tolerated_when_ignoring() {
    let entries = vec![dir("guide", vec![file("setup.md", "")])];
    let mut config = Config::default();
    config.ignore_missing_index = true;
    let (chapters, stubs) = build(entries, &config).unwrap();
    assert!(stubs.is_empty());
    let guide = &chapters[0];
    assert_eq!(guide.display_name, "guide");
    assert_eq!(guide.content_path, None);
    assert_eq!(guide.children.len(), 1);
    assert_eq!(guide.children[0].display_name, "setup");
    assert_eq!(guide.children[0].number, vec![1, 1]);
}

#[test]
fn missing_index_creates_stub_when_configured() {
    let entries = vec![dir("guide", vec![file("setup.md", "")])];
    let mut config = Config::default();
    config.create_missing_index = true;
    let (chapters, stubs) = build(entries, &config).unwrap();
    assert_eq!(stubs, vec![path(&["guide", "README.md"])]);
    let guide = &chapters[0];
    assert_eq!(guide.content_path, Some(path(&["guide", "README.md"])));
    assert_eq!(guide.children.len(), 1);
}

#[test]
fn stub_document_is_a_single_heading_line() {
    let config = Config::default();
    assert_eq!(generate_summary::builder::stub_line_exec(&config), "# README.md");
}

#[test]
fn derived_title_of_a_created_stub_is_its_heading_text() {
    let entries = vec![dir("guide", vec![file("setup.md", "")])];
    let mut config = Config::default();
    config.create_missing_index = true;
    config.derive_title_from_heading = true;
    let (chapters, _) = build(entries, &config).unwrap();
    assert_eq!(chapters[0].display_name, "README.md");
}

#[test]
fn index_file_is_never_its_own_sibling_chapter() {
    let entries = vec![dir(
        "guide",
        vec![file("README.md", ""), file("one.md", ""), file("two.md", "")],
    )];
    let (chapters, _) = build(entries, &Config::default()).unwrap();
    let names: Vec<&str> =
        chapters[0].children.iter().map(|c| c.display_name.as_str()).collect();
    assert_eq!(names, vec!["one", "two"]);
}

#[test]
fn index_file_at_root_is_not_a_chapter() {
    let entries = vec![file("README.md", ""), file("other.md", "")];
    let (chapters, _) = build(entries, &Config::default()).unwrap();
    assert_eq!(chapters.len(), 1);
    assert_eq!(chapters[0].display_name, "other");
}

#[test]
fn custom_index_base_name_is_honoured() {
    let entries = vec![dir("guide", vec![file("index.md", ""), file("setup.md", "")])];
    let mut config = Config::default();
    config.index_base_name = "index".to_string();
    let (chapters, _) = build(entries, &config).unwrap();
    let guide = &chapters[0];
    assert_eq!(guide.content_path, Some(path(&["guide", "index.md"])));
    assert_eq!(guide.children.len(), 1);
    assert_eq!(guide.children[0].display_name, "setup");
}

#[test]
fn summary_is_excluded_at_root_only() {
    let entries = vec![
        file("SUMMARY.md", ""),
        file("intro.md", ""),
        dir("guide", vec![file("README.md", ""), file("SUMMARY.md", "")]),
    ];
    let (chapters, _) = build(entries, &Config::default()).unwrap();
    assert_eq!(chapters.len(), 2);
    assert_eq!(chapters[0].display_name, "guide");
    assert_eq!(chapters[1].display_name, "intro");
    // Nested SUMMARY.md is an ordinary chapter.
    assert_eq!(chapters[0].children.len(), 1);
    assert_eq!(chapters[0].children[0].display_name, "SUMMARY");
}

#[test]
fn rebuilding_unchanged_snapshot_is_idempotent() {
    let make = || {
        vec![
            file("intro.md", "# Intro\n"),
            dir("guide", vec![file("README.md", "# The Guide"), file("setup.md", "")]),
        ]
    };
    let mut config = Config::default();
    config.derive_title_from_heading = true;
    let first = build(make(), &config).unwrap();
    let second = build(make(), &config).unwrap();
    assert_eq!(first, second);
}

#[test]
fn stub_creation_is_idempotent_once_stubs_exist() {
    let mut config = Config::default();
    config.create_missing_index = true;

    let before = vec![dir("guide", vec![file("setup.md", "")])];
    let (chapters_first, stubs_first) = build(before, &config).unwrap();
    assert_eq!(stubs_first, vec![path(&["guide", "README.md"])]);

    // The host creates the requested stub; rescanning then shows it as a file
    // whose content is the single stub heading line.
    let after = vec![dir("guide", vec![file("README.md", "# README.md"), file("setup.md", "")])];
    let (chapters_second, stubs_second) = build(after, &config).unwrap();
    assert!(stubs_second.is_empty());
    assert_eq!(chapters_first, chapters_second);
}

#[test]
fn empty_directory_yields_childless_node() {
    let entries = vec![dir("guide", vec![])];
    let mut config = Config::default();
    config.ignore_missing_index = true;
    let (chapters, _) = build(entries, &config).unwrap();
    assert_eq!(chapters[0].display_name, "guide");
    assert!(chapters[0].children.is_empty());
    assert_eq!(chapters[0].content_path, None);
}

#[test]
fn error_in_nested_directory_names_its_index_path() {
    let entries = vec![dir("guide", vec![file("README.md", ""), dir("deep", vec![])])];
    let err = build(entries, &Config::default()).unwrap_err();
    assert_eq!(
        err,
        BuildError::MissingIndexDocument { path: path(&["guide", "deep", "README.md"]) }
    );
}
