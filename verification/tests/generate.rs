use typed_openapi::generate::{
    capped_lines, file_name, listed, locator, unrunnable, Settings, ALLOW, DEFAULT_COMMAND,
};

#[test]
fn a_list_reads_as_prose() {
    assert_eq!(listed(&[]), "");
    assert_eq!(listed(&["a".to_owned()]), "a");
    assert_eq!(listed(&["a".to_owned(), "b".to_owned()]), "a and b");
    assert_eq!(listed(&["a".to_owned(), "b".to_owned(), "c".to_owned()]), "a, b and c");
}

#[test]
fn a_path_is_named_by_its_directory_and_its_name() {
    assert_eq!(locator("spec/vendor.yaml"), "spec/vendor.yaml");
    assert_eq!(locator("/home/me/spec/vendor.yaml"), "spec/vendor.yaml");
    assert_eq!(locator("vendor.yaml"), "vendor.yaml");
    assert_eq!(file_name("a/b/c.yaml"), "c.yaml");
}

#[test]
fn every_header_names_the_command_and_the_documents() {
    let settings = Settings::new("spec/vendor.yaml")
        .overlay("spec/corrections.yaml")
        .overlay("spec/cli.yaml")
        .regenerated_by("make bless");
    assert_eq!(settings.corrected_name(), "vendor.overlaid.yaml");
    assert_eq!(
        settings.document_header(),
        "# Generated by `make bless` from vendor.yaml, corrections.yaml and cli.yaml.\n# Do not edit: every correction belongs in an Overlay.\n"
    );
    assert_eq!(
        settings.summary_header(),
        "<!--\nGenerated by `make bless` from vendor.yaml, corrections.yaml and cli.yaml.\nDo not edit: every number below is counted off that document's reduction, and\nthat command counts them again.\n-->\n\n"
    );
    assert_eq!(
        settings.rust_header("out/spec/vendor.overlaid.yaml"),
        format!(
            "//! Generated by `make bless` from `spec/vendor.overlaid.yaml`.\n//! Do not edit: every correction belongs in `spec/corrections.yaml` and `spec/cli.yaml`.\n{ALLOW}"
        )
    );
    let bare = Settings::new("vendor.yaml");
    assert!(bare.rust_header("x/v.yaml").contains(&format!(
        "`{DEFAULT_COMMAND}` from `x/v.yaml`.\n//! Do not edit: every correction is generated from `vendor.yaml`.\n"
    )));
}

#[test]
fn the_settings_hold_what_the_adopter_said() {
    let settings = Settings::new("vendor.yaml")
        .replace("money", "money::Money")
        .summary_page("src/summary.md")
        .commit_word("yes")
        .unwrap();
    assert_eq!(settings.document(), "vendor.yaml");
    assert_eq!(settings.replacements(), &[("money".to_owned(), "money::Money".to_owned())]);
    assert_eq!(settings.summary(), Some("src/summary.md"));
    assert_eq!(settings.loading().word(), "yes");
    assert!(Settings::new("v.yaml").commit_word("json-body").is_err());
}

#[test]
fn deep_indentation_is_capped_and_a_rust_fence_made_inert() {
    assert_eq!(capped_lines("        code"), "   code");
    assert_eq!(capped_lines("  two"), "  two");
    assert_eq!(capped_lines("```\nlet x = 1;\n```"), "```text\nlet x = 1;\n```");
    assert_eq!(capped_lines("```rust\n    kept\n```"), "```text\n    kept\n```");
    assert_eq!(capped_lines("```json\n{}\n```"), "```json\n{}\n```");
    assert_eq!(capped_lines("* item"), "- item");
    assert_eq!(capped_lines("1.      hanging"), "1.    hanging");
    assert_eq!(capped_lines("*emphasis*"), "*emphasis*");
}

#[test]
fn prose_of_several_lines_opens_on_a_line_of_its_own() {
    assert_eq!(unrunnable("one line"), "one line");
    assert_eq!(unrunnable("a\nb"), "\na\nb\n");
}

#[test]
fn a_bless_step_writes_its_four_artefacts_and_the_page_asked_for() {
    let bare = Settings::new("spec/vendor.yaml");
    assert_eq!(
        bare.outputs(),
        vec!["spec/vendor.overlaid.yaml", "src/types.rs", "src/ops.rs", "src/model.postcard"]
    );
    let paged = Settings::new("spec/vendor.yaml").summary_page("docs/summary.md");
    assert_eq!(
        paged.outputs(),
        vec![
            "spec/vendor.overlaid.yaml",
            "src/types.rs",
            "src/ops.rs",
            "src/model.postcard",
            "docs/summary.md"
        ]
    );
}

#[test]
fn a_refused_step_names_the_file_it_came_from() {
    let settings = Settings::new("spec/vendor.yaml")
        .overlay("spec/corrections.yaml")
        .overlay("spec/cli.yaml");
    assert_eq!(settings.refused_file(0), "spec/vendor.yaml");
    assert_eq!(settings.refused_file(1), "spec/corrections.yaml");
    assert_eq!(settings.refused_file(2), "spec/cli.yaml");
}
