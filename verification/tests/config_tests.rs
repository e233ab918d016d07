use hyperlit::config::HyperlitConfig;

fn strings(v: &[&str]) -> Vec<String> {
    v.iter().map(|s| s.to_string()).collect()
}

#[test]
fn read_config_with_defaults() {
    let config = HyperlitConfig::from_string(
        r#"
            title = "foo"
        "#,
    )
    .unwrap();

    assert_eq!(config.title, "foo");
    assert_eq!(config.config_path, "hyperlit.toml");
    assert_eq!(config.build_directory, "build");
    assert_eq!(config.output_directory, "output");
    assert_eq!(config.source_link_template, None);
    assert!(config.directories.is_empty());
}

#[test]
fn read_config_with_no_defaults() {
    let config = HyperlitConfig::from_string(
        r#"
            title = "foo"
            build_directory = "the_build"
            output_directory = "the_output"

            [[directory]]
            paths = ["docs", "docs2"]
            globs = ["*.md", "*.mdx"]

            [[directory]]
            paths = ["src", "ui/src"]
            globs = ["*.rs", "*.ts"]
            markers = ["DOC"]

        "#,
    )
    .unwrap();

    assert_eq!(config.title, "foo");
    assert_eq!(config.config_path, "hyperlit.toml");
    assert_eq!(config.build_directory, "the_build");
    assert_eq!(config.output_directory, "the_output");
    assert_eq!(config.source_link_template, None);
    assert_eq!(config.directories.len(), 2);
    assert_eq!(config.directories[0].paths, strings(&["docs", "docs2"]));
    assert_eq!(config.directories[0].globs, strings(&["*.md", "*.mdx"]));
    assert!(config.directories[0].markers.is_empty());
    assert_eq!(config.directories[1].paths, strings(&["src", "ui/src"]));
    assert_eq!(config.directories[1].globs, strings(&["*.rs", "*.ts"]));
    assert_eq!(config.directories[1].markers, strings(&["DOC"]));
}

#[test]
fn missing_title_is_an_error() {
    assert!(HyperlitConfig::from_string("build_directory = \"b\"").is_err());
}

#[test]
fn title_must_be_a_string() {
    assert!(HyperlitConfig::from_string("title = 3").is_err());
}

#[test]
fn invalid_toml_is_an_error() {
    assert!(HyperlitConfig::from_string("title = ").is_err());
}

#[test]
fn source_link_template_and_config_path() {
    let config = HyperlitConfig::from_string(
        "title = \"t\"\nconfig_path = \"x.toml\"\nsource_link_template = \"https://x/{path}\"",
    )
    .unwrap();
    assert_eq!(config.config_path, "x.toml");
    assert_eq!(config.source_link_template, Some("https://x/{path}".to_string()));
}
