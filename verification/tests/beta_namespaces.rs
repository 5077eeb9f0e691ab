//! Tests of the ordering of Mainline Beta namespace configs.

use build_tools::beta_namespaces::{Config, Namespace};

fn ns(container: &str, allow_exported: bool) -> Namespace {
    Namespace { container: container.to_string(), allow_exported }
}

#[test]
fn namespaces_sorted_by_name() {
    let config = Config {
        namespaces: vec![
            ("test_namespace_unexported".to_string(), ns("test_mainline_container_unexported", false)),
            ("test_namespace_exported".to_string(), ns("test_mainline_container_exported", true)),
            ("alpha".to_string(), ns("c", false)),
        ],
    };
    let sorted = config.sorted_namespaces();
    let names: Vec<&str> = sorted.iter().map(|(n, _)| n.as_str()).collect();
    assert_eq!(names, vec!["alpha", "test_namespace_exported", "test_namespace_unexported"]);
    assert_eq!(sorted[1].1.container, "test_mainline_container_exported");
    assert!(sorted[1].1.allow_exported);
    assert!(!sorted[2].1.allow_exported);
}

#[test]
fn empty_config_has_no_namespaces() {
    let config = Config { namespaces: vec![] };
    assert!(config.sorted_namespaces().is_empty());
}
