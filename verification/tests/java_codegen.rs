//! Tests of the decisions of Java code generation.

use build_tools::java_codegen::{
    add_feature_flags_impl_template, create_flag_element, gen_flags_by_namespace,
    generate_java_context, java_file_path_of, java_output_files, java_templates, CodegenMode,
    FlagLookup, FlagStorageBackend, JavaCodegenConfig, ParsedFlag,
};

const TEST_PACKAGE: &str = "com.android.aconfig.test";

fn flag(name: &str, namespace: &str, read_write: bool, storage: FlagStorageBackend) -> ParsedFlag {
    ParsedFlag {
        name: name.to_string(),
        namespace: namespace.to_string(),
        container: "system".to_string(),
        enabled: !read_write,
        read_write,
        storage,
    }
}

fn lookup(name: &str, offset: u16) -> Result<FlagLookup, String> {
    Ok(FlagLookup {
        device_config_flag: format!("{TEST_PACKAGE}.{name}"),
        flag_offset: offset,
        finalized_sdk_present: false,
        finalized_sdk_check: "Build.VERSION_CODES.CUR_DEVELOPMENT".to_string(),
        finalized_sdk_annotation: "".to_string(),
    })
}

fn sample_flags() -> Vec<ParsedFlag> {
    vec![
        flag("disabled_ro", "aconfig_test", false, FlagStorageBackend::Aconfigd),
        flag("disabled_rw", "other_namespace", true, FlagStorageBackend::Aconfigd),
        flag("enabled_ro", "aconfig_test", false, FlagStorageBackend::Aconfigd),
        flag("enabled_rw", "aconfig_test", true, FlagStorageBackend::Aconfigd),
    ]
}

fn sample_lookups() -> Vec<Result<FlagLookup, String>> {
    vec![lookup("disabled_ro", 0), lookup("disabled_rw", 1), lookup("enabled_ro", 2), lookup("enabled_rw", 3)]
}

#[test]
fn test_mix_device_config_and_new_storage_flags() {
    let mut flags = sample_flags();
    flags[0].read_write = true;
    flags[0].storage = FlagStorageBackend::DeviceConfig;
    flags[1].read_write = true;
    flags[1].storage = FlagStorageBackend::Aconfigd;
    let config = JavaCodegenConfig {
        codegen_mode: CodegenMode::Production,
        package_fingerprint: 5801144784618221668,
        ..Default::default()
    };
    let error = generate_java_context(TEST_PACKAGE, &flags, &sample_lookups(), &config).err().unwrap();
    assert_eq!(
        error,
        "Package com.android.aconfig.test cannot contain both device_config and new storage stored flags",
    );
}

#[test]
fn test_generate_java_code_force_read_only_optimized() {
    let mut flags = sample_flags();
    for f in flags.iter_mut() {
        f.read_write = false;
    }
    let config = JavaCodegenConfig {
        codegen_mode: CodegenMode::ForceReadOnly,
        package_fingerprint: 5801144784618221668,
        optimize_read_only_getter: true,
        allow_impl_interface_removal: true,
        ..Default::default()
    };
    let context = generate_java_context(TEST_PACKAGE, &flags, &sample_lookups(), &config).ok().unwrap();
    assert!(context.is_read_only_optimized);
    let files = java_output_files(&context);
    assert_eq!(files.len(), 1);
    assert_eq!(java_file_path_of(TEST_PACKAGE, &files[0]), "com/android/aconfig/test/Flags.java");
    let templates = java_templates(&context).ok().unwrap();
    assert_eq!(templates, vec![("Flags.java".to_string(), "Flags.java.template".to_string())]);
}

#[test]
fn production_context_settings() {
    let config = JavaCodegenConfig {
        codegen_mode: CodegenMode::Production,
        package_fingerprint: 5801144784618221668,
        ..Default::default()
    };
    let context =
        generate_java_context(TEST_PACKAGE, &sample_flags(), &sample_lookups(), &config).ok().unwrap();
    assert_eq!(context.package_fingerprint, "0x5081CE7221C77064L");
    assert_eq!(context.package_name, TEST_PACKAGE);
    assert_eq!(context.container, "system");
    assert!(context.is_platform_container);
    assert!(!context.is_test_mode);
    assert!(!context.library_exported);
    assert!(context.runtime_lookup_required);
    assert!(context.preserve_impl_interface);
    assert!(!context.use_device_config);
    assert!(!context.is_read_only_optimized);
    assert_eq!(context.flag_elements.len(), 4);
    assert_eq!(context.overridable_flag_elements.len(), 4);
    assert_eq!(
        context.properties_set,
        vec!["mPropertiesAconfigTest".to_string(), "mPropertiesOtherNamespace".to_string()]
    );
    let namespaces: Vec<&str> = context.namespace_flags.iter().map(|g| g.namespace.as_str()).collect();
    assert_eq!(namespaces, vec!["aconfig_test", "other_namespace"]);
    let first: Vec<&str> =
        context.namespace_flags[0].flags.iter().map(|f| f.flag_name.as_str()).collect();
    assert_eq!(first, vec!["disabled_ro", "enabled_ro", "enabled_rw"]);
    assert_eq!(java_output_files(&context).len(), 5);
    let templates = java_templates(&context).ok().unwrap();
    assert_eq!(
        templates,
        vec![
            ("CustomFeatureFlags.java".to_string(), "CustomFeatureFlags.java.template".to_string()),
            ("FakeFeatureFlagsImpl.java".to_string(), "FakeFeatureFlagsImpl.java.template".to_string()),
            (
                "FeatureFlagsImpl.java".to_string(),
                "FeatureFlagsImpl.new_storage.java.template".to_string()
            ),
            ("FeatureFlags.java".to_string(), "FeatureFlags.java.template".to_string()),
            ("Flags.java".to_string(), "Flags.java.template".to_string()),
        ]
    );
}

#[test]
fn read_only_optimization_keeps_read_write_flags() {
    let config = JavaCodegenConfig {
        codegen_mode: CodegenMode::Production,
        optimize_read_only_getter: true,
        allow_impl_interface_removal: true,
        ..Default::default()
    };
    let context =
        generate_java_context(TEST_PACKAGE, &sample_flags(), &sample_lookups(), &config).ok().unwrap();
    let kept: Vec<&str> =
        context.overridable_flag_elements.iter().map(|f| f.flag_name.as_str()).collect();
    assert_eq!(kept, vec!["disabled_rw", "enabled_rw"]);
    assert!(!context.is_read_only_optimized);
}

#[test]
fn exported_single_file_templates() {
    let config = JavaCodegenConfig {
        codegen_mode: CodegenMode::Exported,
        single_exported_file: true,
        ..Default::default()
    };
    let context =
        generate_java_context(TEST_PACKAGE, &sample_flags(), &sample_lookups(), &config).ok().unwrap();
    assert!(context.library_exported);
    let files = java_output_files(&context);
    assert_eq!(
        files,
        vec![
            "Flags.java".to_string(),
            "FeatureFlags.java".to_string(),
            "FeatureFlagsImpl.java".to_string(),
            "ExportedFlags.java".to_string(),
        ]
    );
    assert_eq!(
        add_feature_flags_impl_template(&context),
        Ok("FeatureFlagsImpl.exported.java.template".to_string())
    );
}

#[test]
fn exported_with_device_config_is_refused() {
    let flags = vec![flag("a_flag", "ns", true, FlagStorageBackend::DeviceConfig)];
    let config = JavaCodegenConfig { codegen_mode: CodegenMode::Exported, ..Default::default() };
    let context = generate_java_context(TEST_PACKAGE, &flags, &vec![lookup("a_flag", 0)], &config)
        .ok()
        .unwrap();
    assert_eq!(
        add_feature_flags_impl_template(&context),
        Err("All exported mode codegen should rely on new storage for safety".to_string())
    );
    assert!(java_templates(&context).is_err());
}

#[test]
fn test_mode_and_legacy_templates() {
    let flags = vec![flag("a_flag", "ns", true, FlagStorageBackend::DeviceConfig)];
    let test_config = JavaCodegenConfig { codegen_mode: CodegenMode::Test, ..Default::default() };
    let context =
        generate_java_context(TEST_PACKAGE, &flags, &vec![lookup("a_flag", 0)], &test_config)
            .ok()
            .unwrap();
    assert!(context.is_test_mode);
    assert_eq!(
        add_feature_flags_impl_template(&context),
        Ok("FeatureFlagsImpl.test_mode.java.template".to_string())
    );
    let production = JavaCodegenConfig::default();
    let context =
        generate_java_context(TEST_PACKAGE, &flags, &vec![lookup("a_flag", 0)], &production)
            .ok()
            .unwrap();
    assert!(context.use_device_config);
    assert_eq!(
        add_feature_flags_impl_template(&context),
        Ok("FeatureFlagsImpl.legacy_flag.internal.java.template".to_string())
    );
}

#[test]
fn lookup_error_is_returned() {
    let lookups = vec![lookup("disabled_ro", 0), Err("flag disabled_rw has no id".to_string())];
    let flags = vec![
        flag("disabled_ro", "aconfig_test", false, FlagStorageBackend::Aconfigd),
        flag("disabled_rw", "aconfig_test", true, FlagStorageBackend::Aconfigd),
    ];
    let error =
        generate_java_context(TEST_PACKAGE, &flags, &lookups, &JavaCodegenConfig::default()).err();
    assert_eq!(error, Some("flag disabled_rw has no id".to_string()));
}

#[test]
fn flag_element_fields() {
    let pf = flag("some_flag_name", "my_namespace", true, FlagStorageBackend::Aconfigd);
    let l = lookup("some_flag_name", 7).ok().unwrap();
    let e = create_flag_element(&pf, &l);
    assert_eq!(e.flag_name_constant_suffix, "SOME_FLAG_NAME");
    assert_eq!(e.method_name, "someFlagName");
    assert_eq!(e.properties, "mPropertiesMyNamespace");
    assert_eq!(e.device_config_flag, "com.android.aconfig.test.some_flag_name");
    assert_eq!(e.device_config_namespace, "my_namespace");
    assert_eq!(e.flag_offset, 7);
    assert!(e.is_read_write);
    assert!(!e.default_value);
    assert_eq!(e.container, "system");
}

#[test]
fn grouping_orders_namespaces() {
    let pf = |n: &str, ns: &str| {
        create_flag_element(&flag(n, ns, false, FlagStorageBackend::Aconfigd), &lookup(n, 0).ok().unwrap())
    };
    let elements = vec![pf("a", "zeta"), pf("b", "alpha"), pf("c", "zeta"), pf("d", "Beta")];
    let groups = gen_flags_by_namespace(&elements);
    let names: Vec<&str> = groups.iter().map(|g| g.namespace.as_str()).collect();
    assert_eq!(names, vec!["Beta", "alpha", "zeta"]);
    let zeta: Vec<&str> = groups[2].flags.iter().map(|f| f.flag_name.as_str()).collect();
    assert_eq!(zeta, vec!["a", "c"]);
    assert!(gen_flags_by_namespace(&vec![]).is_empty());
}

#[test]
fn file_paths() {
    assert_eq!(java_file_path_of("com.android.foo", "Flags.java"), "com/android/foo/Flags.java");
    assert_eq!(java_file_path_of("single", "Flags.java"), "single/Flags.java");
}

#[test]
fn every_flag_in_its_namespace_group_only() {
    let pf = |n: &str, ns: &str| {
        create_flag_element(&flag(n, ns, false, FlagStorageBackend::Aconfigd), &lookup(n, 0).ok().unwrap())
    };
    let elements = vec![pf("a", "n1"), pf("b", "n2"), pf("c", "n1"), pf("d", "n3"), pf("e", "n2")];
    let groups = gen_flags_by_namespace(&elements);
    for e in &elements {
        for g in &groups {
            let holds = g.flags.iter().any(|f| f.flag_name == e.flag_name);
            assert_eq!(holds, g.namespace == e.device_config_namespace);
        }
    }
    let total: usize = groups.iter().map(|g| g.flags.len()).sum();
    assert_eq!(total, elements.len());
}

#[test]
fn file_paths_skip_empty_package_parts() {
    assert_eq!(java_file_path_of("a..b", "Flags.java"), "a/b/Flags.java");
    assert_eq!(java_file_path_of(".a.", "Flags.java"), "a/Flags.java");
}
