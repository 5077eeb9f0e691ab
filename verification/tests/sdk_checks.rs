//! Tests of the consistency checks of an API database.

use build_tools::sdk_checks::{
    check_version_msg, no_adservices_ext_crossover, no_deprecated_after_last_known,
    no_deprecated_at_birth, validate_sdk_string, Api, ApiClass, ApiMember, MajorMinorVersion,
};

fn v(major: u32, minor: u32) -> MajorMinorVersion {
    MajorMinorVersion { major, minor }
}

fn member(
    name: &str,
    since: Option<MajorMinorVersion>,
    deprecated: Option<MajorMinorVersion>,
    sdks: Option<&str>,
) -> ApiMember {
    ApiMember { name: name.to_string(), since, deprecated, sdks: sdks.map(|s| s.to_string()) }
}

fn sample_api() -> Api {
    Api {
        classes: vec![
            ApiClass {
                name: "android/app/Foo".to_string(),
                since: v(30, 0),
                deprecated: Some(v(30, 0)),
                sdks: Some("0:30".to_string()),
                fields: vec![
                    member("FIELD_A", None, Some(v(30, 0)), None),
                    member("FIELD_B", Some(v(31, 0)), Some(v(32, 0)), Some("1000000:1,0:31")),
                ],
                methods: vec![
                    member("bar()V", Some(v(37, 1)), Some(v(37, 1)), Some("1000000:1,30:2")),
                    member("baz()V", Some(v(33, 0)), None, None),
                ],
            },
            ApiClass {
                name: "android/app/Qux".to_string(),
                since: v(36, 0),
                deprecated: None,
                sdks: Some("1000000:4,31:4".to_string()),
                fields: vec![],
                methods: vec![member("q()V", None, Some(v(36, 0)), None)],
            },
        ],
    }
}

#[test]
fn major_minor_version_text_and_order() {
    assert_eq!(v(36, 1).to_string(), "36.1");
    assert_eq!(v(0, 0).to_string(), "0.0");
    assert!(v(36, 1).is_greater_than(&v(36, 0)));
    assert!(v(37, 0).is_greater_than(&v(36, 9)));
    assert!(!v(36, 0).is_greater_than(&v(36, 0)));
    assert!(!v(35, 9).is_greater_than(&v(36, 0)));
}

#[test]
fn check_version_msg_reports_later_versions_only() {
    assert_eq!(
        check_version_msg(Some(v(37, 1)), v(36, 1), "Class 'A', attribute 'since'".to_string()),
        Some(
            "Class 'A', attribute 'since': SDK version \"37.1\" is greater than the maximum allowed \"36.1\""
                .to_string()
        )
    );
    assert_eq!(check_version_msg(Some(v(36, 1)), v(36, 1), "ctx".to_string()), None);
    assert_eq!(check_version_msg(Some(v(36, 0)), v(36, 1), "ctx".to_string()), None);
    assert_eq!(check_version_msg(None, v(36, 1), "ctx".to_string()), None);
}

#[test]
fn deprecated_at_birth_problems_in_order() {
    let api = sample_api();
    let problems = no_deprecated_at_birth(&api, &vec![]);
    assert_eq!(
        problems,
        vec![
            "android/app/Foo 30.0".to_string(),
            "android/app/Foo#FIELD_A 30.0".to_string(),
            "android/app/Foo#bar()V 37.1".to_string(),
            "android/app/Qux#q()V 36.0".to_string(),
        ]
    );
}

#[test]
fn deprecated_at_birth_allowlist_silences_entries() {
    let api = sample_api();
    let allowlist = vec!["android/app/Foo 30.0".to_string(), "android/app/Qux#q()V 36.0".to_string()];
    let problems = no_deprecated_at_birth(&api, &allowlist);
    assert_eq!(
        problems,
        vec!["android/app/Foo#FIELD_A 30.0".to_string(), "android/app/Foo#bar()V 37.1".to_string()]
    );
}

#[test]
fn versions_after_last_known() {
    let api = sample_api();
    let problems = no_deprecated_after_last_known(&api, v(36, 0));
    assert_eq!(
        problems,
        vec![
            "Class 'android/app/Foo', method 'bar()V', attribute 'since': SDK version \"37.1\" is greater than the maximum allowed \"36.0\"".to_string(),
            "Class 'android/app/Foo', method 'bar()V', attribute 'deprecated': SDK version \"37.1\" is greater than the maximum allowed \"36.0\"".to_string(),
        ]
    );
    assert!(no_deprecated_after_last_known(&api, v(37, 1)).is_empty());
}

#[test]
fn versions_after_last_known_of_a_class() {
    let api = Api {
        classes: vec![ApiClass {
            name: "C".to_string(),
            since: v(38, 0),
            deprecated: Some(v(38, 1)),
            sdks: None,
            fields: vec![member("F", Some(v(39, 0)), None, None)],
            methods: vec![],
        }],
    };
    let problems = no_deprecated_after_last_known(&api, v(37, 0));
    assert_eq!(
        problems,
        vec![
            "Class 'C', attribute 'since': SDK version \"38.0\" is greater than the maximum allowed \"37.0\"".to_string(),
            "Class 'C', attribute 'deprecated': SDK version \"38.1\" is greater than the maximum allowed \"37.0\"".to_string(),
            "Class 'C', field 'F', attribute 'since': SDK version \"39.0\" is greater than the maximum allowed \"37.0\"".to_string(),
        ]
    );
}

#[test]
fn validate_sdk_string_cases() {
    assert_eq!(validate_sdk_string(&"0:36".to_string()), Ok(String::new()));
    assert_eq!(validate_sdk_string(&"1000000:1".to_string()), Ok(String::new()));
    assert_eq!(validate_sdk_string(&"1000000:1,0:34".to_string()), Ok(String::new()));
    assert_eq!(validate_sdk_string(&"30:2,31:2".to_string()), Ok(String::new()));
    assert_eq!(
        validate_sdk_string(&"1000000:1,30:2".to_string()),
        Err("Found extra extension value in addition to adservices: 1000000:1,30:2".to_string())
    );
    assert_eq!(
        validate_sdk_string(&"0:34,31:1,1000000:1".to_string()),
        Err("Found extra extension value in addition to adservices: 0:34,31:1,1000000:1".to_string())
    );
}

#[test]
fn adservices_crossover_problems_in_order() {
    let api = sample_api();
    let problems = no_adservices_ext_crossover(&api);
    assert_eq!(
        problems,
        vec![
            "Found extra extension value in addition to adservices: 1000000:1,30:2".to_string(),
            "Found extra extension value in addition to adservices: 1000000:4,31:4".to_string(),
        ]
    );
}

#[test]
fn empty_api_has_no_problems() {
    let api = Api { classes: vec![] };
    assert!(no_deprecated_at_birth(&api, &vec![]).is_empty());
    assert!(no_deprecated_after_last_known(&api, v(1, 0)).is_empty());
    assert!(no_adservices_ext_crossover(&api).is_empty());
}
