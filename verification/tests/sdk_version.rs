//! Tests of SDK version parsing, ordering and display.

use build_tools::sdk_version::SdkVersion;

#[test]
fn sdk_version_try_from_string() {
    assert_eq!(("32").parse::<SdkVersion>().unwrap(), SdkVersion { major: 32, minor: 0 });
    assert_eq!("32.0".parse::<SdkVersion>().unwrap(), SdkVersion { major: 32, minor: 0 });
    assert_eq!("48.64".parse::<SdkVersion>().unwrap(), SdkVersion { major: 48, minor: 64 });

    assert_eq!(
        "48.64.0".parse::<SdkVersion>().unwrap_err(),
        "failed to convert '48.64.0' to SdkVersion".to_string()
    );
    assert_eq!(
        "".parse::<SdkVersion>().unwrap_err(),
        "failed to convert '' to SdkVersion".to_string()
    );
    assert_eq!(
        "foo".parse::<SdkVersion>().unwrap_err(),
        "failed to convert 'foo' to SdkVersion".to_string()
    );
}

#[test]
fn sdk_version_ordering() {
    assert!("10".parse::<SdkVersion>().unwrap() < "11".parse::<SdkVersion>().unwrap());
    assert!("10".parse::<SdkVersion>().unwrap() < "11.1".parse::<SdkVersion>().unwrap());
    assert!("32.1".parse::<SdkVersion>().unwrap() < "32.2".parse::<SdkVersion>().unwrap());

    assert!("32".parse::<SdkVersion>().unwrap() == "32".parse::<SdkVersion>().unwrap());
    assert!("32".parse::<SdkVersion>().unwrap() == "32.0".parse::<SdkVersion>().unwrap());
    assert!("32.1".parse::<SdkVersion>().unwrap() == "32.1".parse::<SdkVersion>().unwrap());
}

#[test]
fn sdk_version_display() {
    assert_eq!("10".parse::<SdkVersion>().unwrap().to_string(), "10.0");
    assert_eq!("32.64".parse::<SdkVersion>().unwrap().to_string(), "32.64");
}

#[test]
fn sdk_version_parse_edge_cases() {
    assert_eq!("+7".parse::<SdkVersion>().unwrap(), SdkVersion { major: 7, minor: 0 });
    assert_eq!("007.010".parse::<SdkVersion>().unwrap(), SdkVersion { major: 7, minor: 10 });
    assert_eq!(
        "4294967295.1".parse::<SdkVersion>().unwrap(),
        SdkVersion { major: 4294967295, minor: 1 }
    );
    assert!("4294967296".parse::<SdkVersion>().is_err());
    assert!("-1".parse::<SdkVersion>().is_err());
    assert!("+".parse::<SdkVersion>().is_err());
    assert!("1.".parse::<SdkVersion>().is_err());
    assert!(".1".parse::<SdkVersion>().is_err());
    assert!("1 ".parse::<SdkVersion>().is_err());
}

#[test]
fn sdk_version_text_round_trips() {
    for v in [SdkVersion { major: 0, minor: 0 }, SdkVersion { major: 36, minor: 1 }, SdkVersion {
        major: u32::MAX,
        minor: u32::MAX,
    }] {
        assert_eq!(v.to_string().parse::<SdkVersion>().unwrap(), v);
    }
}
