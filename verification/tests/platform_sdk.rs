//! Tests of the platform SDK unpacker's decisions.

use build_tools::platform_sdk::{
    api_txt_copy, copy, core_for_system_modules_copy, data_copy, decide_what_to_do, extract,
    find_sdk_zip, jar_copy, symlink, update_android_bp, zip_extract, Operation,
};
use std::io::Cursor;
use zip::{write::SimpleFileOptions, CompressionMethod, ZipWriter};

#[test]
fn test_update_android_bp() {
    let before = r#"
prebuilt_apis {
    name: "sdk",
    api_dirs: [
        "1",
        "2",
        "3",
        "4",
        "4.1",
        "current",
    ],
    extensions_dir: "extensions",
    next_api_dir: "37",
    imports_sdk_version: "none",
    imports_compile_dex: true,
}"#;

    let after = r#"
prebuilt_apis {
    name: "sdk",
    api_dirs: [
        "1",
        "2",
        "3",
        "4",
        "4.1",
        "5",
        "current",
    ],
    extensions_dir: "extensions",
    next_api_dir: "37",
    imports_sdk_version: "none",
    imports_compile_dex: true,
}"#;

    assert_eq!(update_android_bp(before, "5"), Some(after.to_string()));
    assert!(update_android_bp(after, "5").is_none());
}

#[test]
fn update_android_bp_replaces_every_current() {
    assert_eq!(
        update_android_bp("\"current\" \"current\"", "9"),
        Some("\"9\",\n        \"current\" \"9\",\n        \"current\"".to_string())
    );
    assert_eq!(update_android_bp("no level here", "9"), Some("no level here".to_string()));
}

#[test]
fn test_decide_what_to_do() {
    let mut zip_data = Cursor::new(Vec::new());
    let mut writer = ZipWriter::new(&mut zip_data);
    let options = SimpleFileOptions::default()
        .compression_method(CompressionMethod::Stored)
        .unix_permissions(0o755);
    for path in [
        "android-SOMETHING/build.prop",                 // do not extract
        "android-SOMETHING/templates/strings.template", // do not extract
        "android-SOMETHING/android.jar",
        "android-SOMETHING/framework.aidl",
        "android-SOMETHING/uiautomator.jar",
    ] {
        writer.start_file(path, options).unwrap();
    }
    writer.finish().unwrap();

    let files: Vec<_> = [
        "apistubs/android/public/api/art.txt",
        "apistubs/android/public/api/art-removed.txt",
        "apistubs/android/system/api/framework-nfc.txt",
        "apistubs/android/system-server/api/service-art.txt",
        "apistubs/android/module-lib/api/framework-bluetooth.txt",
        "apistubs/android/test/api/android.txt",
        "apistubs/android/private/android.jar", // do not copy
        "apistubs/android/public/android.jar", // expected but will be overwritten by jar from zip
        "apistubs/android/system/android.jar",
        "apistubs/android/system-server/android.jar",
        "apistubs/android/module-lib/android.jar",
        "licensetexts/apistubs/android/system/api/android.txt", // do not copy
        "system-modules/public/core-for-system-modules.jar",
        "system-modules/module-lib/core-for-system-modules.jar",
        "sdk-repo-linux-platforms-BUILD-NUMBER.zip", // do not copy
        "data/api-versions.xml",
        "data/annotations.zip",
        "system-data/api-versions.xml",
        "system-data/annotations.zip",
        "module-lib-data/api-versions.xml",
        "module-lib-data/annotations.zip",
        "system-server-data/api-versions.xml",
        "system-server-data/annotations.zip",
        "finalized-flags.txt",
    ]
    .into_iter()
    .map(|s| s.to_string())
    .collect();

    let mut expected = vec![
        // for scope in 'public', 'system', 'test', 'module-lib', 'system-server':
        //     apistubs/android/${scope}/api/*.txt -> ${scope}/api/*.txt
        copy("apistubs/android/public/api/art.txt", "public/api/art.txt"),
        copy("apistubs/android/public/api/art-removed.txt", "public/api/art-removed.txt"),
        copy("apistubs/android/system/api/framework-nfc.txt", "system/api/framework-nfc.txt"),
        copy(
            "apistubs/android/system-server/api/service-art.txt",
            "system-server/api/service-art.txt",
        ),
        copy(
            "apistubs/android/module-lib/api/framework-bluetooth.txt",
            "module-lib/api/framework-bluetooth.txt",
        ),
        copy("apistubs/android/test/api/android.txt", "test/api/android.txt"),
        // for scope in 'public', 'system', 'test', 'module-lib', 'system-server':
        //     apistubs/android/${scope}/api/*.jar -> ${scope}/*.jar
        copy("apistubs/android/public/android.jar", "public/android.jar"),
        copy("apistubs/android/system/android.jar", "system/android.jar"),
        copy("apistubs/android/system-server/android.jar", "system-server/android.jar"),
        copy("apistubs/android/module-lib/android.jar", "module-lib/android.jar"),
        // special case for system-modules/{public,module-lib}/core-for-system-modules.jar
        copy(
            "system-modules/public/core-for-system-modules.jar",
            "public/core-for-system-modules.jar",
        ),
        copy(
            "system-modules/module-lib/core-for-system-modules.jar",
            "module-lib/core-for-system-modules.jar",
        ),
        // for scope in 'public', 'system', 'module-lib', 'system-server':
        //     {data,system-data,module-lib-data,system-server-data}/{api-versions.xml,annotations.zip} ->
        //     ${scope}/data/{api-versions.xml,annotations.zip}
        copy("data/api-versions.xml", "public/data/api-versions.xml"),
        copy("data/annotations.zip", "public/data/annotations.zip"),
        copy("system-data/api-versions.xml", "system/data/api-versions.xml"),
        copy("system-data/annotations.zip", "system/data/annotations.zip"),
        copy("module-lib-data/api-versions.xml", "module-lib/data/api-versions.xml"),
        copy("module-lib-data/annotations.zip", "module-lib/data/annotations.zip"),
        copy("system-server-data/api-versions.xml", "system-server/data/api-versions.xml"),
        copy("system-server-data/annotations.zip", "system-server/data/annotations.zip"),
        // finalized-flags.txt
        copy("finalized-flags.txt", "finalized-flags.txt"),
        // files extracted from the SDK zip
        extract("android-SOMETHING/android.jar", "public/android.jar"),
        extract("android-SOMETHING/framework.aidl", "public/framework.aidl"),
        extract("android-SOMETHING/uiautomator.jar", "public/uiautomator.jar"),
    ];
    expected.sort_unstable();

    let mut actual = decide_what_to_do(&files, zip_data.get_ref()).unwrap();
    actual.sort_unstable();

    assert_eq!(expected, actual);
}

#[test]
fn decide_what_to_do_rejects_non_zip() {
    let files = vec!["finalized-flags.txt".to_string()];
    assert_eq!(decide_what_to_do(&files, b"junk").unwrap_err(), "parse input as zip archive");
}

#[test]
fn operation_constructors_hold_their_paths() {
    assert_eq!(
        symlink("36", "latest"),
        Operation::Symlink { link_target: "36".to_string(), link_file: "latest".to_string() }
    );
    assert_eq!(
        copy("a", "b"),
        Operation::Copy { src: "a".to_string(), dest: "b".to_string() }
    );
    assert_eq!(
        extract("c", "d"),
        Operation::Extract { src: "c".to_string(), dest: "d".to_string() }
    );
}

#[test]
fn find_sdk_zip_picks_first_platform_zip() {
    let files = vec![
        "data/api-versions.xml".to_string(),
        "sdk-repo-linux-platforms-1234.txt".to_string(),
        "sdk-repo-linux-platforms-1234.zip".to_string(),
        "sdk-repo-linux-platforms-5678.zip".to_string(),
    ];
    assert_eq!(find_sdk_zip(&files), Some("sdk-repo-linux-platforms-1234.zip".to_string()));
    assert_eq!(find_sdk_zip(&vec!["a.zip".to_string()]), None);
}

#[test]
fn update_android_bp_adds_a_level_once() {
    let before = "api_dirs: [\n        \"36\",\n        \"current\",\n    ],";
    let once = update_android_bp(before, "37").unwrap();
    assert_eq!(once, "api_dirs: [\n        \"36\",\n        \"37\",\n        \"current\",\n    ],");
    assert_eq!(update_android_bp(&once, "37"), None);
}

#[test]
fn copies_come_before_extractions() {
    let mut zip_data = Cursor::new(Vec::new());
    let mut writer = ZipWriter::new(&mut zip_data);
    let options = SimpleFileOptions::default().compression_method(CompressionMethod::Stored);
    writer.start_file("android-X/android.jar", options).unwrap();
    writer.finish().unwrap();
    let files = vec!["apistubs/android/public/android.jar".to_string(), "finalized-flags.txt".to_string()];
    let ops = decide_what_to_do(&files, zip_data.get_ref()).unwrap();
    assert_eq!(
        ops,
        vec![
            copy("apistubs/android/public/android.jar", "public/android.jar"),
            copy("finalized-flags.txt", "finalized-flags.txt"),
            extract("android-X/android.jar", "public/android.jar"),
        ]
    );
}

#[test]
fn copies_from_groups() {
    assert_eq!(
        api_txt_copy("apistubs/android/public/api/art.txt", "public", "art.txt"),
        copy("apistubs/android/public/api/art.txt", "public/api/art.txt")
    );
    assert_eq!(
        jar_copy("apistubs/android/system/android.jar", "system", "android.jar"),
        copy("apistubs/android/system/android.jar", "system/android.jar")
    );
    assert_eq!(
        core_for_system_modules_copy("system-modules/public/core-for-system-modules.jar", "public"),
        copy(
            "system-modules/public/core-for-system-modules.jar",
            "public/core-for-system-modules.jar"
        )
    );
    assert_eq!(
        data_copy("data/api-versions.xml", "", "api-versions.xml"),
        copy("data/api-versions.xml", "public/data/api-versions.xml")
    );
    assert_eq!(
        data_copy("system-data/annotations.zip", "system", "annotations.zip"),
        copy("system-data/annotations.zip", "system/data/annotations.zip")
    );
    assert_eq!(
        zip_extract("android-X/framework.aidl", "framework.aidl"),
        extract("android-X/framework.aidl", "public/framework.aidl")
    );
}
