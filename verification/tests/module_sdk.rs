//! Tests of the module SDK unpacker's decisions.

use build_tools::module_sdk::{
    extension_copy, is_ignored, module_unpack_ops, process_module_sdk,
    process_platform_sdk_extensions, tweak_filename, zip_module_project,
};
use std::collections::HashSet;
use std::io::{Cursor, Seek, Write};
use zip::{write::SimpleFileOptions, CompressionMethod, ZipWriter};

fn write_test_zip_archive<W: Write + Seek>(buf: W) -> W {
    let mut zip = ZipWriter::new(buf);
    let options = SimpleFileOptions::default()
        .compression_method(CompressionMethod::Stored)
        .unix_permissions(0o755);

    for path in [
        "Android.bp",
        "hiddenapi/annotation-flags.csv",
        "hiddenapi/filtered-flags.csv",
        "hiddenapi/filtered-stub-flags.csv",
        "hiddenapi/index.csv",
        "hiddenapi/metadata.csv",
        "hiddenapi/signature-patterns.csv",
        "licenses/build/soong/licenses/LICENSE",
        "licenses/build/soong/licenses/opensourcerequest",
        "sdk_library/module-lib/framework-sdkextensions-removed.txt",
        "sdk_library/module-lib/framework-sdkextensions-stubs.jar",
        "sdk_library/module-lib/framework-sdkextensions.srcjar",
        "sdk_library/module-lib/framework-sdkextensions.txt",
        "sdk_library/module-lib/framework-sdkextensions_annotations.zip",
        "sdk_library/public/framework-sdkextensions-removed.txt",
        "sdk_library/public/framework-sdkextensions-stubs.jar",
        "sdk_library/public/framework-sdkextensions.srcjar",
        "sdk_library/public/framework-sdkextensions.txt",
        "sdk_library/public/framework-sdkextensions_annotations.zip",
        "sdk_library/system/framework-sdkextensions-removed.txt",
        "sdk_library/system/framework-sdkextensions-stubs.jar",
        "sdk_library/system/framework-sdkextensions.srcjar",
        "sdk_library/system/framework-sdkextensions.txt",
        "sdk_library/system/framework-sdkextensions_annotations.zip",
        "snapshot-creation-build-number.txt",
    ] {
        zip.start_file(path, options).unwrap();
    }

    zip.finish().unwrap()
}

fn test_zip_bytes() -> Vec<u8> {
    write_test_zip_archive(Cursor::new(Vec::new())).into_inner()
}

#[test]
fn test_process_module_sdk() {
    let expected = HashSet::from([
        ("Android.bp", "Android.bp.auto"),
        ("hiddenapi/annotation-flags.csv", "hiddenapi/annotation-flags.csv"),
        ("hiddenapi/filtered-flags.csv", "hiddenapi/filtered-flags.csv"),
        ("hiddenapi/filtered-stub-flags.csv", "hiddenapi/filtered-stub-flags.csv"),
        ("hiddenapi/index.csv", "hiddenapi/index.csv"),
        ("hiddenapi/metadata.csv", "hiddenapi/metadata.csv"),
        ("hiddenapi/signature-patterns.csv", "hiddenapi/signature-patterns.csv"),
        ("licenses/build/soong/licenses/LICENSE", "licenses/build/soong/licenses/LICENSE"),
        (
            "licenses/build/soong/licenses/opensourcerequest",
            "licenses/build/soong/licenses/opensourcerequest",
        ),
        (
            "sdk_library/module-lib/framework-sdkextensions-removed.txt",
            "sdk_library/module-lib/framework-sdkextensions-removed.txt",
        ),
        (
            "sdk_library/module-lib/framework-sdkextensions-stubs.jar",
            "sdk_library/module-lib/framework-sdkextensions-stubs.jar",
        ),
        (
            "sdk_library/module-lib/framework-sdkextensions.srcjar",
            "sdk_library/module-lib/framework-sdkextensions.srcjar",
        ),
        (
            "sdk_library/module-lib/framework-sdkextensions.txt",
            "sdk_library/module-lib/framework-sdkextensions.txt",
        ),
        (
            "sdk_library/module-lib/framework-sdkextensions_annotations.zip",
            "sdk_library/module-lib/framework-sdkextensions_annotations.zip",
        ),
        (
            "sdk_library/public/framework-sdkextensions-removed.txt",
            "sdk_library/public/framework-sdkextensions-removed.txt",
        ),
        (
            "sdk_library/public/framework-sdkextensions-stubs.jar",
            "sdk_library/public/framework-sdkextensions-stubs.jar",
        ),
        (
            "sdk_library/public/framework-sdkextensions.srcjar",
            "sdk_library/public/framework-sdkextensions.srcjar",
        ),
        (
            "sdk_library/public/framework-sdkextensions.txt",
            "sdk_library/public/framework-sdkextensions.txt",
        ),
        (
            "sdk_library/public/framework-sdkextensions_annotations.zip",
            "sdk_library/public/framework-sdkextensions_annotations.zip",
        ),
        (
            "sdk_library/system/framework-sdkextensions-removed.txt",
            "sdk_library/system/framework-sdkextensions-removed.txt",
        ),
        (
            "sdk_library/system/framework-sdkextensions-stubs.jar",
            "sdk_library/system/framework-sdkextensions-stubs.jar",
        ),
        (
            "sdk_library/system/framework-sdkextensions.srcjar",
            "sdk_library/system/framework-sdkextensions.srcjar",
        ),
        (
            "sdk_library/system/framework-sdkextensions.txt",
            "sdk_library/system/framework-sdkextensions.txt",
        ),
        (
            "sdk_library/system/framework-sdkextensions_annotations.zip",
            "sdk_library/system/framework-sdkextensions_annotations.zip",
        ),
        ("snapshot-creation-build-number.txt", "snapshot-creation-build-number.txt"),
    ]);
    let zip = test_zip_bytes();
    let actual = process_module_sdk(&zip).unwrap();
    let actual: HashSet<(&str, &str)> =
        actual.iter().map(|(k, v)| (k.as_str(), v.as_str())).collect();
    assert_eq!(actual, expected);
}

#[test]
fn test_process_platform_sdk_extensions() {
    let expected: HashSet<(&str, &str)> = HashSet::from([
        (
            "sdk_library/module-lib/framework-sdkextensions-removed.txt",
            "module-lib/api/framework-sdkextensions-removed.txt",
        ),
        (
            "sdk_library/module-lib/framework-sdkextensions.txt",
            "module-lib/api/framework-sdkextensions.txt",
        ),
        (
            "sdk_library/module-lib/framework-sdkextensions-stubs.jar",
            "module-lib/framework-sdkextensions.jar",
        ),
        (
            "sdk_library/public/framework-sdkextensions-removed.txt",
            "public/api/framework-sdkextensions-removed.txt",
        ),
        (
            "sdk_library/public/framework-sdkextensions.txt",
            "public/api/framework-sdkextensions.txt",
        ),
        (
            "sdk_library/public/framework-sdkextensions-stubs.jar",
            "public/framework-sdkextensions.jar",
        ),
        (
            "sdk_library/system/framework-sdkextensions-removed.txt",
            "system/api/framework-sdkextensions-removed.txt",
        ),
        (
            "sdk_library/system/framework-sdkextensions.txt",
            "system/api/framework-sdkextensions.txt",
        ),
        (
            "sdk_library/system/framework-sdkextensions-stubs.jar",
            "system/framework-sdkextensions.jar",
        ),
    ]);
    let zip = test_zip_bytes();
    let actual = process_platform_sdk_extensions(&zip).unwrap();
    let actual: HashSet<(&str, &str)> =
        actual.iter().map(|(src, dest)| (src.as_str(), dest.as_str())).collect();
    assert_eq!(actual, expected);
}

#[test]
fn process_module_sdk_rejects_non_zip() {
    assert_eq!(process_module_sdk(b"not a zip").unwrap_err(), "parse input as zip archive");
    assert_eq!(
        process_platform_sdk_extensions(b"not a zip").unwrap_err(),
        "parse input as zip archive"
    );
}

#[test]
fn tweak_filename_renames_legacy_names() {
    assert_eq!(tweak_filename("art.module.public.api.txt"), "art.txt");
    assert_eq!(tweak_filename("conscrypt.module.public.api-stubs.jar"), "conscrypt.jar");
    assert_eq!(tweak_filename("framework-stubs-stubs.jar"), "framework.jar");
    assert_eq!(tweak_filename("plain.txt"), "plain.txt");
}

#[test]
fn is_ignored_matches_conscrypt_tracking_files() {
    assert!(is_ignored("conscrypt.module.intra.core.api.txt"));
    assert!(is_ignored("conscrypt.module.platform.api-removed.txt"));
    assert!(!is_ignored("conscrypt.module.public.api.txt"));
    assert!(!is_ignored("xconscrypt.module.platform.api.txt"));
}

fn module_info() -> Vec<(String, String)> {
    vec![
        ("com.android.appsearch".to_string(), "prebuilts/module_sdk/AppSearch".to_string()),
        ("com.android.sdkext".to_string(), "prebuilts/module_sdk/SdkExtensions".to_string()),
    ]
}

#[test]
fn module_unpack_places_entries() {
    let zip_path = "/out/mainline-sdks/for-next-build/current/com.android.sdkext/sdk/sdkextensions-sdk.zip";
    let project = zip_module_project(zip_path, &module_info()).unwrap();
    assert_eq!(project, "prebuilts/module_sdk/SdkExtensions");
    let ops = module_unpack_ops(&project, "/android", 17, &test_zip_bytes()).unwrap();
    assert_eq!(ops.len(), 25 + 9);
    assert_eq!(
        ops[0],
        (
            "Android.bp".to_string(),
            "/android/prebuilts/module_sdk/SdkExtensions/17/Android.bp.auto".to_string()
        )
    );
    let ops: HashSet<(String, String)> = ops.into_iter().collect();
    assert!(ops.contains(&(
        "hiddenapi/index.csv".to_string(),
        "/android/prebuilts/module_sdk/SdkExtensions/17/hiddenapi/index.csv".to_string()
    )));
    assert!(ops.contains(&(
        "sdk_library/public/framework-sdkextensions.txt".to_string(),
        "/android/prebuilts/sdk/extensions/17/public/api/framework-sdkextensions.txt".to_string()
    )));
    assert!(ops.contains(&(
        "sdk_library/system/framework-sdkextensions-stubs.jar".to_string(),
        "/android/prebuilts/sdk/extensions/17/system/framework-sdkextensions.jar".to_string()
    )));
}

#[test]
fn module_unpack_errors() {
    let unlisted = "/out/mainline-sdks/for-next-build/current/com.android.wifi/sdk/wifi-sdk.zip";
    assert_eq!(
        zip_module_project(unlisted, &module_info()),
        Err("com.android.wifi found in module SDK dir but not listed in mainline-modules-info.json"
            .to_string())
    );
    assert_eq!(
        zip_module_project("/out/other/file.zip", &module_info()),
        Err("regex does not match string \"/out/other/file.zip\"".to_string())
    );
    assert_eq!(
        module_unpack_ops("prebuilts/module_sdk/AppSearch", "/android", 17, b"not a zip"),
        Err("parse input as zip archive".to_string())
    );
}

#[test]
fn extension_copy_from_groups() {
    assert_eq!(
        extension_copy(
            "sdk_library/public/art.module.public.api.txt",
            "public",
            "art.module.public.api.txt"
        ),
        Some((
            "sdk_library/public/art.module.public.api.txt".to_string(),
            "public/api/art.txt".to_string()
        ))
    );
    assert_eq!(
        extension_copy("sdk_library/system/foo-stubs.jar", "system", "foo-stubs.jar"),
        Some(("sdk_library/system/foo-stubs.jar".to_string(), "system/foo.jar".to_string()))
    );
    assert_eq!(
        extension_copy(
            "sdk_library/public/conscrypt.module.platform.api.txt",
            "public",
            "conscrypt.module.platform.api.txt"
        ),
        None
    );
}
