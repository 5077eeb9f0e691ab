//! Tests of the flag value and flag info file formats.

use build_tools::flag_info::{FlagInfoHeader, FlagInfoList, FlagInfoNode};
use build_tools::flag_value::{FlagValueHeader, FlagValueList};
use build_tools::flag_value_query::{find_boolean_flag_value, find_int64_flag_value};
use build_tools::flag_value_update::{update_boolean_flag_value, update_int64_flag_value};
use build_tools::storage_file::{
    read_u32_from_bytes, StorageFileType, DEFAULT_FILE_VERSION, MAX_SUPPORTED_FILE_VERSION,
};

fn create_test_flag_value_list(version: u32) -> FlagValueList {
    let (num_int_flags, int_value_offset, file_size, header_len) =
        if version == 4 { (8, 43, 107, 35) } else { (0, 0, 35, 27) };
    let header = FlagValueHeader {
        version,
        container: String::from("mockup"),
        file_type: StorageFileType::FlagVal.code(),
        file_size,
        num_boolean_flags: 8,
        boolean_value_offset: header_len,
        num_int_flags,
        int_value_offset,
    };
    let booleans: Vec<bool> = vec![false, true, true, false, true, true, true, true];
    let ints: Vec<i64> = if version == 4 { (0..8).collect() } else { vec![] };
    FlagValueList { header, booleans, ints }
}

fn create_test_flag_info_list(version: u32) -> FlagInfoList {
    let (num_int_flags, int_flag_offset, file_size, header_len) =
        if version == 4 { (8, 43, 51, 35) } else { (0, 0, 35, 27) };
    let header = FlagInfoHeader {
        version,
        container: String::from("mockup"),
        file_type: StorageFileType::FlagInfo.code(),
        file_size,
        num_boolean_flags: 8,
        boolean_flag_offset: header_len,
        num_int_flags,
        int_flag_offset,
    };
    let is_flag_rw = [true, false, true, true, false, false, false, true];
    let boolean_nodes: Vec<FlagInfoNode> =
        is_flag_rw.iter().map(|&rw| FlagInfoNode::create(rw)).collect();
    let int_nodes: Vec<FlagInfoNode> = if version == 4 {
        [false, true, false, false, true, true, false, true]
            .iter()
            .map(|&rw| FlagInfoNode::create(rw))
            .collect()
    } else {
        vec![]
    };
    FlagInfoList { header, boolean_nodes, int_nodes }
}

// this test point locks down the value list serialization
#[test]
fn flag_info_test_serialization() {
    for file_version in 1..=MAX_SUPPORTED_FILE_VERSION {
        let flag_info_list = create_test_flag_info_list(file_version);

        let header: &FlagInfoHeader = &flag_info_list.header;
        let reinterpreted_header = FlagInfoHeader::from_bytes(&header.into_bytes());
        assert!(reinterpreted_header.is_ok());
        assert_eq!(header, &reinterpreted_header.unwrap());

        let boolean_nodes: &Vec<FlagInfoNode> = &flag_info_list.boolean_nodes;
        for node in boolean_nodes.iter() {
            let reinterpreted_node = FlagInfoNode::from_bytes(&node.into_bytes()).unwrap();
            assert_eq!(node, &reinterpreted_node);
        }

        let int_nodes = &flag_info_list.int_nodes;
        for node in int_nodes.iter() {
            let reinterpreted_node = FlagInfoNode::from_bytes(&node.into_bytes()).unwrap();
            assert_eq!(node, &reinterpreted_node);
        }

        let flag_info_bytes = flag_info_list.into_bytes();
        let reinterpreted_info_list = FlagInfoList::from_bytes(&flag_info_bytes);
        assert!(reinterpreted_info_list.is_ok());
        assert_eq!(&flag_info_list, &reinterpreted_info_list.unwrap());
        assert_eq!(flag_info_bytes.len() as u32, header.file_size);
    }
}

// this test point locks down that version number should be at the top of serialized
// bytes
#[test]
fn flag_info_test_version_number() {
    let flag_info_list = create_test_flag_info_list(DEFAULT_FILE_VERSION);
    let bytes = &flag_info_list.into_bytes();
    let mut head = 0;
    let version_from_file = read_u32_from_bytes(bytes, &mut head).unwrap();
    assert_eq!(version_from_file, DEFAULT_FILE_VERSION);
}

// this test point locks down file type check
#[test]
fn flag_info_test_file_type_check() {
    let mut flag_info_list = create_test_flag_info_list(DEFAULT_FILE_VERSION);
    flag_info_list.header.file_type = 123u8;
    let error = FlagInfoList::from_bytes(&flag_info_list.into_bytes()).unwrap_err();
    assert!(error.debug_string().starts_with("BytesParseFail(binary file is not a flag info file"));
}

// this test point locks down the value list serialization
#[test]
fn flag_value_test_serialization() {
    for file_version in 1..=MAX_SUPPORTED_FILE_VERSION {
        let flag_value_list = create_test_flag_value_list(file_version);

        let header: &FlagValueHeader = &flag_value_list.header;
        let reinterpreted_header = FlagValueHeader::from_bytes(&header.to_bytes());
        assert!(reinterpreted_header.is_ok());
        assert_eq!(header, &reinterpreted_header.unwrap());

        let flag_value_bytes = flag_value_list.into_bytes();
        let reinterpreted_value_list = FlagValueList::from_bytes(&flag_value_bytes);
        assert!(reinterpreted_value_list.is_ok());
        assert_eq!(&flag_value_list, &reinterpreted_value_list.unwrap());
        assert_eq!(flag_value_bytes.len() as u32, header.file_size);
    }
}

// this test point locks down that version number should be at the top of serialized
// bytes
#[test]
fn flag_value_test_version_number() {
    let flag_value_list = create_test_flag_value_list(DEFAULT_FILE_VERSION);
    let bytes = &flag_value_list.into_bytes();
    let mut head = 0;
    let version_from_file = read_u32_from_bytes(bytes, &mut head).unwrap();
    assert_eq!(version_from_file, DEFAULT_FILE_VERSION);
}

// this test point locks down file type check
#[test]
fn flag_value_test_file_type_check() {
    let mut flag_value_list = create_test_flag_value_list(DEFAULT_FILE_VERSION);
    flag_value_list.header.file_type = 123u8;
    let error = FlagValueList::from_bytes(&flag_value_list.into_bytes()).unwrap_err();
    assert!(error.debug_string().starts_with("BytesParseFail(binary file is not a flag value file"));
}

#[test]
fn test_get_offset_for_boolean_flag() {
    let flag_value_list = create_test_flag_value_list(2);
    let header: &FlagValueHeader = &flag_value_list.header;

    let offset = header.get_offset_for_boolean_flag(3).unwrap();

    // Boolean offset is 27 + 3 * 1 = 30.
    assert_eq!(offset, 30usize);
    // 3rd-index boolean is false.
    assert!(!flag_value_list.booleans[3]);
}

#[test]
fn test_get_offset_for_boolean_flag_error() {
    let flag_value_list = create_test_flag_value_list(2);
    let header: &FlagValueHeader = &flag_value_list.header;

    let err = header.get_offset_for_boolean_flag(99);

    let text = format!("Err({})", err.unwrap_err().debug_string());
    assert!(text
        .starts_with("Err(InvalidStorageFileOffset(Flag value offset goes beyond the end of the file."));
}

#[test]
fn test_get_offset_for_int_flag() {
    let flag_value_list = create_test_flag_value_list(4);
    let header: &FlagValueHeader = &flag_value_list.header;

    let offset = header.get_offset_for_int_flag(3).unwrap();

    // Int offset is 43 + 3 * 8 = 67.
    assert_eq!(offset, 67usize);
    // 3rd-index int is 3.
    assert_eq!(flag_value_list.ints[3], 3);
}

#[test]
fn test_get_offset_for_int_flag_error() {
    let flag_value_list = create_test_flag_value_list(4);
    let header: &FlagValueHeader = &flag_value_list.header;

    let err = header.get_offset_for_int_flag(99);

    let text = format!("Err({})", err.unwrap_err().debug_string());
    assert!(text
        .starts_with("Err(InvalidStorageFileOffset(Flag value offset goes beyond the end of the file."));
}

#[test]
// this test point locks down flag value query
fn test_flag_value_query() {
    for version in 1..=MAX_SUPPORTED_FILE_VERSION {
        let flag_value_list = create_test_flag_value_list(version).into_bytes();
        let baseline: Vec<bool> = vec![false, true, true, false, true, true, true, true];
        for (offset, expected_value) in baseline.into_iter().enumerate() {
            let flag_value = find_boolean_flag_value(&flag_value_list[..], offset as u32).unwrap();
            assert_eq!(flag_value, expected_value);
        }
    }
}

#[test]
fn test_int64_flag_value_query() {
    let flag_value_list = create_test_flag_value_list(4).into_bytes();
    let baseline: Vec<i64> = vec![0, 1, 2, 3, 4, 5, 6, 7];
    for (offset, expected_value) in baseline.into_iter().enumerate() {
        let flag_value = find_int64_flag_value(&flag_value_list[..], offset as u32).unwrap();
        assert_eq!(flag_value, expected_value);
    }
}

#[test]
// this test point locks down query beyond the end of boolean section
fn flag_value_query_test_boolean_out_of_range() {
    for version in 1..=MAX_SUPPORTED_FILE_VERSION {
        let flag_value_list = create_test_flag_value_list(version).into_bytes();
        let error = find_boolean_flag_value(&flag_value_list[..], 8).unwrap_err();
        assert!(error
            .debug_string()
            .starts_with("InvalidStorageFileOffset(Flag value offset goes beyond"));
    }
}

#[test]
// this test point locks down query beyond the end of int64 section
fn test_int64_out_of_range() {
    let flag_value_list = create_test_flag_value_list(4).into_bytes();
    let error = find_int64_flag_value(&flag_value_list[..], 8).unwrap_err();
    assert!(error.debug_string().starts_with(
        "InvalidStorageFileOffset(Flag value offset goes beyond the end of the file."
    ));
}

#[test]
// this test point locks down query error when file has a higher version
fn flag_value_query_test_higher_version_storage_file() {
    for version in 1..=MAX_SUPPORTED_FILE_VERSION {
        let mut value_list = create_test_flag_value_list(version);
        value_list.header.version = MAX_SUPPORTED_FILE_VERSION + 1;
        let flag_value = value_list.into_bytes();
        let error = find_boolean_flag_value(&flag_value[..], 4).unwrap_err();
        assert!(error.debug_string().starts_with(&format!(
            "HigherStorageFileVersion(Cannot read storage file with a higher version of {} with lib version {}",
            MAX_SUPPORTED_FILE_VERSION + 1,
            MAX_SUPPORTED_FILE_VERSION
        )));
    }
}

#[test]
// this test point locks down flag value update
fn test_boolean_flag_value_update() {
    let flag_value_list = create_test_flag_value_list(DEFAULT_FILE_VERSION);
    let value_offset = flag_value_list.header.boolean_value_offset;
    let mut content = flag_value_list.into_bytes();
    let true_byte = u8::from(true).to_le_bytes()[0];
    let false_byte = u8::from(false).to_le_bytes()[0];

    for i in 0..flag_value_list.header.num_boolean_flags {
        let offset = (value_offset + i) as usize;
        update_boolean_flag_value(&mut content, i, true).unwrap();
        assert_eq!(content[offset], true_byte);
        update_boolean_flag_value(&mut content, i, false).unwrap();
        assert_eq!(content[offset], false_byte);
    }
}

#[test]
fn test_int_flag_value_update() {
    let flag_value_list = create_test_flag_value_list(4);
    let value_offset = flag_value_list.header.int_value_offset;
    let mut content = flag_value_list.into_bytes();

    let flag_value: i64 = 99;
    for i in 0..flag_value_list.header.num_int_flags {
        let offset = (value_offset + (i * 8)) as usize;
        update_int64_flag_value(&mut content, i, flag_value).unwrap();
        let updated_bytes: [u8; 8] = content[offset..offset + 8].try_into().unwrap();
        assert_eq!(i64::from_le_bytes(updated_bytes), flag_value);
    }
}

#[test]
// this test point locks down update beyond the end of boolean section
fn flag_value_update_test_boolean_out_of_range() {
    let mut flag_value_list = create_test_flag_value_list(DEFAULT_FILE_VERSION).into_bytes();
    let error = update_boolean_flag_value(&mut flag_value_list[..], 8, true).unwrap_err();
    assert!(error.debug_string().starts_with(
        "InvalidStorageFileOffset(Flag value offset goes beyond the end of the file."
    ));
}

#[test]
// this test point locks down update beyond the end of int section
fn test_int_out_of_range() {
    let mut flag_value_list = create_test_flag_value_list(4).into_bytes();
    let error = update_int64_flag_value(&mut flag_value_list[..], 8, 1).unwrap_err();
    assert!(error.debug_string().starts_with(
        "InvalidStorageFileOffset(Flag value offset goes beyond the end of the file."
    ));
}

#[test]
// this test point locks down query error when file has a higher version
fn flag_value_update_test_higher_version_storage_file() {
    let mut value_list = create_test_flag_value_list(DEFAULT_FILE_VERSION);
    value_list.header.version = MAX_SUPPORTED_FILE_VERSION + 8;
    let mut flag_value = value_list.into_bytes();
    let error = update_boolean_flag_value(&mut flag_value[..], 4, true).unwrap_err();
    assert!(error.debug_string().starts_with(&format!(
        "HigherStorageFileVersion(Cannot read storage file with a higher version of {} with lib version {}",
        MAX_SUPPORTED_FILE_VERSION + 8,
        MAX_SUPPORTED_FILE_VERSION
    )));
}

#[test]
fn flag_value_dump_text() {
    let v1 = create_test_flag_value_list(1);
    assert_eq!(
        v1.header.to_debug_string(),
        "Version: 1, Container: mockup, File Type: Ok(FlagVal), File Size: 35\nNum of Boolean Flags: 8, Boolean Value Offset:27\n"
    );
    assert_eq!(
        v1.to_debug_string(),
        "Header:\nVersion: 1, Container: mockup, File Type: Ok(FlagVal), File Size: 35\nNum of Boolean Flags: 8, Boolean Value Offset:27\nBoolean Values:\n[false, true, true, false, true, true, true, true]\n"
    );
    let mut v4 = create_test_flag_value_list(4);
    v4.ints = vec![0, -5, 7];
    assert_eq!(
        v4.to_debug_string(),
        "Header:\nVersion: 4, Container: mockup, File Type: Ok(FlagVal), File Size: 107\nNum of Boolean Flags: 8, Boolean Value Offset:35\nNum of Int Flags: 8, Int Value Offset: 43\nBoolean Values:\n[false, true, true, false, true, true, true, true]\nInteger Values:\n[0, -5, 7]\n"
    );
    let mut odd = create_test_flag_value_list(1);
    odd.header.file_type = 9;
    odd.booleans = vec![];
    assert_eq!(
        odd.to_debug_string(),
        "Header:\nVersion: 1, Container: mockup, File Type: Err(Invalid storage file type), File Size: 35\nNum of Boolean Flags: 8, Boolean Value Offset:27\nBoolean Values:\n[]\n"
    );
}

#[test]
fn flag_info_dump_text() {
    let v1 = create_test_flag_info_list(1);
    let expected_nodes = "readwrite: true, server override: false, local override: false\n\
readwrite: false, server override: false, local override: false\n\
readwrite: true, server override: false, local override: false\n\
readwrite: true, server override: false, local override: false\n\
readwrite: false, server override: false, local override: false\n\
readwrite: false, server override: false, local override: false\n\
readwrite: false, server override: false, local override: false\n\
readwrite: true, server override: false, local override: false\n";
    assert_eq!(
        v1.to_debug_string(),
        format!(
            "Header:\nVersion: 1, Container: mockup, File Type: Ok(FlagInfo), File Size: 35\nNum of Boolean Flags: 8, Boolean Flag Offset:27\nBoolean Flag Info:\n{expected_nodes}"
        )
    );
    let v4 = create_test_flag_info_list(4);
    let text = v4.to_debug_string();
    assert!(text.starts_with(
        "Header:\nVersion: 4, Container: mockup, File Type: Ok(FlagInfo), File Size: 51\nNum of Boolean Flags: 8, Boolean Flag Offset:35\nNum of Int Flags: 8, Int Value Offset: 43\nBoolean Flag Info:\n"
    ));
    assert!(text.contains("Integer Flag Info:\nreadwrite: false, server override: false, local override: false\n"));
    assert_eq!(
        FlagInfoNode { attributes: 7 }.to_debug_string(),
        "readwrite: true, server override: true, local override: true\n"
    );
    assert_eq!(
        FlagInfoNode { attributes: 5 }.to_debug_string(),
        "readwrite: false, server override: true, local override: true\n"
    );
}

#[test]
fn int_write_reads_back_and_keeps_others() {
    let flag_value_list = create_test_flag_value_list(4);
    let mut content = flag_value_list.into_bytes();
    update_int64_flag_value(&mut content, 3, -42).unwrap();
    assert_eq!(find_int64_flag_value(&content, 3).unwrap(), -42);
    for i in [0u32, 1, 2, 4, 5, 6, 7] {
        assert_eq!(find_int64_flag_value(&content, i).unwrap(), i as i64);
    }
    for i in 0u32..8 {
        assert_eq!(
            find_boolean_flag_value(&content, i).unwrap(),
            flag_value_list.booleans[i as usize]
        );
    }
}

#[test]
fn large_indexes_get_offset_errors() {
    let v1 = create_test_flag_value_list(1).into_bytes();
    let big: u32 = 1_000_000_000;
    let err = find_boolean_flag_value(&v1, big).unwrap_err();
    assert_eq!(
        err.debug_string(),
        "InvalidStorageFileOffset(Flag value offset goes beyond the end of the file.)"
    );
    let err = find_int64_flag_value(&v1, u32::MAX).unwrap_err();
    assert_eq!(err.debug_string(), "HigherStorageFileVersion(Don't support ints before version 4)");
    let mut v1_mut = v1.clone();
    let err = update_int64_flag_value(&mut v1_mut, u32::MAX, 5).unwrap_err();
    assert_eq!(err.debug_string(), "HigherStorageFileVersion(Don't support ints before version 4)");
    assert_eq!(v1_mut, v1);
    let mut v4 = create_test_flag_value_list(4).into_bytes();
    let before = v4.clone();
    let err = update_boolean_flag_value(&mut v4, big, true).unwrap_err();
    assert_eq!(
        err.debug_string(),
        "InvalidStorageFileOffset(Flag value offset goes beyond the end of the boolean section.)"
    );
    assert_eq!(v4, before);
}
