//! Tests of the Java name formatting.

use build_tools::java_names::{format_java_method_name, format_property_name};

#[test]
fn test_format_java_method_name() {
    let expected = "someSnakeName";
    let input = "____some_snake___name____";
    let formatted_name = format_java_method_name(input);
    assert_eq!(expected, formatted_name);

    let input = "someSnakeName";
    let formatted_name = format_java_method_name(input);
    assert_eq!(expected, formatted_name);

    let input = "SomeSnakeName";
    let formatted_name = format_java_method_name(input);
    assert_eq!(expected, formatted_name);

    let input = "SomeSnakeName_";
    let formatted_name = format_java_method_name(input);
    assert_eq!(expected, formatted_name);

    let input = "_SomeSnakeName";
    let formatted_name = format_java_method_name(input);
    assert_eq!(expected, formatted_name);
}

#[test]
fn test_format_property_name() {
    let expected = "mPropertiesSomeSnakeName";
    let input = "____some_snake___name____";
    let formatted_name = format_property_name(input);
    assert_eq!(expected, formatted_name);

    let input = "someSnakeName";
    let formatted_name = format_property_name(input);
    assert_eq!(expected, formatted_name);

    let input = "SomeSnakeName";
    let formatted_name = format_property_name(input);
    assert_eq!(expected, formatted_name);

    let input = "SomeSnakeName_";
    let formatted_name = format_property_name(input);
    assert_eq!(expected, formatted_name);
}

#[test]
fn java_method_name_lowers_later_words() {
    assert_eq!(format_java_method_name("ENABLED_RO_FLAG"), "enabledRoFlag");
    assert_eq!(format_java_method_name("a"), "a");
    assert_eq!(format_java_method_name("___"), "");
    assert_eq!(format_java_method_name(""), "");
    assert_eq!(format_java_method_name("x_y"), "xY");
}

#[test]
fn method_names_are_their_own_method_names() {
    for input in ["____some_snake___name____", "SomeSnakeName", "a_b_c", "x", "ALL_CAPS_NAME"] {
        let once = format_java_method_name(input);
        assert_eq!(format_java_method_name(&once), once);
    }
}
