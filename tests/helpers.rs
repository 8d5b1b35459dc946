use rs_blog::html_visitor::helpers::{
    multiple_spaces_into_one, surround_by_tags, surround_by_tags_with_attributes,
    surround_by_tags_with_details, to_kebab_case, HTMLAttributesValues,
};

#[test]
fn test_surround_by_tag() {
    let result = surround_by_tags("My content", "my-tag");
    assert_eq!(result, "<my-tag>My content</my-tag>");
}

#[test]
fn test_nested_surround_by_tag() {
    let child = surround_by_tags("child content", "child");
    let parent = surround_by_tags(&child, "parent");

    assert_eq!(parent, "<parent><child>child content</child></parent>");
}

#[test]
fn test_surround_by_tag_with_id() {
    let result = surround_by_tags_with_details("My content", "my-tag", Some("my-id"), None);
    assert_eq!(result, "<my-tag id=\"my-id\">My content</my-tag>");
}

#[test]
fn test_surround_by_tag_with_one_class() {
    let result = surround_by_tags_with_details("My content", "my-tag", None, Some(vec!["class-1"]));
    assert_eq!(result, "<my-tag class=\"class-1\">My content</my-tag>");
}

#[test]
fn test_surround_by_tag_with_multiple_classes() {
    let result = surround_by_tags_with_details(
        "My content",
        "my-tag",
        None,
        Some(vec!["class-1", "class-2", "class-3"]),
    );
    assert_eq!(
        result,
        "<my-tag class=\"class-1 class-2 class-3\">My content</my-tag>"
    );
}

#[test]
fn test_surround_by_tag_with_one_class_and_id() {
    let result =
        surround_by_tags_with_details("My content", "my-tag", Some("my-id"), Some(vec!["class-1"]));
    assert_eq!(
        result,
        "<my-tag class=\"class-1\" id=\"my-id\">My content</my-tag>"
    );
}

#[test]
fn test_surround_by_tag_with_multiple_classes_and_id() {
    let result = surround_by_tags_with_details(
        "My content",
        "my-tag",
        Some("my-id"),
        Some(vec!["class-1", "class-2", "class-3"]),
    );
    assert_eq!(
        result,
        "<my-tag class=\"class-1 class-2 class-3\" id=\"my-id\">My content</my-tag>"
    );
}

#[test]
fn test_surround_by_tag_without_specified_attr() {
    let attributes: Vec<(&str, HTMLAttributesValues)> = Vec::new();

    let result = surround_by_tags_with_attributes("content", "tag-name", &attributes, true);
    assert_eq!(result, "<tag-name>content</tag-name>");
}

#[test]
fn test_surround_by_tag_with_one_attribute() {
    let attributes = vec![("href", HTMLAttributesValues::String("link"))];

    let result = surround_by_tags_with_attributes("content", "tag-name", &attributes, true);
    assert_eq!(result, "<tag-name href=\"link\">content</tag-name>");
}

#[test]
fn test_surround_by_tag_dont_display_empty_string() {
    let attributes = vec![
        ("href", HTMLAttributesValues::String("link")),
        ("id", HTMLAttributesValues::String("")),
    ];

    let result = surround_by_tags_with_attributes("content", "tag-name", &attributes, true);
    assert_eq!(result, "<tag-name href=\"link\">content</tag-name>");
}

#[test]
fn test_surround_by_tag_dont_display_empty_vec_of_string() {
    let attributes = vec![
        ("href", HTMLAttributesValues::String("link")),
        ("id", HTMLAttributesValues::VecOfString(vec![])),
    ];

    let result = surround_by_tags_with_attributes("content", "tag-name", &attributes, true);
    assert_eq!(result, "<tag-name href=\"link\">content</tag-name>");
}

#[test]
fn test_surround_by_tag_with_multiple_attributes() {
    let attributes = vec![
        ("href", HTMLAttributesValues::String("link")),
        ("id", HTMLAttributesValues::String("my-id")),
        (
            "class",
            HTMLAttributesValues::VecOfString(vec!["class-1", "class-2", "class-3", ""]),
        ),
    ];

    let result = surround_by_tags_with_attributes("content", "tag-name", &attributes, true);
    assert_eq!(
        result,
        "<tag-name class=\"class-1 class-2 class-3\" href=\"link\" id=\"my-id\">content</tag-name>"
    );
}

#[test]
fn test_surround_by_tag_without_specified_attr_without_closing_tag() {
    let attributes: Vec<(&str, HTMLAttributesValues)> = Vec::new();

    let result = surround_by_tags_with_attributes("content", "tag-name", &attributes, false);
    assert_eq!(result, "<tag-name>");
}

#[test]
fn test_surround_by_tag_with_one_attribute_without_closing_tag() {
    let attributes = vec![("href", HTMLAttributesValues::String("link"))];

    let result = surround_by_tags_with_attributes("content", "tag-name", &attributes, false);
    assert_eq!(result, "<tag-name href=\"link\">");
}

#[test]
fn test_surround_by_tag_dont_display_empty_string_without_closing_tag() {
    let attributes = vec![
        ("href", HTMLAttributesValues::String("link")),
        ("id", HTMLAttributesValues::String("")),
    ];

    let result = surround_by_tags_with_attributes("content", "tag-name", &attributes, false);
    assert_eq!(result, "<tag-name href=\"link\">");
}

#[test]
fn test_surround_by_tag_dont_display_empty_vec_of_string_without_closing_tag() {
    let attributes = vec![
        ("href", HTMLAttributesValues::String("link")),
        ("id", HTMLAttributesValues::VecOfString(vec![])),
    ];

    let result = surround_by_tags_with_attributes("content", "tag-name", &attributes, false);
    assert_eq!(result, "<tag-name href=\"link\">");
}

#[test]
fn test_surround_by_tag_with_multiple_attributes_without_closing_tag() {
    let attributes = vec![
        ("href", HTMLAttributesValues::String("link")),
        ("id", HTMLAttributesValues::String("my-id")),
        (
            "class",
            HTMLAttributesValues::VecOfString(vec!["class-1", "class-2", "class-3", ""]),
        ),
    ];

    let result = surround_by_tags_with_attributes("content", "tag-name", &attributes, false);
    assert_eq!(
        result,
        "<tag-name class=\"class-1 class-2 class-3\" href=\"link\" id=\"my-id\">"
    );
}

#[test]
fn test_to_kebab_case_no_change_on_kebab_case() {
    assert_eq!(to_kebab_case("value"), "value");
    assert_eq!(to_kebab_case("my-value"), "my-value")
}

#[test]
fn test_to_kebab_case_correctly_handle_content() {
    assert_eq!(to_kebab_case("my value"), "my-value");
    assert_eq!(to_kebab_case("My value"), "my-value");
    assert_eq!(
        to_kebab_case("I have MultipLe WordS wiTH DiffeRENT CAps"),
        "i-have-multiple-words-with-different-caps"
    );
}

#[test]
fn test_multiple_spaces_into_one() {
    assert_eq!(multiple_spaces_into_one(""), "");
    assert_eq!(multiple_spaces_into_one("      "), " ");
    assert_eq!(multiple_spaces_into_one(" "), " ");
    assert_eq!(
        multiple_spaces_into_one("      Well... no"),
        "      Well... no"
    );
}

#[test]
fn attribute_order_does_not_depend_on_construction_order() {
    let first = vec![
        ("src", HTMLAttributesValues::String("x.png")),
        ("alt", HTMLAttributesValues::String("X")),
        ("ab", HTMLAttributesValues::String("1")),
        ("b", HTMLAttributesValues::String("2")),
    ];
    let second = vec![
        ("b", HTMLAttributesValues::String("2")),
        ("ab", HTMLAttributesValues::String("1")),
        ("alt", HTMLAttributesValues::String("X")),
        ("src", HTMLAttributesValues::String("x.png")),
    ];
    let expected = "<img ab=\"1\" alt=\"X\" b=\"2\" src=\"x.png\">";
    assert_eq!(surround_by_tags_with_attributes("", "img", &first, false), expected);
    assert_eq!(surround_by_tags_with_attributes("", "img", &second, false), expected);
}

#[test]
fn attribute_names_compare_by_character() {
    let attributes = vec![
        ("data-z", HTMLAttributesValues::String("1")),
        ("data", HTMLAttributesValues::String("2")),
        ("Z", HTMLAttributesValues::String("3")),
    ];
    assert_eq!(
        surround_by_tags_with_attributes("c", "t", &attributes, true),
        "<t Z=\"3\" data=\"2\" data-z=\"1\">c</t>"
    );
}

#[test]
fn token_list_of_empty_tokens_is_left_out() {
    let attributes = vec![("class", HTMLAttributesValues::VecOfString(vec!["", ""]))];
    assert_eq!(
        surround_by_tags_with_attributes("c", "div", &attributes, true),
        "<div>c</div>"
    );
    let attributes = vec![("class", HTMLAttributesValues::VecOfString(vec!["", "a", "", "b"]))];
    assert_eq!(
        surround_by_tags_with_attributes("c", "div", &attributes, true),
        "<div class=\"a b\">c</div>"
    );
}

#[test]
fn kebab_case_lowercases_beyond_ascii() {
    assert_eq!(to_kebab_case("Élan Vital"), "élan-vital");
    assert_eq!(to_kebab_case(""), "");
    assert_eq!(to_kebab_case("A  B"), "a--b");
}

#[test]
fn spaces_collapse_only_when_alone() {
    assert_eq!(multiple_spaces_into_one("a"), "a");
    assert_eq!(multiple_spaces_into_one("  a  "), "  a  ");
    assert_eq!(multiple_spaces_into_one("\n"), "\n");
}
