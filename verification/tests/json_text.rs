use sapling::ast::json::{JSONFormat, JSON};
use sapling::ast::AST;

fn nested() -> JSON {
    JSON::Array(vec![
        JSON::Object(vec![
            (
                "foos".to_string(),
                JSON::Array(vec![JSON::False, JSON::True, JSON::False]),
            ),
            ("bar".to_string(), JSON::False),
        ]),
        JSON::True,
    ])
}

#[test]
fn to_text_compact() {
    for (tree, expected_string) in &[
        (JSON::True, "true"),
        (JSON::False, "false"),
        (JSON::Array(vec![]), "[]"),
        (JSON::Object(vec![]), "{}"),
        (JSON::Array(vec![JSON::True, JSON::False]), "[true, false]"),
        (
            JSON::Object(vec![
                ("foo".to_string(), JSON::True),
                ("bar".to_string(), JSON::False),
            ]),
            r#"{"foo": true, "bar": false}"#,
        ),
        (
            JSON::Array(vec![
                JSON::Object(vec![
                    (
                        "foos".to_string(),
                        JSON::Array(vec![JSON::False, JSON::True, JSON::False]),
                    ),
                    ("bar".to_string(), JSON::False),
                ]),
                JSON::True,
            ]),
            r#"[{"foos": [false, true, false], "bar": false}, true]"#,
        ),
    ] {
        assert_eq!(tree.to_text(JSONFormat::Compact), *expected_string);
    }
}

#[test]
fn to_text_pretty() {
    for (tree, expected_string) in &[
        (JSON::True, "true"),
        (JSON::False, "false"),
        (JSON::Array(vec![]), "[]"),
        (JSON::Object(vec![]), "{}"),
        (
            JSON::Array(vec![JSON::True, JSON::False]),
            "[
    true,
    false
]",
        ),
        (
            JSON::Object(vec![
                ("foo".to_string(), JSON::True),
                ("bar".to_string(), JSON::False),
            ]),
            r#"{
    "foo": true,
    "bar": false
}"#,
        ),
        (
            JSON::Array(vec![
                JSON::Object(vec![
                    (
                        "foos".to_string(),
                        JSON::Array(vec![JSON::False, JSON::True, JSON::False]),
                    ),
                    ("bar".to_string(), JSON::False),
                ]),
                JSON::True,
            ]),
            r#"[
    {
        "foos": [
            false,
            true,
            false
        ],
        "bar": false
    },
    true
]"#,
        ),
    ] {
        assert_eq!(tree.to_text(JSONFormat::Pretty), *expected_string);
    }
}

#[test]
fn leaves_are_their_words_in_both_styles() {
    for (tree, word) in &[(JSON::True, "true"), (JSON::False, "false")] {
        assert_eq!(tree.to_text(JSONFormat::Compact), *word);
        assert_eq!(tree.to_text(JSONFormat::Pretty), *word);
        assert_eq!(
            tree.to_text(JSONFormat::Compact),
            tree.to_text(JSONFormat::Pretty)
        );
    }
}

#[test]
fn empty_composites_stay_on_one_line_when_nested() {
    let tree = JSON::Array(vec![JSON::Array(vec![]), JSON::Object(vec![])]);
    assert_eq!(tree.to_text(JSONFormat::Compact), "[[], {}]");
    assert_eq!(tree.to_text(JSONFormat::Pretty), "[\n    [],\n    {}\n]");
}

#[test]
fn single_element_has_no_separator() {
    let tree = JSON::Array(vec![JSON::True]);
    assert_eq!(tree.to_text(JSONFormat::Compact), "[true]");
    assert_eq!(tree.to_text(JSONFormat::Pretty), "[\n    true\n]");
    let tree = JSON::Object(vec![("k".to_string(), JSON::False)]);
    assert_eq!(tree.to_text(JSONFormat::Compact), "{\"k\": false}");
    assert_eq!(tree.to_text(JSONFormat::Pretty), "{\n    \"k\": false\n}");
}

#[test]
fn duplicate_names_are_kept_in_order() {
    let tree = JSON::Object(vec![
        ("a".to_string(), JSON::True),
        ("a".to_string(), JSON::False),
        ("".to_string(), JSON::True),
    ]);
    assert_eq!(
        tree.to_text(JSONFormat::Compact),
        r#"{"a": true, "a": false, "": true}"#
    );
    assert_eq!(
        tree.to_text(JSONFormat::Pretty),
        "{\n    \"a\": true,\n    \"a\": false,\n    \"\": true\n}"
    );
}

#[test]
fn write_text_appends_to_what_is_there() {
    let tree = JSON::Array(vec![JSON::True, JSON::False]);
    let mut string = String::from("x = ");
    tree.write_text(&mut string, JSONFormat::Compact);
    assert_eq!(string, "x = [true, false]");
    tree.write_text(&mut string, JSONFormat::Pretty);
    assert_eq!(string, "x = [true, false][\n    true,\n    false\n]");
}

#[test]
fn write_text_compact_appends() {
    let mut string = String::from(">");
    nested().write_text_compact(&mut string);
    assert_eq!(
        string,
        r#">[{"foos": [false, true, false], "bar": false}, true]"#
    );
}

#[test]
fn write_text_pretty_starts_from_the_given_indentation_and_restores_it() {
    let tree = JSON::Array(vec![JSON::Object(vec![("k".to_string(), JSON::True)])]);
    let mut string = String::new();
    let mut indentation_buffer = String::from("\t");
    tree.write_text_pretty(&mut string, &mut indentation_buffer);
    assert_eq!(indentation_buffer, "\t");
    assert_eq!(
        string,
        "[\n\t    {\n\t        \"k\": true\n\t    }\n\t]"
    );
}

#[test]
fn write_text_pretty_leaves_the_buffer_alone_on_leaves_and_empty_composites() {
    for tree in &[
        JSON::True,
        JSON::False,
        JSON::Array(vec![]),
        JSON::Object(vec![]),
    ] {
        let mut string = String::new();
        let mut indentation_buffer = String::from("        ");
        tree.write_text_pretty(&mut string, &mut indentation_buffer);
        assert_eq!(indentation_buffer, "        ");
        assert_eq!(string, tree.to_text(JSONFormat::Compact));
    }
}

#[test]
fn deep_nesting_indents_four_spaces_a_level() {
    let tree = JSON::Array(vec![JSON::Array(vec![JSON::Array(vec![JSON::True])])]);
    assert_eq!(
        tree.to_text(JSONFormat::Pretty),
        "[\n    [\n        [\n            true\n        ]\n    ]\n]"
    );
    assert_eq!(tree.to_text(JSONFormat::Compact), "[[[true]]]");
}

#[test]
fn to_text_is_repeatable() {
    let tree = nested();
    assert_eq!(
        tree.to_text(JSONFormat::Pretty),
        tree.to_text(JSONFormat::Pretty)
    );
    assert_eq!(
        tree.to_text(JSONFormat::Compact),
        tree.to_text(JSONFormat::Compact)
    );
}

#[test]
fn default_is_the_empty_object() {
    assert_eq!(JSON::default(), JSON::Object(vec![]));
    assert_eq!(JSON::default().to_text(JSONFormat::Pretty), "{}");
}

#[test]
fn clone_is_equal_and_writes_the_same_text() {
    let tree = nested();
    let copy = tree.clone();
    assert_eq!(copy, tree);
    assert_eq!(
        copy.to_text(JSONFormat::Pretty),
        tree.to_text(JSONFormat::Pretty)
    );
}

#[test]
fn children_come_in_the_order_of_the_text() {
    let tree = JSON::Object(vec![
        ("first".to_string(), JSON::Array(vec![])),
        ("second".to_string(), JSON::True),
        ("third".to_string(), JSON::False),
    ]);
    let children = tree.get_children();
    assert_eq!(children.len(), 3);
    assert_eq!(*children[0], JSON::Array(vec![]));
    assert_eq!(*children[1], JSON::True);
    assert_eq!(*children[2], JSON::False);

    let tree = JSON::Array(vec![JSON::False, JSON::True]);
    let children = tree.get_children();
    assert_eq!(children.len(), 2);
    assert_eq!(*children[0], JSON::False);
    assert_eq!(*children[1], JSON::True);
    // a second call gives the same children
    assert_eq!(tree.get_children(), children);

    assert!(JSON::True.get_children().is_empty());
    assert!(JSON::False.get_children().is_empty());
    assert!(JSON::Array(vec![]).get_children().is_empty());
    assert!(JSON::Object(vec![]).get_children().is_empty());
}

#[test]
fn display_names_name_the_shape() {
    assert_eq!(JSON::True.get_display_name(), "true");
    assert_eq!(JSON::False.get_display_name(), "false");
    assert_eq!(JSON::Array(vec![JSON::True]).get_display_name(), "array");
    assert_eq!(nested().get_display_name(), "array");
    assert_eq!(
        JSON::Object(vec![("k".to_string(), JSON::True)]).get_display_name(),
        "object"
    );
}
