use sapling::ast::json::{JSONFormat, JSON};
use sapling::ast::layout::without_layout;
use sapling::ast::AST;

#[test]
fn pretty_text_without_its_layout_is_the_compact_text() {
    for tree in &[
        JSON::True,
        JSON::False,
        JSON::Array(vec![]),
        JSON::Object(vec![]),
        JSON::Array(vec![JSON::True, JSON::False]),
        JSON::Object(vec![
            ("foo".to_string(), JSON::True),
            ("bar".to_string(), JSON::False),
        ]),
        JSON::Array(vec![
            JSON::Object(vec![
                (
                    "foos".to_string(),
                    JSON::Array(vec![JSON::False, JSON::True, JSON::False]),
                ),
                ("bar".to_string(), JSON::False),
            ]),
            JSON::True,
        ]),
        JSON::Object(vec![
            ("  spaced , name,".to_string(), JSON::Array(vec![])),
            (",".to_string(), JSON::Object(vec![(" ".to_string(), JSON::True)])),
        ]),
    ] {
        assert_eq!(
            without_layout(&tree.to_text(JSONFormat::Pretty)),
            tree.to_text(JSONFormat::Compact)
        );
    }
}

#[test]
fn without_layout_on_given_text() {
    assert_eq!(without_layout(""), "");
    assert_eq!(without_layout("true"), "true");
    assert_eq!(without_layout("[\n    true,\n    false\n]"), "[true, false]");
    assert_eq!(
        without_layout("{\n    \"foo\": true,\n    \"bar\": false\n}"),
        r#"{"foo": true, "bar": false}"#
    );
    // spaces that follow no newline stay, and so does a comma inside a line
    assert_eq!(without_layout("a,  b"), "a,  b");
    // a newline that follows no comma leaves nothing behind
    assert_eq!(without_layout("a\n   b"), "ab");
    assert_eq!(without_layout(",\n\n  x"), ", x");
}

#[test]
fn a_newline_in_a_name_is_text_and_not_layout() {
    let tree = JSON::Object(vec![("a\n b".to_string(), JSON::True)]);
    assert_eq!(tree.to_text(JSONFormat::Compact), "{\"a\n b\": true}");
    assert_eq!(
        without_layout(&tree.to_text(JSONFormat::Pretty)),
        "{\"ab\": true}"
    );
}
