use sapling::ast::json::{JSON, CHAR_ARRAY, CHAR_FALSE, CHAR_OBJECT, CHAR_TRUE};
use sapling::ast::AST;

fn samples() -> Vec<JSON> {
    vec![
        JSON::True,
        JSON::False,
        JSON::Array(vec![JSON::True]),
        JSON::Object(vec![("k".to_string(), JSON::False)]),
    ]
}

#[test]
fn palette_is_one_code_for_each_shape() {
    for node in samples() {
        assert_eq!(node.get_replace_chars(), vec!['t', 'f', 'a', 'o']);
    }
    assert_eq!(CHAR_TRUE, 't');
    assert_eq!(CHAR_FALSE, 'f');
    assert_eq!(CHAR_ARRAY, 'a');
    assert_eq!(CHAR_OBJECT, 'o');
}

#[test]
fn each_code_gives_a_fresh_node_of_its_shape() {
    for node in samples() {
        assert_eq!(node.from_replace_char('t'), Some(JSON::True));
        assert_eq!(node.from_replace_char('f'), Some(JSON::False));
        assert_eq!(node.from_replace_char('a'), Some(JSON::Array(vec![])));
        assert_eq!(node.from_replace_char('o'), Some(JSON::Object(vec![])));
    }
}

#[test]
fn every_code_of_the_palette_is_accepted_and_its_node_can_be_retyped() {
    for node in samples() {
        for c in node.get_replace_chars() {
            let fresh = node.from_replace_char(c);
            assert!(fresh.is_some());
            assert!(!fresh.unwrap().get_replace_chars().is_empty());
        }
    }
}

#[test]
fn a_code_outside_the_palette_is_not_found() {
    for node in samples() {
        let palette = node.get_replace_chars();
        for c in ['x', 'T', 'F', 'A', 'O', ' ', '\n', '[', '{', '0', '\u{2502}'] {
            assert!(!palette.contains(&c));
            assert_eq!(node.from_replace_char(c), None);
        }
    }
}

#[test]
fn codes_are_distinct_and_stand_for_distinct_shapes() {
    let node = JSON::True;
    let palette = node.get_replace_chars();
    for (i, c) in palette.iter().enumerate() {
        for (j, d) in palette.iter().enumerate() {
            if i != j {
                assert_ne!(c, d);
                assert_ne!(node.from_replace_char(*c), node.from_replace_char(*d));
            }
        }
    }
}

#[test]
fn a_fresh_node_takes_nothing_from_the_node_asked() {
    let node = JSON::Array(vec![JSON::True, JSON::False]);
    let fresh = node.from_replace_char('a').unwrap();
    assert!(fresh.get_children().is_empty());
    assert_eq!(node, JSON::Array(vec![JSON::True, JSON::False]));
    let fresh = node.from_replace_char('o').unwrap();
    assert!(fresh.get_children().is_empty());
}
