use sapling::ast::json::JSON;
use sapling::ast::tree_view::TreeView;
use sapling::ast::AST;

fn count_nodes_below(node: &JSON) -> usize {
    let mut count = 0;
    for child in node.get_children() {
        count += 1 + count_nodes_below(child);
    }
    count
}

#[test]
fn tree_view() {
    for (tree, expected_string) in &[
        (JSON::True, "true"),
        (JSON::False, "false"),
        (JSON::Object(vec![]), "object"),
        (JSON::Array(vec![]), "array"),
        (
            JSON::Array(vec![JSON::True, JSON::False]),
            "array
├── true
└── false",
        ),
    ] {
        assert_eq!(tree.tree_view(), *expected_string);
    }
}

#[test]
fn tree_view_draws_a_rail_under_a_child_with_a_later_sibling() {
    let tree = JSON::Array(vec![
        JSON::Object(vec![
            (
                "foos".to_string(),
                JSON::Array(vec![JSON::False, JSON::True, JSON::False]),
            ),
            ("bar".to_string(), JSON::False),
        ]),
        JSON::True,
    ]);
    assert_eq!(
        tree.tree_view(),
        "array
├── object
│   ├── array
│   │   ├── false
│   │   ├── true
│   │   └── false
│   └── false
└── true"
    );
}

#[test]
fn tree_view_leaves_blank_under_a_last_child() {
    let tree = JSON::Array(vec![
        JSON::True,
        JSON::Array(vec![JSON::Object(vec![
            ("a".to_string(), JSON::True),
            ("b".to_string(), JSON::Array(vec![JSON::False])),
        ])]),
    ]);
    assert_eq!(
        tree.tree_view(),
        "array
├── true
└── array
    └── object
        ├── true
        └── array
            └── false"
    );
}

#[test]
fn tree_view_has_a_line_for_the_node_and_each_descendant() {
    for tree in &[
        JSON::True,
        JSON::Array(vec![]),
        JSON::Array(vec![JSON::True, JSON::False]),
        JSON::Array(vec![
            JSON::Object(vec![
                (
                    "foos".to_string(),
                    JSON::Array(vec![JSON::False, JSON::True, JSON::False]),
                ),
                ("bar".to_string(), JSON::False),
            ]),
            JSON::True,
        ]),
    ] {
        let view = tree.tree_view();
        assert_eq!(view.split('\n').count(), 1 + count_nodes_below(tree));
    }
    let tree = JSON::Array(vec![
        JSON::Object(vec![("k".to_string(), JSON::Array(vec![JSON::True]))]),
        JSON::False,
    ]);
    assert_eq!(tree.tree_view().split('\n').count(), 5);
}

#[test]
fn write_tree_view_appends_to_what_is_there() {
    let tree = JSON::Object(vec![("k".to_string(), JSON::True)]);
    let mut string = String::from("view:\n");
    tree.write_tree_view(&mut string);
    assert_eq!(string, "view:\nobject\n└── true");
}

#[test]
fn tree_view_ignores_the_names_of_fields() {
    let named = JSON::Object(vec![
        ("one".to_string(), JSON::True),
        ("two".to_string(), JSON::False),
    ]);
    let renamed = JSON::Object(vec![
        ("x\ny".to_string(), JSON::True),
        ("".to_string(), JSON::False),
    ]);
    assert_eq!(named.tree_view(), "object\n├── true\n└── false");
    assert_eq!(named.tree_view(), renamed.tree_view());
}
