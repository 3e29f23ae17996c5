use matchers::text_tree::{TextTree, TextTreeWriter};

#[test]
fn concat_combines_children() {
    let tree = TextTree::concat(vec![TextTree::text("hello "), TextTree::text("world")]);

    let result = tree.render();

    assert_eq!(result, "hello world");
}

#[test]
fn debug_uses_debug_representation_of_value() {
    let tree = TextTree::debug(42);

    let result = tree.render();

    assert_eq!(result, "42");
}

#[test]
fn lines_are_separated_by_new_line() {
    let tree = TextTree::lines(vec![TextTree::text("hello"), TextTree::text("world")]);

    let result = tree.render();

    assert_eq!(result, "hello\nworld");
}

#[test]
fn nested_indents_second_line_from_first_line() {
    let tree = TextTree::nested(TextTree::text("hello"), TextTree::text("world"));

    let result = tree.render();

    assert_eq!(result, "hello:\n  world");
}

#[test]
fn ordered_list_creates_numbered_list_with_indentation() {
    let tree = TextTree::ordered_list(
        "fruit",
        vec![TextTree::text("apples\n1"), TextTree::text("bananas\n2")],
    );

    let result = tree.render();

    assert_eq!(result, "fruit:\n 0: apples\n    1\n 1: bananas\n    2");
}

#[test]
fn text_without_new_lines_is_written_verbatim() {
    let tree = TextTree::text("apples");

    let result = tree.render();

    assert_eq!(result, "apples");
}

#[test]
fn unordered_list_creates_bulleted_list_with_indentation() {
    let tree = TextTree::unordered_list(
        "fruit",
        vec![TextTree::text("apples\n1"), TextTree::text("bananas\n2")],
    );

    let result = tree.render();

    assert_eq!(result, "fruit:\n * apples\n   1\n * bananas\n   2");
}

#[test]
fn written_strings_are_indented_according_to_current_indent_level() {
    let mut writer = TextTreeWriter::new();
    writer.push_indent(3);
    writer.write_str("hello\nworld");

    let result = writer.string;

    assert_eq!(result, "hello\n   world");
}

#[test]
fn nested_reindents_every_line_of_a_multi_line_leaf() {
    let tree = TextTree::nested(TextTree::text("head"), TextTree::text("a\nb\nc"));

    let result = tree.render();

    assert_eq!(result, "head:\n  a\n  b\n  c");
}

#[test]
fn nested_nesting_indents_twice() {
    let tree = TextTree::nested(
        TextTree::text("outer"),
        TextTree::nested(TextTree::text("inner"), TextTree::text("leaf")),
    );

    let result = tree.render();

    assert_eq!(result, "outer:\n  inner:\n    leaf");
}

#[test]
fn list_with_no_children_renders_heading_only() {
    let tree = TextTree::ordered_list("empty", vec![]);

    let result = tree.render();

    assert_eq!(result, "empty:");
}

#[test]
fn ordered_list_bullet_grows_with_two_digit_indices() {
    let mut children = Vec::new();
    for _ in 0..11 {
        children.push(TextTree::text("x\ny"));
    }
    let tree = TextTree::ordered_list("many", children);

    let result = tree.render();

    assert!(result.starts_with("many:\n 0: x\n    y\n"));
    assert!(result.ends_with("\n 10: x\n     y"));
}

#[test]
fn concat_of_multi_line_texts_keeps_top_level_lines_unindented() {
    let tree = TextTree::concat(vec![TextTree::text("a\nb"), TextTree::text("c\nd")]);

    let result = tree.render();

    assert_eq!(result, "a\nbc\nd");
}

#[test]
fn writer_new_line_writes_current_indentation() {
    let mut writer = TextTreeWriter::new();
    writer.write_str("a");
    writer.push_indent(2);
    writer.new_line();
    writer.write_str("b");

    let result = writer.string;

    assert_eq!(result, "a\n  b");
}

#[test]
fn empty_containers_render_to_empty_strings() {
    assert_eq!(TextTree::concat(vec![]).render(), "");
    assert_eq!(TextTree::lines(vec![]).render(), "");
}
