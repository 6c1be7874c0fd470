//! The YAML writer: formatting, indentation and quoting.

use rattler::yaml::{YamlInlineSequence, YamlInlineTable, YamlSequence, YamlWriter};

#[test]
fn test_table_writer() {
    let writer = YamlWriter::new();
    let mut root = writer.root();
    root.string("key1", "value1");
    let mut key2 = YamlInlineTable::new();
    key2.string("foo", "value2");
    key2.string("bar", "value3");
    root.inline_table("key2", &key2);
    let mut key6 = root.nested();
    key6.string("foo", "value4");
    key6.string("bar", "value5");
    root.table("key6", &key6);
    let mut key3 = YamlSequence::new();
    key3.string("item1");
    key3.string("item2");
    let mut it = YamlInlineTable::new();
    it.string("foo", "value4");
    it.string("bar", "value5");
    key3.inline_table(&it);
    let mut st = key3.item_table();
    st.string("foo", "value4");
    st.string("bar", "value5");
    key3.table(&st);
    root.sequence("key3", &key3);
    let mut key4 = YamlInlineSequence::new();
    key4.string("val");
    root.inline_sequence("key4", &key4);
    let yaml_str = writer.finish(root);
    assert_eq!(
        yaml_str,
        "key1: value1\nkey2: { foo: value2, bar: value3 }\nkey6:\n  foo: value4\n  bar: value5\nkey3:\n  - item1\n  - item2\n  - { foo: value4, bar: value5 }\n  - foo: value4\n    bar: value5\nkey4: [ val ]\n"
    );
}

#[test]
fn test_root_components() {
    let writer = YamlWriter::new();
    let mut root = writer.root();
    root.string("greeting", "hello world");
    let mut info = YamlInlineTable::new();
    info.string("foo", "bar");
    info.string("baz", "qux");
    root.inline_table("info", &info);
    let mut config = root.nested();
    config.string("opt1", "true");
    config.string("opt2", "false");
    root.table("config", &config);
    let result = writer.finish(root);
    assert_eq!(
        result,
        "greeting: hello world\ninfo: { foo: bar, baz: qux }\nconfig:\n  opt1: \"true\"\n  opt2: \"false\"\n"
    );
}

#[test]
fn test_sequence_components() {
    let writer = YamlWriter::new();
    let mut root = writer.root();
    let mut items = YamlSequence::new();
    let mut it = YamlInlineTable::new();
    it.string("key", "value");
    items.inline_table(&it);
    let mut t = items.item_table();
    t.string("name", "example");
    t.string("desc", "a test");
    items.table(&t);
    root.sequence("items", &items);
    let result = writer.finish(root);
    assert_eq!(result, "items:\n  - { key: value }\n  - name: example\n    desc: a test\n");
}

#[test]
fn test_empty_yaml() {
    let writer = YamlWriter::new();
    let root = writer.root();
    let result = writer.finish(root);
    assert_eq!(result, "");
}

#[test]
fn test_deep_nesting() {
    let writer = YamlWriter::new();
    let mut root = writer.root();
    let mut lvl1 = root.nested();
    let mut lvl2 = YamlInlineTable::new();
    lvl2.string("keyA", "valA");
    lvl2.string("keyB", "valB");
    lvl1.inline_table("level2_inline", &lvl2);
    let mut seq = YamlSequence::new();
    seq.string("item1");
    let mut table = seq.item_table();
    table.string("nestedKey", "nestedValue");
    let mut nested = table.nested();
    nested.string("deeper", "yes");
    table.table("nestedTable", &nested);
    seq.table(&table);
    lvl1.sequence("level2_seq", &seq);
    root.table("level1", &lvl1);
    let result = writer.finish(root);
    assert_eq!(
        result,
        "level1:\n  level2_inline: { keyA: valA, keyB: valB }\n  level2_seq:\n  - item1\n  - nestedKey: nestedValue\n    nestedTable:\n      deeper: \"yes\"\n"
    );
}

#[test]
fn test_mixed_seq_tables() {
    let writer = YamlWriter::new();
    let mut root = writer.root();
    let mut seq = YamlSequence::new();
    let mut table = seq.item_table();
    let mut inner = YamlInlineTable::new();
    inner.string("a", "1");
    inner.string("b", "2");
    table.inline_table("nested", &inner);
    seq.table(&table);
    root.sequence("mix", &seq);
    let result = writer.finish(root);
    assert_eq!(result, "mix:\n  - nested: { a: \"1\", b: \"2\" }\n");
}

#[test]
fn test_quoting() {
    let writer = YamlWriter::new();
    let mut root = writer.root();
    root.string("unquoted", "normal");
    root.string("bool", "true");
    root.string("number", "123.45");
    root.string("colon", "value: with colon");
    let mut list = YamlSequence::new();
    list.string("false");
    list.string("456");
    list.string("no colon");
    root.sequence("list", &list);
    let yaml = writer.finish(root);
    assert_eq!(
        yaml,
        "unquoted: normal\nbool: \"true\"\nnumber: \"123.45\"\ncolon: \"value: with colon\"\nlist:\n  - \"false\"\n  - \"456\"\n  - no colon\n"
    );
}

#[test]
fn test_inline_sequence_in_inline_table() {
    let writer = YamlWriter::new();
    let mut root = writer.root();
    let mut it = YamlInlineTable::new();
    let mut seq = YamlInlineSequence::new();
    seq.string("item1");
    let mut inner = YamlInlineTable::new();
    inner.string("inner", "value");
    seq.inline_table(&inner);
    it.inline_sequence("seq", &seq);
    root.inline_table("is", &it);
    let result = writer.finish(root);
    assert_eq!(result, "is: { seq: [ item1, { inner: value } ] }\n");
}

#[test]
fn test_boolean_and_null_values() {
    let writer = YamlWriter::new();
    let mut root = writer.root();

    // Boolean values.
    root.boolean("bool_true", true);
    root.boolean("bool_false", false);

    // Null values.
    root.null("null_value");

    // In a table.
    let mut nested = root.nested();
    nested.boolean("inner_bool", true);
    nested.null("inner_null");
    root.table("nested", &nested);

    // In an inline table.
    let mut inline = YamlInlineTable::new();
    inline.boolean("bool", false);
    inline.null("nil");
    root.inline_table("inline", &inline);

    // In a sequence.
    let mut seq = YamlSequence::new();
    seq.boolean(true);
    seq.null();
    root.sequence("seq", &seq);

    // In an inline sequence.
    let mut iseq = YamlInlineSequence::new();
    iseq.boolean(true);
    iseq.null();
    iseq.string("text");
    root.inline_sequence("inline_seq", &iseq);

    let result = writer.finish(root);
    assert_eq!(
        result,
        "bool_true: true\nbool_false: false\nnull_value: null\nnested:\n  inner_bool: true\n  inner_null: null\ninline: { bool: false, nil: null }\nseq:\n  - true\n  - null\ninline_seq: [ true, null, text ]\n"
    );
}

#[test]
fn test_comments() {
    let writer = YamlWriter::new();
    let mut root = writer.root();

    root.comment("This is a comment at the root level");
    root.string("key", "value");
    root.comment("Comment before a section");

    let mut section = root.nested();
    section.comment("Comment inside section");
    section.string("inner", "value");
    root.table("section", &section);

    let mut items = YamlSequence::new();
    items.comment("Comment inside sequence");
    items.string("item1");
    items.string("item2");
    root.sequence("items", &items);

    let result = writer.finish(root);
    assert_eq!(
        result,
        "# This is a comment at the root level\nkey: value\n# Comment before a section\nsection:\n  # Comment inside section\n  inner: value\nitems:\n  # Comment inside sequence\n  - item1\n  - item2\n"
    );
}

#[test]
fn test_needs_quotes_variants() {
    // Keywords in any case, float syntax, and colon-space force quotes.
    assert!(rattler::yaml::needs_quotes(""));
    assert!(rattler::yaml::needs_quotes("TRUE"));
    assert!(rattler::yaml::needs_quotes("Off"));
    assert!(rattler::yaml::needs_quotes("~"));
    assert!(rattler::yaml::needs_quotes("3.25"));
    assert!(rattler::yaml::needs_quotes("-17"));
    assert!(rattler::yaml::needs_quotes("+.5e10"));
    assert!(rattler::yaml::needs_quotes("inf"));
    assert!(rattler::yaml::needs_quotes("-Infinity"));
    assert!(rattler::yaml::needs_quotes("NaN"));
    assert!(rattler::yaml::needs_quotes("1e9"));
    assert!(rattler::yaml::needs_quotes("key: value"));
    assert!(!rattler::yaml::needs_quotes("normal"));
    assert!(!rattler::yaml::needs_quotes("1.2.3"));
    assert!(!rattler::yaml::needs_quotes("5e"));
    assert!(!rattler::yaml::needs_quotes("e5"));
    assert!(!rattler::yaml::needs_quotes("."));
    assert!(!rattler::yaml::needs_quotes("truthy"));
    assert!(!rattler::yaml::needs_quotes("x:y"));
}
