use tiny_map::ParseError;
use tiny_map::TinyMap;

const SAMPLE: &str = "tiny 1 0 intermediate named\n\
c net/minecraft/class_3713 net/minecraft/block/GrindstoneBlock\n\
f I net/minecraft/class_3713/field_1 someField\n\
m ()V net/minecraft/class_3713/method_1 someMethod\n\
p 0 arg0\n";

#[test]
fn parse_file() {
    let map = TinyMap::parse(SAMPLE).unwrap();

    let desc = map.intermediate_to_named("net/minecraft/class_3713");

    assert_eq!(desc, Some(&"net/minecraft/block/GrindstoneBlock".to_owned()));
}

#[test]
fn example_document_structure() {
    let map = TinyMap::parse(SAMPLE).unwrap();

    assert_eq!(map.header.major_version, 1);
    assert_eq!(map.header.minor_version, 0);
    assert_eq!(map.header.namespace_a, "intermediate");
    assert_eq!(map.header.namespace_b, "named");

    assert_eq!(map.classes.len(), 1);
    let class = &map.classes[0];
    assert_eq!(class.intermediate, "net/minecraft/class_3713");
    assert_eq!(class.name, "net/minecraft/block/GrindstoneBlock");

    assert_eq!(class.fields.len(), 1);
    assert_eq!(class.fields[0].type_descriptor, "I");
    assert_eq!(class.fields[0].intermediate, "net/minecraft/class_3713/field_1");
    assert_eq!(class.fields[0].name, "someField");

    assert_eq!(class.methods.len(), 1);
    let method = &class.methods[0];
    assert_eq!(method.intermediate_descriptor, "()V");
    assert_eq!(method.intermediate, "net/minecraft/class_3713/method_1");
    assert_eq!(method.name, "someMethod");

    assert_eq!(method.properties.len(), 1);
    assert_eq!(method.properties[0].key, 0);
    assert_eq!(method.properties[0].name, "arg0");

    assert_eq!(
        map.intermediate_to_named("net/minecraft/class_3713"),
        Some(&"net/minecraft/block/GrindstoneBlock".to_owned())
    );
    assert_eq!(map.intermediate_to_named("unknown"), None);
}

#[test]
fn parsing_is_deterministic() {
    let first = TinyMap::parse(SAMPLE).unwrap();
    let second = TinyMap::parse(SAMPLE).unwrap();
    assert_eq!(first, second);
}

#[test]
fn classes_keep_source_order() {
    let text = "c a/one A\nf I a/f1 x\nm ()V a/m1 y\nc a/two B\nc a/three C\n";
    let map = TinyMap::parse(text).unwrap();
    assert_eq!(map.classes.len(), 3);
    assert_eq!(map.classes[0].intermediate, "a/one");
    assert_eq!(map.classes[1].intermediate, "a/two");
    assert_eq!(map.classes[2].intermediate, "a/three");
    assert_eq!(map.classes[0].fields.len(), 1);
    assert_eq!(map.classes[0].methods.len(), 1);
    assert_eq!(map.classes[1].fields.len(), 0);
    assert_eq!(map.classes[1].methods.len(), 0);
}

#[test]
fn members_keep_source_order() {
    let text = "c a A\nf I a/f1 first\nf J a/f2 second\nm ()V a/m1 one\np 0 p0\np 1 p1\nm ()I a/m2 two\n";
    let map = TinyMap::parse(text).unwrap();
    assert_eq!(map.classes.len(), 1);
    let class = &map.classes[0];
    assert_eq!(class.fields.len(), 2);
    assert_eq!(class.fields[0].name, "first");
    assert_eq!(class.fields[1].name, "second");
    assert_eq!(class.methods.len(), 2);
    assert_eq!(class.methods[0].name, "one");
    assert_eq!(class.methods[0].properties.len(), 2);
    assert_eq!(class.methods[0].properties[0].name, "p0");
    assert_eq!(class.methods[0].properties[1].name, "p1");
    assert_eq!(class.methods[1].name, "two");
    assert_eq!(class.methods[1].properties.len(), 0);
}

#[test]
fn duplicate_intermediate_keeps_last_name() {
    let text = "c a/dup First\nc a/dup Second\n";
    let map = TinyMap::parse(text).unwrap();
    assert_eq!(map.classes.len(), 2);
    assert_eq!(map.intermediate_to_named("a/dup"), Some(&"Second".to_owned()));
}

#[test]
fn unknown_selector_fails() {
    let err = TinyMap::parse("x foo bar\n").unwrap_err();
    assert_eq!(err, ParseError::MalformedRecord("x".to_owned()));
}

#[test]
fn unknown_selector_after_valid_lines_fails() {
    let text = "c a A\nzz oops\n";
    let err = TinyMap::parse(text).unwrap_err();
    assert_eq!(err, ParseError::MalformedRecord("zz".to_owned()));
}

#[test]
fn empty_line_fails_with_empty_token() {
    let err = TinyMap::parse("c a A\n\nc b B\n").unwrap_err();
    assert_eq!(err, ParseError::MalformedRecord(String::new()));
}

#[test]
fn short_class_line_is_a_comment() {
    let text = "c a A\nc onlyonename\nf I a/f1 kept\n";
    let map = TinyMap::parse(text).unwrap();
    assert_eq!(map.classes.len(), 1);
    assert_eq!(map.classes[0].intermediate, "a");
    assert_eq!(map.classes[0].fields.len(), 1);
    assert_eq!(map.classes[0].fields[0].name, "kept");
    assert_eq!(map.intermediate_to_named("onlyonename"), None);
}

#[test]
fn long_class_line_is_a_comment_too() {
    let map = TinyMap::parse("c one two three\n").unwrap();
    assert_eq!(map.classes.len(), 0);
    assert_eq!(map.intermediate_to_named("one"), None);
}

#[test]
fn header_too_few_tokens_fails() {
    let err = TinyMap::parse("tiny 1 0 onlyone\n").unwrap_err();
    assert_eq!(err, ParseError::FieldFormatError);
}

#[test]
fn header_non_numeric_version_fails() {
    let err = TinyMap::parse("tiny one 0 a b\n").unwrap_err();
    assert_eq!(err, ParseError::FieldFormatError);
}

#[test]
fn header_version_out_of_range_fails() {
    let err = TinyMap::parse("tiny 128 0 a b\n").unwrap_err();
    assert_eq!(err, ParseError::FieldFormatError);
}

#[test]
fn later_header_overwrites_earlier() {
    let map = TinyMap::parse("tiny 1 0 a b\ntiny 2 3 c d\n").unwrap();
    assert_eq!(map.header.major_version, 2);
    assert_eq!(map.header.minor_version, 3);
    assert_eq!(map.header.namespace_a, "c");
    assert_eq!(map.header.namespace_b, "d");
}

#[test]
fn property_key_range_boundaries() {
    let text = "c a A\nm ()V a/m1 m\np -128 low\np 127 high\np +5 plus\n";
    let map = TinyMap::parse(text).unwrap();
    let props = &map.classes[0].methods[0].properties;
    assert_eq!(props.len(), 3);
    assert_eq!(props[0].key, -128);
    assert_eq!(props[1].key, 127);
    assert_eq!(props[2].key, 5);
}

#[test]
fn property_key_out_of_range_fails() {
    let err = TinyMap::parse("c a A\nm ()V a/m1 m\np -129 x\n").unwrap_err();
    assert_eq!(err, ParseError::FieldFormatError);

    let err = TinyMap::parse("c a A\nm ()V a/m1 m\np 128 x\n").unwrap_err();
    assert_eq!(err, ParseError::FieldFormatError);
}

#[test]
fn property_too_few_tokens_fails() {
    let err = TinyMap::parse("c a A\nm ()V a/m1 m\np 0\n").unwrap_err();
    assert_eq!(err, ParseError::FieldFormatError);
}

#[test]
fn method_too_few_tokens_fails() {
    let err = TinyMap::parse("c a A\nm ()V onlytwo\n").unwrap_err();
    assert_eq!(err, ParseError::FieldFormatError);
}

#[test]
fn field_too_few_tokens_fails() {
    let err = TinyMap::parse("c a A\nf I onlytwo\n").unwrap_err();
    assert_eq!(err, ParseError::FieldFormatError);
}

#[test]
fn empty_input_gives_empty_document() {
    let map = TinyMap::parse("").unwrap();
    assert_eq!(map.classes.len(), 0);
    assert_eq!(map.header.major_version, 0);
    assert_eq!(map.header.minor_version, 0);
    assert_eq!(map.header.namespace_a, "");
    assert_eq!(map.header.namespace_b, "");
    assert_eq!(map.intermediate_to_named("anything"), None);
}

#[test]
fn missing_trailing_newline_is_fine() {
    let map = TinyMap::parse("c a A").unwrap();
    assert_eq!(map.classes.len(), 1);
    assert_eq!(map.intermediate_to_named("a"), Some(&"A".to_owned()));
}

#[test]
fn method_before_any_class_is_dropped() {
    let map = TinyMap::parse("m ()V stray/m1 stray\nc a A\n").unwrap();
    assert_eq!(map.classes.len(), 1);
    assert_eq!(map.classes[0].methods.len(), 0);
}

#[test]
fn open_method_and_class_are_flushed_at_end_of_input() {
    let map = TinyMap::parse("c a A\nm ()V a/m1 kept\np 0 arg0\n").unwrap();
    assert_eq!(map.classes.len(), 1);
    assert_eq!(map.classes[0].methods.len(), 1);
    assert_eq!(map.classes[0].methods[0].name, "kept");
    assert_eq!(map.classes[0].methods[0].properties.len(), 1);
}

#[test]
fn extra_tokens_on_records_are_ignored() {
    let map = TinyMap::parse("tiny 1 0 a b extra\nc a A\nf I a/f1 x extra extra\n").unwrap();
    assert_eq!(map.header.namespace_b, "b");
    assert_eq!(map.classes[0].fields.len(), 1);
    assert_eq!(map.classes[0].fields[0].name, "x");
}

#[test]
fn tabs_and_repeated_spaces_separate_tokens() {
    let map = TinyMap::parse("c\ta  A\r\n").unwrap();
    assert_eq!(map.classes.len(), 1);
    assert_eq!(map.classes[0].intermediate, "a");
    assert_eq!(map.classes[0].name, "A");
}
