use rink_runtime::path::PathComponent;
use rink_runtime::{
    container_from_str, object_from_str, ChoicePoint, Container, DecodeError, Path,
    RuntimeGraph, RuntimeObject, Value,
};
use rink_runtime::holder::TestHolder;

fn schema_field(e: DecodeError) -> String {
    match e {
        DecodeError::Schema { field, .. } => field,
        other => panic!("{:?}", other),
    }
}

#[test]
fn int_literal_in_container() {
    let c = container_from_str("[42, null]").unwrap();
    assert_eq!(c.content, vec![RuntimeObject::Value(Value::Int(42))]);
}

#[test]
fn large_integer_becomes_float() {
    match object_from_str("3000000000").unwrap() {
        RuntimeObject::Value(Value::Float(t)) => assert_eq!(t, "3000000000"),
        other => panic!("{:?}", other),
    }
}

#[test]
fn negative_integer() {
    assert_eq!(object_from_str("-17").unwrap(), RuntimeObject::Value(Value::Int(-17)));
}

#[test]
fn null_is_null() {
    assert_eq!(object_from_str("null").unwrap(), RuntimeObject::Null);
}

#[test]
fn syntax_error_has_position() {
    match object_from_str("[1,\n  ]") {
        Err(DecodeError::Syntax { line, column, .. }) => {
            assert_eq!(line, 2);
            assert!(column > 0);
        }
        other => panic!("{:?}", other),
    }
}

#[test]
fn unknown_sigil() {
    assert_eq!(
        object_from_str("\"bogus\"").unwrap_err(),
        DecodeError::UnknownSigil("bogus".to_string())
    );
}

#[test]
fn invalid_path() {
    assert_eq!(
        object_from_str("{\"->\": \"a..b\"}").unwrap_err(),
        DecodeError::InvalidPath("a..b".to_string())
    );
}

#[test]
fn boolean_is_rejected() {
    assert_eq!(schema_field(object_from_str("true").unwrap_err()), "value");
}

#[test]
fn container_must_end_with_descriptor() {
    assert_eq!(schema_field(container_from_str("[1, 2]").unwrap_err()), "container");
    assert_eq!(schema_field(container_from_str("[]").unwrap_err()), "container");
}

#[test]
fn choice_flags_must_fit_a_byte() {
    assert_eq!(schema_field(object_from_str("{\"*\": \"a\", \"flg\": 256}").unwrap_err()), "flg");
}

#[test]
fn list_values_are_rejected() {
    assert_eq!(schema_field(object_from_str("{\"list\": {}}").unwrap_err()), "list");
}

#[test]
fn graph_needs_all_three_keys() {
    assert_eq!(
        schema_field(RuntimeGraph::from_str(r#"{"inkVersion": 21, "listDefs": {}}"#).unwrap_err()),
        "root"
    );
    assert_eq!(
        schema_field(RuntimeGraph::from_str(r#"{"root": [null], "listDefs": {}}"#).unwrap_err()),
        "inkVersion"
    );
    assert_eq!(
        schema_field(RuntimeGraph::from_str(r#"{"root": [null], "inkVersion": 21}"#).unwrap_err()),
        "listDefs"
    );
    assert_eq!(
        schema_field(
            RuntimeGraph::from_str(r#"{"root": 5, "inkVersion": 21, "listDefs": {}}"#).unwrap_err()
        ),
        "root"
    );
    assert_eq!(
        schema_field(
            RuntimeGraph::from_str(r#"{"root": [null], "inkVersion": 21, "listDefs": {"a": {}}}"#)
                .unwrap_err()
        ),
        "listDefs"
    );
}

#[test]
fn newer_version_is_refused() {
    assert_eq!(
        RuntimeGraph::from_str(r#"{"root": [null], "inkVersion": 22, "listDefs": {}}"#)
            .unwrap_err(),
        DecodeError::UnsupportedVersion(22)
    );
}

#[test]
fn graph_from_bytes() {
    let g = RuntimeGraph::from_slice(br#"{"root": ["^hi", null], "inkVersion": 20, "listDefs": {}}"#)
        .unwrap();
    assert_eq!(g.version(), 20);
    assert_eq!(g.root().content.len(), 1);
}

#[test]
fn descriptor_object_is_a_container() {
    match object_from_str(r##"{"#n": "knot", "#f": 5}"##).unwrap() {
        RuntimeObject::Container(c) => {
            assert_eq!(c.name.as_deref(), Some("knot"));
            assert!(c.visits_should_be_counted);
            assert!(!c.turn_index_should_be_counted);
            assert!(c.count_at_start_only);
            assert_eq!(c.count_flags(), 5);
        }
        other => panic!("{:?}", other),
    }
}

#[test]
fn search_by_name_finds_content_container() {
    let c = container_from_str(r##"["^a", [1, {"#n": "inner"}], null]"##).unwrap();
    let found = c.search_by_name("inner").unwrap();
    assert_eq!(found.name(), Some("inner"));
    assert!(c.search_by_name("other").is_none());
}

#[test]
fn glue_sigils() {
    assert_eq!(rink_runtime::Glue::Bidirectional.to_string(), "<>");
    assert_eq!(rink_runtime::Glue::Left.to_string(), "G<");
    assert_eq!(rink_runtime::Glue::Right.to_string(), "G>");
}

#[test]
fn glue_variants() {
    assert_eq!(
        object_from_str("\"G<\"").unwrap(),
        RuntimeObject::Glue(rink_runtime::Glue::Left)
    );
    assert_eq!(
        object_from_str("\"G>\"").unwrap(),
        RuntimeObject::Glue(rink_runtime::Glue::Right)
    );
}

#[test]
fn choice_flags_round_trip() {
    for f in 0u8..32 {
        let c = ChoicePoint::new(Path::root(), f);
        assert_eq!(c.flags(), f);
    }
    let c = ChoicePoint::new(Path::root(), 18);
    assert!(c.has_start_content && c.once_only && !c.has_condition);
}

#[test]
fn count_flags_pack_and_unpack() {
    let mut c = Container::new();
    assert_eq!(c.count_flags(), 0);
    c.set_count_flags(3);
    assert!(c.visits_should_be_counted && c.turn_index_should_be_counted);
    assert_eq!(c.count_flags(), 3);
    c.set_count_flags(4);
    assert_eq!(c.count_flags(), 0);
    c.set_count_flags(7);
    assert_eq!(c.count_flags(), 7);
}

#[test]
fn container_children() {
    let mut c = Container::new();
    c.add_child(RuntimeObject::Void);
    c.prepend(vec![RuntimeObject::Null]);
    assert_eq!(c.content, vec![RuntimeObject::Null, RuntimeObject::Void]);
}

#[test]
fn runtime_object_accessors() {
    let v = RuntimeObject::Value(Value::Int(3));
    assert!(!v.is_container());
    assert_eq!(v.as_value(), Some(&Value::Int(3)));
    assert_eq!(Value::Int(3).as_int(), Some(3));
    assert_eq!(Value::String("s".to_string()).as_string(), Some("s"));
    assert_eq!(Value::Float("1.5".to_string()).as_float(), Some("1.5"));
    assert!(v.as_container().is_none());
    assert_eq!(v.name(), None);
}

#[test]
fn path_text_round_trip() {
    for t in ["", "a.b.^.c", "0.g-0.2.$r1", ".^.s", "the_hall.light_switch", "12"] {
        let p = Path::parse(t).unwrap();
        assert_eq!(p.to_string(), t);
    }
}

#[test]
fn path_components() {
    let p = Path::parse(".^.3.name").unwrap();
    assert!(p.is_relative);
    assert_eq!(
        p.components,
        vec![
            PathComponent::Parent,
            PathComponent::Index(3),
            PathComponent::Named("name".to_string())
        ]
    );
}

#[test]
fn padded_index_renders_short() {
    assert_eq!(Path::parse("a.01").unwrap().to_string(), "a.1");
}

#[test]
fn bad_paths_are_rejected() {
    for t in ["a..b", "a.", ".", "a b", "x.^y", ".."] {
        let e = Path::parse(t).unwrap_err();
        assert_eq!(e.text, t);
    }
}

#[test]
fn holder_keeps_text() {
    let h = TestHolder::new("tag text".to_string());
    assert_eq!(h.text(), "tag text");
}
