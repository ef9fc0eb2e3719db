use std::rc::Rc;

use rink_runtime::{
    container_from_str, object_from_str, Flow, RuntimeError, RuntimeGraph, RuntimeObject,
    StepResult, Story, Value,
};

fn story_on(root: &str) -> Story {
    Story::new(RuntimeGraph {
        ink_version: 21,
        root_container: Rc::new(container_from_str(root).unwrap()),
    })
}

#[test]
fn output_string() {
    let mut story = story_on("[null]");
    story.write_output("string");
    assert_eq!(story.output(), "string");
}

#[test]
fn execute_string() {
    let value = object_from_str(r##""^string""##).unwrap();
    let mut story = story_on("[null]");
    assert_eq!(story.execute(&value), Ok(Flow::Advance));
    assert_eq!(story.output(), "string");
}

#[test]
fn cursor() {
    let mut story = story_on(r##"["^1", "^2", "^3", null]"##);
    assert_eq!(
        story.peek_cursor(),
        Some(&RuntimeObject::Value(Value::String("1".into())))
    );
    story.advance_cursor().unwrap();
    assert_eq!(
        story.peek_cursor(),
        Some(&RuntimeObject::Value(Value::String("2".into())))
    );
    story.advance_cursor().unwrap();
    assert_eq!(
        story.peek_cursor(),
        Some(&RuntimeObject::Value(Value::String("3".into())))
    );
    assert!(story.advance_cursor().is_err());
}

#[test]
fn empty_container_is_entered_then_left() {
    let mut story = story_on(r##"["^a", [null], "^b", null]"##);
    assert_eq!(story.step(), StepResult::Ran);
    assert_eq!(story.step(), StepResult::Ran);
    assert_eq!(story.peek_cursor(), None);
    assert_eq!(story.step(), StepResult::Ran);
    assert_eq!(story.peek_cursor(), Some(&RuntimeObject::Value(Value::String("b".into()))));
    assert_eq!(story.step(), StepResult::Ended);
    assert_eq!(story.output(), "ab");
}

fn run_to_end(story: &mut Story) -> StepResult {
    loop {
        let r = story.step();
        if r != StepResult::Ran {
            return r;
        }
    }
}

#[test]
fn step_through() {
    let mut story = story_on(r##"["^1", "^2", "^3", null]"##);
    assert_eq!(story.step(), StepResult::Ran);
    assert_eq!(story.step(), StepResult::Ran);
    assert_eq!(story.step(), StepResult::Ended);
    assert_eq!(story.output(), "123");
}

#[test]
fn step_through_nested() {
    let mut story = story_on(r##"["^1", ["^2", "^3", null], "^4", null]"##);
    let mut steps = 0;
    while story.step() == StepResult::Ran {
        steps += 1;
    }
    assert_eq!(steps, 4);
    assert_eq!(story.output(), "1234");
}

const HELLO: &str = r##"{"inkVersion":21,"root":[["^Hello, world!","\n","^Hello?","\n","^Hello, are you there?","\n",["done",{"#n":"g-0"}],null],"done",{"#f":1}],"listDefs":{}}"##;

#[test]
fn run_hello_world() {
    let mut story = Story::new_from_json(HELLO).unwrap();
    assert_eq!(run_to_end(&mut story), StepResult::Ended);
    assert_eq!(story.output(), "Hello, world!\nHello?\nHello, are you there?\n");
    assert!(story.is_ended());
    assert_eq!(story.step(), StepResult::Ended);
}

#[test]
fn same_story_same_output() {
    let mut a = Story::new_from_json(HELLO).unwrap();
    let mut b = Story::new_from_json(HELLO).unwrap();
    loop {
        let ra = a.step();
        let rb = b.step();
        assert_eq!(ra, rb);
        assert_eq!(a.output(), b.output());
        if ra != StepResult::Ran {
            break;
        }
    }
}

#[test]
fn stepping_leaves_graph_alone() {
    let graph = RuntimeGraph::from_str(HELLO).unwrap();
    let mut story = Story::new(graph.clone());
    run_to_end(&mut story);
    assert_eq!(*story.graph(), graph);
    assert_eq!(story.graph().root().content.len(), 2);
}

#[test]
fn empty_root_ends_at_once() {
    let mut story =
        Story::new_from_json(r##"{"root": [null], "inkVersion": 21, "listDefs": {}}"##).unwrap();
    assert_eq!(story.peek_cursor(), None);
    assert_eq!(story.step(), StepResult::Ended);
    assert_eq!(story.output(), "");
}

#[test]
fn arithmetic_is_printed() {
    let mut story = Story::new_from_json(
        r##"{"root": ["ev", 2, 3, "+", 4, "*", "out", 7, "_", "out", 17, 5, "/", "out", -7, 2, "%", "out", "/ev", null], "inkVersion": 21, "listDefs": {}}"##,
    )
    .unwrap();
    assert_eq!(run_to_end(&mut story), StepResult::Ended);
    assert_eq!(story.output(), "20-73-1");
}

#[test]
fn comparisons_give_one_or_zero() {
    let mut story = Story::new_from_json(
        r##"{"root": ["ev", 2, 3, "<", "out", 2, 3, ">=", "out", 0, "!", "out", 4, 9, "MAX", "out", 4, 9, "MIN", "out", 1, 0, "||", "out", "/ev", null], "inkVersion": 21, "listDefs": {}}"##,
    )
    .unwrap();
    run_to_end(&mut story);
    assert_eq!(story.output(), "101941");
}

#[test]
fn division_by_zero_is_an_error() {
    let mut story = Story::new_from_json(
        r##"{"root": ["ev", 1, 0, "/", "/ev", null], "inkVersion": 21, "listDefs": {}}"##,
    )
    .unwrap();
    assert_eq!(run_to_end(&mut story), StepResult::Error(RuntimeError::DivisionByZero));
    assert_eq!(story.step(), StepResult::Error(RuntimeError::DivisionByZero));
}

#[test]
fn overflow_is_an_error() {
    let mut story = Story::new_from_json(
        r##"{"root": ["ev", 2147483647, 1, "+", "/ev", null], "inkVersion": 21, "listDefs": {}}"##,
    )
    .unwrap();
    assert_eq!(run_to_end(&mut story), StepResult::Error(RuntimeError::IntegerOverflow));
}

#[test]
fn empty_stack_is_an_error() {
    let mut story = Story::new_from_json(
        r##"{"root": ["ev", "out", null], "inkVersion": 21, "listDefs": {}}"##,
    )
    .unwrap();
    assert_eq!(run_to_end(&mut story), StepResult::Error(RuntimeError::EvalStackUnderflow));
}

#[test]
fn type_mismatch_is_an_error() {
    let mut story = Story::new_from_json(
        r##"{"root": ["ev", "str", "^a", "/str", 1, "+", null], "inkVersion": 21, "listDefs": {}}"##,
    )
    .unwrap();
    match run_to_end(&mut story) {
        StepResult::Error(RuntimeError::TypeMismatch { .. }) => {}
        other => panic!("{:?}", other),
    }
}

#[test]
fn variables_are_stored_and_read() {
    let mut story = Story::new_from_json(
        r##"{"root": ["ev", 5, {"VAR=": "x"}, {"VAR?": "x"}, 1, "+", {"VAR=": "x", "re": true}, {"VAR?": "x"}, "out", 9, {"temp=": "t"}, {"VAR?": "t"}, "out", "/ev", null], "inkVersion": 21, "listDefs": {}}"##,
    )
    .unwrap();
    assert_eq!(run_to_end(&mut story), StepResult::Ended);
    assert_eq!(story.output(), "69");
}

#[test]
fn unknown_variable_is_an_error() {
    let mut story = Story::new_from_json(
        r##"{"root": ["ev", {"VAR?": "nobody"}, null], "inkVersion": 21, "listDefs": {}}"##,
    )
    .unwrap();
    assert_eq!(
        run_to_end(&mut story),
        StepResult::Error(RuntimeError::UnknownVariable("nobody".to_string()))
    );
}

#[test]
fn glue_joins_lines() {
    let mut story = Story::new_from_json(
        r##"{"root": ["^After that, ", "<>", "\n", "^we passed the day.", "\n", "^Done.", "\n", null], "inkVersion": 21, "listDefs": {}}"##,
    )
    .unwrap();
    run_to_end(&mut story);
    assert_eq!(story.output(), "After that, we passed the day.\nDone.\n");
}

#[test]
fn glue_drops_one_leading_space() {
    let mut story = Story::new_from_json(
        r##"{"root": ["^a", "<>", "^ b", null], "inkVersion": 21, "listDefs": {}}"##,
    )
    .unwrap();
    run_to_end(&mut story);
    assert_eq!(story.output(), "ab");
}

#[test]
fn built_strings_are_printed() {
    let mut story = Story::new_from_json(
        r##"{"root": ["ev", "str", "^built", "/str", "du", "out", "out", "/ev", null], "inkVersion": 21, "listDefs": {}}"##,
    )
    .unwrap();
    run_to_end(&mut story);
    assert_eq!(story.output(), "builtbuilt");
}

#[test]
fn tags_are_collected() {
    let mut story = Story::new_from_json(
        r##"{"root": ["^x", {"#": "mood"}, null], "inkVersion": 21, "listDefs": {}}"##,
    )
    .unwrap();
    run_to_end(&mut story);
    assert_eq!(story.current_tags(), &vec!["mood".to_string()]);
    assert_eq!(story.output(), "x");
}

#[test]
fn end_stops_the_story() {
    let mut story = Story::new_from_json(
        r##"{"root": ["^a", "\n", "end", "^never", null], "inkVersion": 21, "listDefs": {}}"##,
    )
    .unwrap();
    run_to_end(&mut story);
    assert_eq!(story.output(), "a\n");
}

#[test]
fn function_call_returns() {
    let mut story = Story::new_from_json(
        r##"{"root": ["^a", {"f()": "fn"}, "^c", "ev", {"f()": "fn"}, "out", "/ev", "end", {"fn": ["^b", "ev", 7, "/ev", "~ret", null]}], "inkVersion": 21, "listDefs": {}}"##,
    )
    .unwrap();
    assert_eq!(run_to_end(&mut story), StepResult::Ended);
    assert_eq!(story.output(), "abcb7");
}

#[test]
fn tunnel_returns() {
    let mut story = Story::new_from_json(
        r##"{"root": ["^a", {"->t->": "tun"}, "^c", "end", {"tun": ["^b", "->->", null]}], "inkVersion": 21, "listDefs": {}}"##,
    )
    .unwrap();
    assert_eq!(run_to_end(&mut story), StepResult::Ended);
    assert_eq!(story.output(), "abc");
}

#[test]
fn return_without_call_is_an_error() {
    let mut story = Story::new_from_json(
        r##"{"root": ["~ret", null], "inkVersion": 21, "listDefs": {}}"##,
    )
    .unwrap();
    assert_eq!(story.step(), StepResult::Error(RuntimeError::ReturnWithoutCall));
}

#[test]
fn random_is_not_run_yet() {
    let mut story = Story::new_from_json(
        r##"{"root": ["ev", 1, 5, "rnd", "/ev", null], "inkVersion": 21, "listDefs": {}}"##,
    )
    .unwrap();
    assert_eq!(run_to_end(&mut story), StepResult::Error(RuntimeError::Unsupported));
}

#[test]
fn external_function_is_unknown() {
    let mut story = Story::new_from_json(
        r##"{"root": [{"x()": "fn", "exArgs": 1}, null], "inkVersion": 21, "listDefs": {}}"##,
    )
    .unwrap();
    assert_eq!(
        story.step(),
        StepResult::Error(RuntimeError::UnknownExternal("fn".to_string()))
    );
}

#[test]
fn divert_jumps_to_named_container() {
    let mut story = Story::new_from_json(
        r##"{"root": ["^a", {"->": "knot"}, "^skipped", {"knot": ["^b", "\n", null]}], "inkVersion": 21, "listDefs": {}}"##,
    )
    .unwrap();
    assert_eq!(run_to_end(&mut story), StepResult::Ended);
    assert_eq!(story.output(), "ab\n");
}

#[test]
fn conditional_divert_follows_its_condition() {
    let mut story = Story::new_from_json(
        r##"{"root": ["ev", 0, "/ev", {"->": ".^.3", "c": true}, "^x", "ev", 1, "/ev", {"->": ".^.10", "c": true}, "^y", "^z", null], "inkVersion": 21, "listDefs": {}}"##,
    )
    .unwrap();
    assert_eq!(run_to_end(&mut story), StepResult::Ended);
    assert_eq!(story.output(), "xz");
}

#[test]
fn unresolved_divert_is_an_error() {
    let mut story = Story::new_from_json(
        r##"{"root": [{"->": "nowhere"}, null], "inkVersion": 21, "listDefs": {}}"##,
    )
    .unwrap();
    match story.step() {
        StepResult::Error(RuntimeError::UnresolvedTarget(p)) => assert_eq!(p.to_string(), "nowhere"),
        other => panic!("{:?}", other),
    }
}

#[test]
fn choices_are_offered_and_taken() {
    let mut story = Story::new_from_json(
        r##"{"root": ["^Pick", "\n", "ev", "str", "^left", "/str", "/ev", {"*": ".^.l", "flg": 2}, "ev", "str", "^right", "/str", "/ev", {"*": ".^.r", "flg": 2}, "ev", 0, "/ev", {"*": ".^.r", "flg": 1}, "done", {"l": ["^went left", "\n", "end", null], "r": ["^went right", "\n", "end", null]}], "inkVersion": 21, "listDefs": {}}"##,
    )
    .unwrap();
    assert_eq!(run_to_end(&mut story), StepResult::Choices(2));
    assert_eq!(story.current_choices(), vec!["left".to_string(), "right".to_string()]);
    assert_eq!(story.step(), StepResult::Choices(2));
    assert_eq!(story.select_choice(2), Err(RuntimeError::InvalidChoice));
    story.select_choice(1).unwrap();
    assert!(story.current_choices().is_empty());
    assert_eq!(run_to_end(&mut story), StepResult::Ended);
    assert_eq!(story.output(), "Pick\nwent right\n");
}

#[test]
fn choice_count_counts_offers() {
    let mut story = Story::new_from_json(
        r##"{"root": ["ev", "str", "^one", "/str", "/ev", {"*": ".^.d", "flg": 2}, "ev", "str", "^two", "/str", "/ev", {"*": ".^.d", "flg": 2}, "ev", "choiceCnt", "out", "/ev", "done", {"d": ["end", null]}], "inkVersion": 21, "listDefs": {}}"##,
    )
    .unwrap();
    assert_eq!(run_to_end(&mut story), StepResult::Choices(2));
    assert_eq!(story.output(), "2");
}

const FOGG: &str = r###"{"inkVersion":17,"root":[[["^I looked at Monsieur Fogg","\n",["ev",{"^->":"0.g-0.2.$r1"},{"temp=":"$r"},"str",{"->":".^.s"},[{"#n":"$r1"}],"/str","/ev",{"*":".^.c","flg":18},{"s":["^... and I could contain myself no longer.",{"->":"$r","var":true},null],"c":["ev",{"^->":"0.g-0.2.c.$r2"},"/ev",{"temp=":"$r"},{"->":".^.^.s"},[{"#n":"$r2"}],"\n","\n","^'What is the purpose of our journey, Monsieur?'","\n","^'A wager,' he replied.","\n",[["ev",{"^->":"0.g-0.2.c.12.0.$r1"},{"temp=":"$r"},"str",{"->":".^.s"},[{"#n":"$r1"}],"/str","/ev",{"*":".^.c","flg":18},{"s":["^'A wager!'",{"->":"$r","var":true},null],"c":["ev",{"^->":"0.g-0.2.c.12.0.c.$r2"},"/ev",{"temp=":"$r"},{"->":".^.^.s"},[{"#n":"$r2"}],"^ I returned.","\n","\n","^He nodded.","\n",{"->":"0.g-1"},{"#f":5}]}],["ev",{"^->":"0.g-0.2.c.12.1.$r1"},{"temp=":"$r"},"str",{"->":".^.s"},[{"#n":"$r1"}],"/str","str","^.'","/str","/ev",{"*":".^.c","flg":22},{"s":["^'Ah",{"->":"$r","var":true},null],"c":["ev",{"^->":"0.g-0.2.c.12.1.c.$r2"},"/ev",{"temp=":"$r"},{"->":".^.^.s"},[{"#n":"$r2"}],"^,' I replied, uncertain what I thought.","\n","\n",{"->":".^.^.^.g-0"},{"#f":5}]}],{"g-0":["^After that, ","<>","\n",{"->":"0.g-1"},null]}],{"#f":5}]}],["ev",{"^->":"0.g-0.3.$r1"},{"temp=":"$r"},"str",{"->":".^.s"},[{"#n":"$r1"}],"/str","/ev",{"*":".^.c","flg":18},{"s":["^... but I said nothing",{"->":"$r","var":true},null],"c":["ev",{"^->":"0.g-0.3.c.$r2"},"/ev",{"temp=":"$r"},{"->":".^.^.s"},[{"#n":"$r2"}],"^ and ","<>","\n","\n",{"->":"0.g-1"},{"#f":5}]}],{"#n":"g-0"}],{"g-1":["^we passed the day in silence.","\n",["end",{"#n":"g-2"}],null]}],"done",{"#f":3}],"listDefs":{}}"###;

#[test]
fn fogg_story_runs_through_its_choices() {
    let mut story = Story::new_from_json(FOGG).unwrap();
    assert_eq!(run_to_end(&mut story), StepResult::Choices(2));
    assert_eq!(
        story.current_choices(),
        vec![
            "... and I could contain myself no longer.".to_string(),
            "... but I said nothing".to_string()
        ]
    );
    assert_eq!(story.output(), "I looked at Monsieur Fogg");
    story.select_choice(0).unwrap();
    // the chosen branch runs out, its frames are dropped, and the flow goes
    // on through the rest of the gather, offering its other choice again
    assert_eq!(run_to_end(&mut story), StepResult::Choices(3));
    assert_eq!(
        story.current_choices(),
        vec![
            "'A wager!'".to_string(),
            "'Ah.'".to_string(),
            "... but I said nothing".to_string()
        ]
    );
    story.select_choice(1).unwrap();
    assert_eq!(run_to_end(&mut story), StepResult::Ended);
    assert_eq!(
        story.output(),
        "I looked at Monsieur Fogg\n... and I could contain myself no longer.\n'What is the purpose of our journey, Monsieur?'\n'A wager,' he replied.\n'Ah,' I replied, uncertain what I thought.\nAfter that, we passed the day in silence.\n"
    );
}

#[test]
fn fogg_story_other_branch() {
    let mut story = Story::new_from_json(FOGG).unwrap();
    run_to_end(&mut story);
    story.select_choice(1).unwrap();
    assert_eq!(run_to_end(&mut story), StepResult::Ended);
    assert_eq!(
        story.output(),
        "I looked at Monsieur Fogg\n... but I said nothing and we passed the day in silence.\n"
    );
}

#[test]
fn int_values_print_outside_evaluation() {
    let mut story = Story::new_from_json(
        r##"{"root": [-12, "^ and ", 3.5, null], "inkVersion": 21, "listDefs": {}}"##,
    )
    .unwrap();
    run_to_end(&mut story);
    assert_eq!(story.output(), "-12 and 3.5");
}

#[test]
fn decoded_graph_survives_a_round_trip() {
    let graph = RuntimeGraph::from_str(FOGG).unwrap();
    let again = rink_runtime::graph::decode_graph_json(&graph.to_json()).unwrap();
    assert_eq!(again, graph);
    let hello = RuntimeGraph::from_str(HELLO).unwrap();
    assert_eq!(rink_runtime::graph::decode_graph_json(&hello.to_json()).unwrap(), hello);
}

#[test]
fn objects_survive_a_round_trip() {
    for text in [
        "42",
        "-7",
        "3.5",
        "\"^hello\"",
        "\"\\n\"",
        "\"<>\"",
        "\"G>\"",
        "\"ev\"",
        "\"range\"",
        "\"MAX\"",
        "\"-\"",
        "\"void\"",
        "null",
        "{\"^->\": \"0.g-0.2.$r1\"}",
        "{\"^var\": \"v\", \"ci\": 3}",
        "{\"->\": \".^.s\", \"c\": true}",
        "{\"->\": \"$r\", \"var\": true}",
        "{\"f()\": \"a.b\"}",
        "{\"->t->\": \"a.b\"}",
        "{\"x()\": \"fn\", \"exArgs\": 4}",
        "{\"*\": \".^.c\", \"flg\": 18}",
        "{\"VAR?\": \"x\"}",
        "{\"CNT?\": \"a.b\"}",
        "{\"VAR=\": \"x\", \"re\": true}",
        "{\"temp=\": \"t\"}",
        "{\"#\": \"tag\"}",
        "[\"^a\", [1, {\"#n\": \"inner\"}], {\"s\": [2, null], \"#f\": 5, \"#n\": \"outer\"}]",
        "{\"k\": [\"^x\", null], \"#f\": 3}",
    ] {
        let object = rink_runtime::object_from_str(text).unwrap();
        let json = rink_runtime::encode::encode_object(&object);
        let again = rink_runtime::decode_json_object(&json).unwrap();
        assert_eq!(again, object, "{}", text);
    }
}

#[test]
fn external_function_is_answered_by_the_host() {
    let mut story = Story::new_from_json(
        r##"{"root": ["ev", 2, 3, {"x()": "add", "exArgs": 2}, "out", "/ev", null], "inkVersion": 21, "listDefs": {}}"##,
    )
    .unwrap();
    story.bind_external("add");
    assert_eq!(
        story.resume_external(None),
        Err(RuntimeError::NoPendingExternal)
    );
    assert_eq!(
        run_to_end(&mut story),
        StepResult::Error(RuntimeError::AwaitingExternal)
    );
    let call = story.pending_external().unwrap().clone();
    assert_eq!(call.name, "add");
    assert_eq!(call.args, vec![Value::Int(2), Value::Int(3)]);
    story.resume_external(Some(Value::Int(5))).unwrap();
    assert!(story.pending_external().is_none());
    assert_eq!(run_to_end(&mut story), StepResult::Ended);
    assert_eq!(story.output(), "5");
}

#[test]
fn external_function_needs_its_arguments() {
    let mut story = Story::new_from_json(
        r##"{"root": ["ev", 1, {"x()": "f", "exArgs": 2}, "/ev", null], "inkVersion": 21, "listDefs": {}}"##,
    )
    .unwrap();
    story.bind_external("f");
    assert_eq!(
        run_to_end(&mut story),
        StepResult::Error(RuntimeError::EvalStackUnderflow)
    );
}
