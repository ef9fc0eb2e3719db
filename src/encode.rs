use std::rc::Rc;
use vstd::prelude::*;
use vstd::string::*;

use crate::decimal::{
    decimal_text, int_text, integer_in, integer_value, is_digit, lemma_decimal_text_digits,
    push_decimal,
};
use crate::decode::{
    decode_all, decode_container, decode_descriptor, decode_json, decode_keyed, decode_named,
    command_of, decode_text, glue_of, is_descriptor_key, operator_of, choice_model, flag_field, int_field, path_divert, path_of, named_after, path_field, string_field, ErrorModel,
};
use crate::graph::{decode_graph, GraphModel, RuntimeGraph, INK_VERSION_CURRENT};
use crate::json::{field, Json, JsonEntry};
use crate::object::{
    choice_flags, AssignmentModel, lemma_named_model, lemma_objects_model, named_model, object_model, objects_model,
    ChoiceModel, Container, Divert, RuntimeObject, TargetType,
};
use crate::object::{
    glue_sigil, ContainerModel, ControlCommand, DivertModel, Glue, NativeFunctionCall, ObjectModel,
    PushPopType, TargetModel,
};
use crate::path::{lemma_parse_render, lemma_parsed_path_ok, path_ok, render_path};
use crate::story::value_to_text;
use crate::value::{Value, ValueModel};

verus! {

pub open spec fn in_i32(i: int) -> bool {
    i32::MIN <= i && i <= i32::MAX
}

/// A value that decoding can give: a float is not written as a 32-bit integer.
pub open spec fn value_wf(v: ValueModel) -> bool {
    match v {
        ValueModel::Int(i) => in_i32(i),
        ValueModel::Float(t) => integer_in(t, i32::MIN as int, i32::MAX as int) is None,
        ValueModel::Str(_) => true,
        ValueModel::DivertTarget(p) => path_ok(p),
        ValueModel::VariablePointer(_, ci) => in_i32(ci),
    }
}

/// One of the four kinds of divert that the format writes.
pub open spec fn divert_wf(d: DivertModel) -> bool {
    match d.target {
        TargetModel::Path(p) => path_ok(p) && d.external_args is None && ((d.stack_push_type
            == PushPopType::NoPush && !d.pushes_to_stack) || (d.stack_push_type
            == PushPopType::Function && d.pushes_to_stack) || (d.stack_push_type
            == PushPopType::Tunnel && d.pushes_to_stack)),
        TargetModel::VarName(_) => d.stack_push_type == PushPopType::NoPush && !d.pushes_to_stack
            && d.external_args is None,
        TargetModel::ExternalName(_) => d.stack_push_type == PushPopType::Function
            && !d.pushes_to_stack && d.external_args is Some,
    }
}

/// An object that decoding can give.
pub open spec fn object_wf(o: ObjectModel) -> bool
    decreases o,
{
    match o {
        ObjectModel::Choice(c) => path_ok(c.choice_target_path),
        ObjectModel::Container(c) => container_wf(c),
        ObjectModel::Divert(d) => divert_wf(d),
        ObjectModel::Value(v) => value_wf(v),
        ObjectModel::ReadCount(p) => path_ok(p),
        _ => true,
    }
}

/// A container that decoding can give: its sub-elements are keyed by
/// neither `#n` nor `#f`, and a container among them has a name.
pub open spec fn container_wf(c: ContainerModel) -> bool
    decreases c,
{
    all_wf(c.content) && named_wf(c.named_subelements)
}

pub open spec fn all_wf(s: Seq<ObjectModel>) -> bool
    decreases s,
{
    s.len() == 0 || (object_wf(s[0]) && all_wf(s.drop_first()))
}

pub open spec fn named_wf(s: Seq<(Seq<char>, ObjectModel)>) -> bool
    decreases s,
{
    s.len() == 0 || (!is_descriptor_key(s[0].0) && object_wf(s[0].1) && named_after(s[0].1, s[0].0)
        == s[0].1 && named_wf(s.drop_first()))
}

proof fn lemma_named_after_twice(o: ObjectModel, k: Seq<char>)
    ensures
        named_after(named_after(o, k), k) == named_after(o, k),
        object_wf(named_after(o, k)) == object_wf(o),
{
    match o {
        ObjectModel::Container(c) => {
            if c.name is None {
                let d = ContainerModel { name: Some(k), ..c };
                assert(container_wf(d) == container_wf(c));
            }
        },
        _ => {},
    }
}

pub proof fn lemma_json_wf(j: Json)
    ensures
        decode_json(j) matches Ok(o) ==> object_wf(o),
    decreases j, 3nat,
{
    match j {
        Json::Array(items) => {
            lemma_container_wf(items@);
        },
        Json::Object(fields) => {
            lemma_keyed_wf(fields@);
        },
        Json::Number(t) => {
        },
        _ => {},
    }
}

proof fn lemma_path_field_ok(f: Seq<JsonEntry>, key: Seq<char>)
    ensures
        path_field(f, key) matches Ok(p) ==> path_ok(p),
{
    match string_field(f, key) {
        Ok(t) => lemma_parsed_path_ok(t),
        Err(_) => {},
    }
}

proof fn lemma_keyed_wf(f: Seq<JsonEntry>)
    ensures
        decode_keyed(f) matches Ok(o) ==> object_wf(o),
    decreases f, 2nat,
{
    lemma_path_field_ok(f, "^->"@);
    lemma_path_field_ok(f, "->"@);
    lemma_path_field_ok(f, "f()"@);
    lemma_path_field_ok(f, "->t->"@);
    lemma_path_field_ok(f, "*"@);
    lemma_path_field_ok(f, "CNT?"@);
    lemma_descriptor_wf(f);
}

proof fn lemma_descriptor_wf(f: Seq<JsonEntry>)
    ensures
        decode_descriptor(f) matches Ok(c) ==> container_wf(c) && c.content.len() == 0,
    decreases f, 1nat,
{
    lemma_named_wf(f);
    if decode_descriptor(f) is Ok {
        let c = decode_descriptor(f)->Ok_0;
        assert(all_wf(c.content));
    }
}

proof fn lemma_named_wf(f: Seq<JsonEntry>)
    ensures
        decode_named(f) matches Ok(s) ==> named_wf(s),
    decreases f, 0nat,
{
    if f.len() > 0 {
        lemma_named_wf(f.drop_first());
        if !is_descriptor_key(f[0].key@) {
            lemma_json_wf(f[0].value);
            if decode_named(f) is Ok {
                let o = decode_json(f[0].value)->Ok_0;
                let k = f[0].key@;
                let s = decode_named(f)->Ok_0;
                let rest = decode_named(f.drop_first())->Ok_0;
                lemma_named_after_twice(o, k);
                assert(s == seq![(k, named_after(o, k))] + rest);
                assert(s.drop_first() =~= rest);
            }
        }
    }
}

proof fn lemma_container_wf(items: Seq<Json>)
    ensures
        decode_container(items) matches Ok(c) ==> container_wf(c),
    decreases items, 1nat,
{
    if items.len() > 0 {
        lemma_all_wf(items.drop_last());
        match items.last() {
            Json::Object(fields) => {
                lemma_descriptor_wf(fields@);
            },
            _ => {},
        }
    }
}

proof fn lemma_all_wf(items: Seq<Json>)
    ensures
        decode_all(items) matches Ok(s) ==> all_wf(s),
    decreases items, 0nat,
{
    if items.len() > 0 {
        lemma_json_wf(items[0]);
        lemma_all_wf(items.drop_first());
        if decode_all(items) is Ok {
            let s = decode_all(items)->Ok_0;
            let rest = decode_all(items.drop_first())->Ok_0;
            assert(s.drop_first() =~= rest);
        }
    }
}


/// The characters of the sigils and keys of the format.
pub proof fn lemma_sigil_chars()
    ensures
        "^->"@ == seq!['^', '-', '>'],
        "^var"@ == seq!['^', 'v', 'a', 'r'],
        "->"@ == seq!['-', '>'],
        "f()"@ == seq!['f', '(', ')'],
        "->t->"@ == seq!['-', '>', 't', '-', '>'],
        "x()"@ == seq!['x', '(', ')'],
        "*"@ == seq!['*'],
        "VAR?"@ == seq!['V', 'A', 'R', '?'],
        "CNT?"@ == seq!['C', 'N', 'T', '?'],
        "VAR="@ == seq!['V', 'A', 'R', '='],
        "temp="@ == seq!['t', 'e', 'm', 'p', '='],
        "#"@ == seq!['#'],
        "list"@ == seq!['l', 'i', 's', 't'],
        "c"@ == seq!['c'],
        "var"@ == seq!['v', 'a', 'r'],
        "exArgs"@ == seq!['e', 'x', 'A', 'r', 'g', 's'],
        "flg"@ == seq!['f', 'l', 'g'],
        "re"@ == seq!['r', 'e'],
        "ci"@ == seq!['c', 'i'],
        "#n"@ == seq!['#', 'n'],
        "#f"@ == seq!['#', 'f'],
        "inkVersion"@ == seq!['i', 'n', 'k', 'V', 'e', 'r', 's', 'i', 'o', 'n'],
        "root"@ == seq!['r', 'o', 'o', 't'],
        "listDefs"@ == seq!['l', 'i', 's', 't', 'D', 'e', 'f', 's'],
        "\n"@ == seq!['\n'],
        "^"@ == seq!['^'],
        "void"@ == seq!['v', 'o', 'i', 'd'],
        "ev"@ == seq!['e', 'v'],
        "out"@ == seq!['o', 'u', 't'],
        "/ev"@ == seq!['/', 'e', 'v'],
        "du"@ == seq!['d', 'u'],
        "pop"@ == seq!['p', 'o', 'p'],
        "~ret"@ == seq!['~', 'r', 'e', 't'],
        "->->"@ == seq!['-', '>', '-', '>'],
        "str"@ == seq!['s', 't', 'r'],
        "/str"@ == seq!['/', 's', 't', 'r'],
        "nop"@ == seq!['n', 'o', 'p'],
        "choiceCnt"@ == seq!['c', 'h', 'o', 'i', 'c', 'e', 'C', 'n', 't'],
        "turns"@ == seq!['t', 'u', 'r', 'n', 's'],
        "readc"@ == seq!['r', 'e', 'a', 'd', 'c'],
        "rnd"@ == seq!['r', 'n', 'd'],
        "srnd"@ == seq!['s', 'r', 'n', 'd'],
        "visit"@ == seq!['v', 'i', 's', 'i', 't'],
        "seq"@ == seq!['s', 'e', 'q'],
        "thread"@ == seq!['t', 'h', 'r', 'e', 'a', 'd'],
        "done"@ == seq!['d', 'o', 'n', 'e'],
        "end"@ == seq!['e', 'n', 'd'],
        "listInt"@ == seq!['l', 'i', 's', 't', 'I', 'n', 't'],
        "range"@ == seq!['r', 'a', 'n', 'g', 'e'],
        "+"@ == seq!['+'],
        "-"@ == seq!['-'],
        "/"@ == seq!['/'],
        "%"@ == seq!['%'],
        "_"@ == seq!['_'],
        "=="@ == seq!['=', '='],
        ">"@ == seq!['>'],
        "<"@ == seq!['<'],
        ">="@ == seq!['>', '='],
        "<="@ == seq!['<', '='],
        "!="@ == seq!['!', '='],
        "!"@ == seq!['!'],
        "&&"@ == seq!['&', '&'],
        "||"@ == seq!['|', '|'],
        "MIN"@ == seq!['M', 'I', 'N'],
        "MAX"@ == seq!['M', 'A', 'X'],
        "<>"@ == seq!['<', '>'],
        "G<"@ == seq!['G', '<'],
        "G>"@ == seq!['G', '>'],
{
    reveal_strlit("^->");
    reveal_strlit("^var");
    reveal_strlit("->");
    reveal_strlit("f()");
    reveal_strlit("->t->");
    reveal_strlit("x()");
    reveal_strlit("*");
    reveal_strlit("VAR?");
    reveal_strlit("CNT?");
    reveal_strlit("VAR=");
    reveal_strlit("temp=");
    reveal_strlit("#");
    reveal_strlit("list");
    reveal_strlit("c");
    reveal_strlit("var");
    reveal_strlit("exArgs");
    reveal_strlit("flg");
    reveal_strlit("re");
    reveal_strlit("ci");
    reveal_strlit("#n");
    reveal_strlit("#f");
    reveal_strlit("inkVersion");
    reveal_strlit("root");
    reveal_strlit("listDefs");
    reveal_strlit("\n");
    reveal_strlit("^");
    reveal_strlit("void");
    reveal_strlit("ev");
    reveal_strlit("out");
    reveal_strlit("/ev");
    reveal_strlit("du");
    reveal_strlit("pop");
    reveal_strlit("~ret");
    reveal_strlit("->->");
    reveal_strlit("str");
    reveal_strlit("/str");
    reveal_strlit("nop");
    reveal_strlit("choiceCnt");
    reveal_strlit("turns");
    reveal_strlit("readc");
    reveal_strlit("rnd");
    reveal_strlit("srnd");
    reveal_strlit("visit");
    reveal_strlit("seq");
    reveal_strlit("thread");
    reveal_strlit("done");
    reveal_strlit("end");
    reveal_strlit("listInt");
    reveal_strlit("range");
    reveal_strlit("+");
    reveal_strlit("-");
    reveal_strlit("/");
    reveal_strlit("%");
    reveal_strlit("_");
    reveal_strlit("==");
    reveal_strlit(">");
    reveal_strlit("<");
    reveal_strlit(">=");
    reveal_strlit("<=");
    reveal_strlit("!=");
    reveal_strlit("!");
    reveal_strlit("&&");
    reveal_strlit("||");
    reveal_strlit("MIN");
    reveal_strlit("MAX");
    reveal_strlit("<>");
    reveal_strlit("G<");
    reveal_strlit("G>");
}

pub open spec fn command_sigil(c: ControlCommand) -> Seq<char> {
    match c {
        ControlCommand::EvalStart => "ev"@,
        ControlCommand::EvalOutput => "out"@,
        ControlCommand::EvalEnd => "/ev"@,
        ControlCommand::Duplicate => "du"@,
        ControlCommand::PopEvaluatedValue => "pop"@,
        ControlCommand::PopFunction => "~ret"@,
        ControlCommand::PopTunnel => "->->"@,
        ControlCommand::BeginString => "str"@,
        ControlCommand::EndString => "/str"@,
        ControlCommand::NoOp => "nop"@,
        ControlCommand::ChoiceCount => "choiceCnt"@,
        ControlCommand::TurnsSince => "turns"@,
        ControlCommand::ReadCount => "readc"@,
        ControlCommand::Random => "rnd"@,
        ControlCommand::SeedRandom => "srnd"@,
        ControlCommand::VisitIndex => "visit"@,
        ControlCommand::SequenceShuffleIndex => "seq"@,
        ControlCommand::StartThread => "thread"@,
        ControlCommand::Done => "done"@,
        ControlCommand::End => "end"@,
        ControlCommand::ListFromInt => "listInt"@,
        ControlCommand::ListRange => "range"@,
    }
}

pub open spec fn operator_sigil(f: NativeFunctionCall) -> Seq<char> {
    match f {
        NativeFunctionCall::Plus => "+"@,
        NativeFunctionCall::Minus => "-"@,
        NativeFunctionCall::Divide => "/"@,
        NativeFunctionCall::Multiply => "*"@,
        NativeFunctionCall::Modulo => "%"@,
        NativeFunctionCall::UnaryMinus => "_"@,
        NativeFunctionCall::Eq => "=="@,
        NativeFunctionCall::GT => ">"@,
        NativeFunctionCall::LT => "<"@,
        NativeFunctionCall::GEq => ">="@,
        NativeFunctionCall::LEq => "<="@,
        NativeFunctionCall::NEq => "!="@,
        NativeFunctionCall::UnaryNot => "!"@,
        NativeFunctionCall::And => "&&"@,
        NativeFunctionCall::Or => "||"@,
        NativeFunctionCall::Min => "MIN"@,
        NativeFunctionCall::Max => "MAX"@,
    }
}

fn command_text(c: ControlCommand) -> (r: String)
    ensures
        r@ == command_sigil(c),
{
    match c {
        ControlCommand::EvalStart => String::from_str("ev"),
        ControlCommand::EvalOutput => String::from_str("out"),
        ControlCommand::EvalEnd => String::from_str("/ev"),
        ControlCommand::Duplicate => String::from_str("du"),
        ControlCommand::PopEvaluatedValue => String::from_str("pop"),
        ControlCommand::PopFunction => String::from_str("~ret"),
        ControlCommand::PopTunnel => String::from_str("->->"),
        ControlCommand::BeginString => String::from_str("str"),
        ControlCommand::EndString => String::from_str("/str"),
        ControlCommand::NoOp => String::from_str("nop"),
        ControlCommand::ChoiceCount => String::from_str("choiceCnt"),
        ControlCommand::TurnsSince => String::from_str("turns"),
        ControlCommand::ReadCount => String::from_str("readc"),
        ControlCommand::Random => String::from_str("rnd"),
        ControlCommand::SeedRandom => String::from_str("srnd"),
        ControlCommand::VisitIndex => String::from_str("visit"),
        ControlCommand::SequenceShuffleIndex => String::from_str("seq"),
        ControlCommand::StartThread => String::from_str("thread"),
        ControlCommand::Done => String::from_str("done"),
        ControlCommand::End => String::from_str("end"),
        ControlCommand::ListFromInt => String::from_str("listInt"),
        ControlCommand::ListRange => String::from_str("range"),
    }
}

fn operator_text(f: NativeFunctionCall) -> (r: String)
    ensures
        r@ == operator_sigil(f),
{
    match f {
        NativeFunctionCall::Plus => String::from_str("+"),
        NativeFunctionCall::Minus => String::from_str("-"),
        NativeFunctionCall::Divide => String::from_str("/"),
        NativeFunctionCall::Multiply => String::from_str("*"),
        NativeFunctionCall::Modulo => String::from_str("%"),
        NativeFunctionCall::UnaryMinus => String::from_str("_"),
        NativeFunctionCall::Eq => String::from_str("=="),
        NativeFunctionCall::GT => String::from_str(">"),
        NativeFunctionCall::LT => String::from_str("<"),
        NativeFunctionCall::GEq => String::from_str(">="),
        NativeFunctionCall::LEq => String::from_str("<="),
        NativeFunctionCall::NEq => String::from_str("!="),
        NativeFunctionCall::UnaryNot => String::from_str("!"),
        NativeFunctionCall::And => String::from_str("&&"),
        NativeFunctionCall::Or => String::from_str("||"),
        NativeFunctionCall::Min => String::from_str("MIN"),
        NativeFunctionCall::Max => String::from_str("MAX"),
    }
}

/// A control command's sigil decodes to it.
#[verifier::spinoff_prover]
#[verifier::rlimit(100)]
proof fn lemma_command_decodes(c: ControlCommand)
    ensures
        decode_text(command_sigil(c)) == Ok::<ObjectModel, ErrorModel>(ObjectModel::ControlCommand(c)),
{
    lemma_sigil_chars();
    let t = command_sigil(c);
    assert(t[0] != '^' && t != "\n"@ && glue_of(t) is None);
}

/// An operator's sigil decodes to it.
#[verifier::spinoff_prover]
#[verifier::rlimit(100)]
proof fn lemma_operator_decodes(f: NativeFunctionCall)
    ensures
        decode_text(operator_sigil(f)) == Ok::<ObjectModel, ErrorModel>(
            ObjectModel::NativeFunctionCall(f),
        ),
{
    lemma_sigil_chars();
    let t = operator_sigil(f);
    assert(t[0] != '^' && t[0] != '\n');
    assert(t != "\n"@ && glue_of(t) is None);
    assert(command_of(t) is None);
}

/// The glue sigils, `void`, and text after a caret decode to what they stand for.
#[verifier::spinoff_prover]
#[verifier::rlimit(100)]
proof fn lemma_texts_decode(g: Glue, s: Seq<char>)
    ensures
        decode_text(glue_sigil(g)) == Ok::<ObjectModel, ErrorModel>(ObjectModel::Glue(g)),
        decode_text("void"@) == Ok::<ObjectModel, ErrorModel>(ObjectModel::Void),
        decode_text("^"@ + s) == Ok::<ObjectModel, ErrorModel>(ObjectModel::Value(ValueModel::Str(s))),
{
    lemma_sigil_chars();
    let t = "^"@ + s;
    assert(t[0] == '^');
    assert(t != "\n"@);
    assert(t.drop_first() =~= s);
    assert(command_of("void"@) is None);
    assert(operator_of("void"@) is None);
}

/// The text of a number reads back as that number.
proof fn lemma_decimal_reads_back(n: nat)
    ensures
        integer_value(decimal_text(n)) == Some(n as int),
{
    lemma_decimal_text_digits(n);
    let t = decimal_text(n);
    assert(is_digit(t[0]));
}

/// The text of an integer reads back as that integer.
proof fn lemma_int_reads_back(i: int)
    ensures
        integer_value(int_text(i)) == Some(i),
{
    if i < 0 {
        let d = decimal_text((-i) as nat);
        lemma_decimal_text_digits((-i) as nat);
        let t = int_text(i);
        assert(t == seq!['-'] + d);
        assert(t[0] == '-');
        assert(t.drop_first() =~= d);
    } else {
        lemma_decimal_reads_back(i as nat);
    }
}

/// The first entry keyed `k` is absent where no entry has that key.
proof fn lemma_field_absent(s: Seq<JsonEntry>, k: Seq<char>)
    requires
        forall|i: int| 0 <= i < s.len() ==> (#[trigger] s[i]).key@ != k,
    ensures
        field(s, k) is None,
    decreases s.len(),
{
    if s.len() > 0 {
        let r = s.drop_first();
        assert forall|i: int| 0 <= i < r.len() implies (#[trigger] r[i]).key@ != k by {
            assert(r[i] == s[i + 1]);
        }
        lemma_field_absent(r, k);
    }
}

fn entry(key: &str, value: Json) -> (r: JsonEntry)
    ensures
        r.key@ == key@,
        r.value == value,
{
    JsonEntry { key: String::from_str(key), value }
}

fn number_of(n: usize) -> (r: Json)
    ensures
        r matches Json::Number(t) && t@ == decimal_text(n as nat),
{
    let mut t = String::new();
    push_decimal(&mut t, n);
    assert(t@ =~= decimal_text(n as nat));
    Json::Number(t)
}

fn int_number_of(i: i32) -> (r: Json)
    ensures
        r matches Json::Number(t) && t@ == int_text(i as int),
{
    Json::Number(value_to_text(&Value::Int(i)))
}

fn text_of(s: &str) -> (r: Json)
    ensures
        r matches Json::Str(t) && t@ == s@,
{
    Json::Str(String::from_str(s))
}

/// A value as the format writes it.
pub fn encode_value(v: &Value) -> (r: Json)
    ensures
        value_wf(v@) ==> decode_json(r) == Ok::<ObjectModel, ErrorModel>(ObjectModel::Value(v@)),
{
    match v {
        Value::Int(i) => {
            proof {
                lemma_int_reads_back(*i as int);
            }
            int_number_of(*i)
        },
        Value::Float(t) => Json::Number(String::from_str(t.as_str())),
        Value::String(s) => {
            let mut t = String::from_str("^");
            t.append(s.as_str());
            proof {
                lemma_texts_decode(Glue::Bidirectional, s@);
            }
            Json::Str(t)
        },
        Value::DivertTarget { target_path } => {
            let mut fields: Vec<JsonEntry> = Vec::new();
            fields.push(entry("^->", Json::Str(target_path.to_string())));
            proof {
                lemma_keyed_one(fields@, render_path(target_path@));
                if path_ok(target_path@) {
                    lemma_parse_render(target_path@);
                }
            }
            Json::Object(fields)
        },
        Value::VariablePointer { name, context_index } => {
            let mut fields: Vec<JsonEntry> = Vec::new();
            fields.push(entry("^var", text_of(name.as_str())));
            fields.push(entry("ci", int_number_of(*context_index)));
            proof {
                lemma_keyed_pointer(fields@, name@, *context_index as int);
            }
            Json::Object(fields)
        },
    }
}

proof fn lemma_decode_all_push(s: Seq<Json>, x: Json)
    requires
        decode_all(s) is Ok,
        decode_json(x) is Ok,
    ensures
        decode_all(s.push(x)) == Ok::<Seq<ObjectModel>, ErrorModel>(
            decode_all(s)->Ok_0.push(decode_json(x)->Ok_0),
        ),
    decreases s.len(),
{
    let t = s.push(x);
    if s.len() == 0 {
        assert(t.drop_first() =~= Seq::<Json>::empty());
        assert(seq![decode_json(x)->Ok_0] + Seq::<ObjectModel>::empty() =~= Seq::<
            ObjectModel,
        >::empty().push(decode_json(x)->Ok_0));
    } else {
        assert(t.drop_first() =~= s.drop_first().push(x));
        assert(t[0] == s[0]);
        lemma_decode_all_push(s.drop_first(), x);
        let o0 = decode_json(s[0])->Ok_0;
        let rest = decode_all(s.drop_first())->Ok_0;
        assert(seq![o0] + rest.push(decode_json(x)->Ok_0) =~= (seq![o0] + rest).push(
            decode_json(x)->Ok_0,
        ));
    }
}

proof fn lemma_decode_named_push(s: Seq<JsonEntry>, e: JsonEntry)
    requires
        decode_named(s) is Ok,
        !is_descriptor_key(e.key@),
        decode_json(e.value) is Ok,
    ensures
        decode_named(s.push(e)) == Ok::<Seq<(Seq<char>, ObjectModel)>, ErrorModel>(
            decode_named(s)->Ok_0.push((e.key@, named_after(decode_json(e.value)->Ok_0, e.key@))),
        ),
    decreases s.len(),
{
    let t = s.push(e);
    let last = (e.key@, named_after(decode_json(e.value)->Ok_0, e.key@));
    if s.len() == 0 {
        assert(t.drop_first() =~= Seq::<JsonEntry>::empty());
        assert(t[0] == e);
        assert(seq![last] + Seq::<(Seq<char>, ObjectModel)>::empty() =~= Seq::<
            (Seq<char>, ObjectModel),
        >::empty().push(last));
    } else {
        assert(t.drop_first() =~= s.drop_first().push(e));
        assert(t[0] == s[0]);
        lemma_decode_named_push(s.drop_first(), e);
        if !is_descriptor_key(s[0].key@) {
            let h = (s[0].key@, named_after(decode_json(s[0].value)->Ok_0, s[0].key@));
            let rest = decode_named(s.drop_first())->Ok_0;
            assert(seq![h] + rest.push(last) =~= (seq![h] + rest).push(last));
        }
    }
}

proof fn lemma_all_wf_index(s: Seq<ObjectModel>)
    requires
        all_wf(s),
    ensures
        forall|i: int| 0 <= i < s.len() ==> object_wf(#[trigger] s[i]),
    decreases s.len(),
{
    if s.len() > 0 {
        lemma_all_wf_index(s.drop_first());
        assert forall|i: int| 0 <= i < s.len() implies object_wf(#[trigger] s[i]) by {
            if i > 0 {
                assert(s[i] == s.drop_first()[i - 1]);
            }
        }
    }
}

proof fn lemma_named_wf_index(s: Seq<(Seq<char>, ObjectModel)>)
    requires
        named_wf(s),
    ensures
        forall|i: int|
            0 <= i < s.len() ==> !is_descriptor_key((#[trigger] s[i]).0) && object_wf(s[i].1)
                && named_after(s[i].1, s[i].0) == s[i].1,
    decreases s.len(),
{
    if s.len() > 0 {
        lemma_named_wf_index(s.drop_first());
        assert forall|i: int| 0 <= i < s.len() implies !is_descriptor_key((#[trigger] s[i]).0)
            && object_wf(s[i].1) && named_after(s[i].1, s[i].0) == s[i].1 by {
            if i > 0 {
                assert(s[i] == s.drop_first()[i - 1]);
            }
        }
    }
}

pub open spec fn is_text(j: Json, t: Seq<char>) -> bool {
    j matches Json::Str(s) && s@ == t
}

pub open spec fn is_number(j: Json, n: int) -> bool {
    j matches Json::Number(s) && s@ == int_text(n)
}

#[verifier::spinoff_prover]
#[verifier::rlimit(100)]
proof fn lemma_keyed_one(f: Seq<JsonEntry>, t: Seq<char>)
    requires
        f.len() == 1,
        is_text(f[0].value, t),
    ensures
        f[0].key@ == "#"@ ==> decode_keyed(f) == Ok::<ObjectModel, ErrorModel>(ObjectModel::Tag(t)),
        f[0].key@ == "VAR?"@ ==> decode_keyed(f) == Ok::<ObjectModel, ErrorModel>(
            ObjectModel::VariableReference(t),
        ),
        f[0].key@ == "CNT?"@ ==> decode_keyed(f) == match path_of(t) {
            Ok(p) => Ok(ObjectModel::ReadCount(p)),
            Err(e) => Err(e),
        },
        f[0].key@ == "^->"@ ==> decode_keyed(f) == match path_of(t) {
            Ok(p) => Ok(ObjectModel::Value(ValueModel::DivertTarget(p))),
            Err(e) => Err(e),
        },
{
    lemma_sigil_chars();
    reveal_with_fuel(field, 2);
    let k = f[0].key@;
    if k == "#"@ {
        assert(k.len() == 1 && k[0] == '#');
        assert(("*"@)[0] == '*');
        assert(k != "*"@);
        assert(field(f, "#"@) is Some);
    }
}

#[verifier::spinoff_prover]
#[verifier::rlimit(100)]
proof fn lemma_keyed_pointer(f: Seq<JsonEntry>, name: Seq<char>, ci: int)
    requires
        f.len() == 2,
        f[0].key@ == "^var"@,
        is_text(f[0].value, name),
        f[1].key@ == "ci"@,
        is_number(f[1].value, ci),
        in_i32(ci),
    ensures
        decode_keyed(f) == Ok::<ObjectModel, ErrorModel>(
            ObjectModel::Value(ValueModel::VariablePointer(name, ci)),
        ),
{
    lemma_sigil_chars();
    reveal_with_fuel(field, 3);
    lemma_int_reads_back(ci);
}

#[verifier::spinoff_prover]
#[verifier::rlimit(100)]
proof fn lemma_keyed_assignment(f: Seq<JsonEntry>, name: Seq<char>, global: bool, re: bool)
    requires
        f.len() == 2,
        f[0].key@ == (if global {
            "VAR="@
        } else {
            "temp="@
        }),
        is_text(f[0].value, name),
        f[1].key@ == "re"@,
        f[1].value == Json::Bool(re),
    ensures
        decode_keyed(f) == Ok::<ObjectModel, ErrorModel>(
            ObjectModel::VariableAssignment(
                AssignmentModel { name, is_new_declaration: !re, is_global: global },
            ),
        ),
{
    lemma_sigil_chars();
    reveal_with_fuel(field, 3);
}

#[verifier::spinoff_prover]
#[verifier::rlimit(100)]
proof fn lemma_keyed_choice(f: Seq<JsonEntry>, t: Seq<char>, flags: u8)
    requires
        f.len() == 2,
        f[0].key@ == "*"@,
        is_text(f[0].value, t),
        f[1].key@ == "flg"@,
        is_number(f[1].value, flags as int),
    ensures
        decode_keyed(f) == match path_of(t) {
            Ok(p) => Ok(ObjectModel::Choice(choice_model(p, flags))),
            Err(e) => Err(e),
        },
{
    lemma_sigil_chars();
    reveal_with_fuel(field, 3);
    lemma_int_reads_back(flags as int);
}

#[verifier::spinoff_prover]
#[verifier::rlimit(100)]
proof fn lemma_keyed_path_divert(f: Seq<JsonEntry>, t: Seq<char>, push: PushPopType, c: bool)
    requires
        f.len() == 2,
        f[0].key@ == (match push {
            PushPopType::Function => "f()"@,
            PushPopType::Tunnel => "->t->"@,
            PushPopType::NoPush => "->"@,
        }),
        is_text(f[0].value, t),
        f[1].key@ == "c"@,
        f[1].value == Json::Bool(c),
    ensures
        decode_keyed(f) == match path_of(t) {
            Ok(p) => Ok(
                ObjectModel::Divert(
                    DivertModel {
                        target: TargetModel::Path(p),
                        stack_push_type: push,
                        pushes_to_stack: push != PushPopType::NoPush,
                        external_args: None,
                        is_conditional: c,
                    },
                ),
            ),
            Err(e) => Err(e),
        },
{
    lemma_sigil_chars();
    reveal_with_fuel(field, 3);
    let k = f[0].key@;
    assert(("f()"@)[0] == 'f' && ("x()"@)[0] == 'x' && ("->t->"@)[2] == 't');
    match push {
        PushPopType::Function => {
            assert(k != "^->"@ && k != "^var"@ && k != "->"@);
            assert(field(f, "f()"@) is Some);
        },
        PushPopType::Tunnel => {
            assert(k == "->t->"@);
            assert(k.len() == 5 && ("^->"@).len() == 3 && ("^var"@).len() == 4);
            assert(("->"@).len() == 2 && ("f()"@).len() == 3);
            assert(k != "^->"@ && k != "^var"@ && k != "->"@ && k != "f()"@);
            assert(field(f, "->t->"@) is Some);
        },
        PushPopType::NoPush => {
            assert(k != "^->"@ && k != "^var"@);
            assert(field(f, "->"@) is Some);
            assert(flag_field(f, "var"@) == Ok::<bool, ErrorModel>(false));
        },
    }
}

#[verifier::spinoff_prover]
#[verifier::rlimit(100)]
proof fn lemma_keyed_var_divert(f: Seq<JsonEntry>, name: Seq<char>, c: bool)
    requires
        f.len() == 3,
        f[0].key@ == "->"@,
        is_text(f[0].value, name),
        f[1].key@ == "var"@,
        f[1].value == Json::Bool(true),
        f[2].key@ == "c"@,
        f[2].value == Json::Bool(c),
    ensures
        decode_keyed(f) == Ok::<ObjectModel, ErrorModel>(
            ObjectModel::Divert(
                DivertModel {
                    target: TargetModel::VarName(name),
                    stack_push_type: PushPopType::NoPush,
                    pushes_to_stack: false,
                    external_args: None,
                    is_conditional: c,
                },
            ),
        ),
{
    lemma_sigil_chars();
    reveal_with_fuel(field, 4);
}

#[verifier::spinoff_prover]
#[verifier::rlimit(100)]
proof fn lemma_keyed_external(f: Seq<JsonEntry>, name: Seq<char>, args: u32, c: bool)
    requires
        f.len() == 3,
        f[0].key@ == "x()"@,
        is_text(f[0].value, name),
        f[1].key@ == "exArgs"@,
        is_number(f[1].value, args as int),
        f[2].key@ == "c"@,
        f[2].value == Json::Bool(c),
    ensures
        decode_keyed(f) == Ok::<ObjectModel, ErrorModel>(
            ObjectModel::Divert(
                DivertModel {
                    target: TargetModel::ExternalName(name),
                    stack_push_type: PushPopType::Function,
                    pushes_to_stack: false,
                    external_args: Some(args),
                    is_conditional: c,
                },
            ),
        ),
{
    lemma_sigil_chars();
    reveal_with_fuel(field, 4);
    lemma_int_reads_back(args as int);
}

/// An object as the format writes it. Decoding what it gives back yields
/// the object again, wherever the object is one that decoding can give.
pub fn encode_object(o: &RuntimeObject) -> (r: Json)
    ensures
        object_wf(o@) ==> decode_json(r) == Ok::<ObjectModel, ErrorModel>(o@),
    decreases *o,
{
    match o {
        RuntimeObject::Value(v) => encode_value(v),
        RuntimeObject::Glue(g) => {
            proof {
                lemma_texts_decode(*g, Seq::empty());
            }
            Json::Str(g.to_string())
        },
        RuntimeObject::ControlCommand(c) => {
            proof {
                lemma_command_decodes(*c);
            }
            Json::Str(command_text(*c))
        },
        RuntimeObject::NativeFunctionCall(f) => {
            proof {
                lemma_operator_decodes(*f);
            }
            Json::Str(operator_text(*f))
        },
        RuntimeObject::Void => {
            proof {
                lemma_texts_decode(Glue::Bidirectional, Seq::empty());
            }
            text_of("void")
        },
        RuntimeObject::Null => Json::Null,
        RuntimeObject::Tag(t) => {
            let mut fields: Vec<JsonEntry> = Vec::new();
            fields.push(entry("#", text_of(t.text.as_str())));
            proof {
                lemma_keyed_one(fields@, t.text@);
            }
            Json::Object(fields)
        },
        RuntimeObject::VariableReference(v) => {
            let mut fields: Vec<JsonEntry> = Vec::new();
            fields.push(entry("VAR?", text_of(v.name.as_str())));
            proof {
                lemma_keyed_one(fields@, v.name@);
            }
            Json::Object(fields)
        },
        RuntimeObject::ReadCount(c) => {
            let mut fields: Vec<JsonEntry> = Vec::new();
            fields.push(entry("CNT?", Json::Str(c.target.to_string())));
            proof {
                lemma_keyed_one(fields@, render_path(c.target@));
                if path_ok(c.target@) {
                    lemma_parse_render(c.target@);
                }
            }
            Json::Object(fields)
        },
        RuntimeObject::VariableAssignment(a) => {
            let key = if a.is_global {
                "VAR="
            } else {
                "temp="
            };
            let mut fields: Vec<JsonEntry> = Vec::new();
            fields.push(entry(key, text_of(a.name.as_str())));
            fields.push(entry("re", Json::Bool(!a.is_new_declaration)));
            proof {
                lemma_keyed_assignment(fields@, a.name@, a.is_global, !a.is_new_declaration);
            }
            Json::Object(fields)
        },
        RuntimeObject::Choice(c) => {
            let flags = c.flags();
            let mut fields: Vec<JsonEntry> = Vec::new();
            fields.push(entry("*", Json::Str(c.choice_target_path.to_string())));
            fields.push(entry("flg", number_of(flags as usize)));
            proof {
                lemma_keyed_choice(fields@, render_path(c.choice_target_path@), flags);
                if path_ok(c.choice_target_path@) {
                    lemma_parse_render(c.choice_target_path@);
                }
                lemma_choice_bits(c@);
            }
            Json::Object(fields)
        },
        RuntimeObject::Divert(d) => encode_divert(d),
        RuntimeObject::Container(c) => Json::Array(encode_container(c)),
    }
}

proof fn lemma_choice_bits(c: ChoiceModel)
    ensures
        choice_model(c.choice_target_path, choice_flags(c)) == c,
{
    let a = c.has_condition;
    let b = c.has_start_content;
    let d = c.has_choice_only_content;
    let e = c.is_invisible_default;
    let g = c.once_only;
    let f = choice_flags(c);
    assert(f == ((if a { 1u8 } else { 0u8 }) | (if b { 2u8 } else { 0u8 }) | (if d { 4u8 } else {
        0u8
    }) | (if e { 8u8 } else { 0u8 }) | (if g { 16u8 } else { 0u8 })) as u8);
    assert(((f & 1 != 0) == a) && ((f & 2 != 0) == b) && ((f & 4 != 0) == d) && ((f & 8 != 0)
        == e) && ((f & 16 != 0) == g)) by (bit_vector)
        requires
            f == ((if a { 1u8 } else { 0u8 }) | (if b { 2u8 } else { 0u8 }) | (if d {
                4u8
            } else {
                0u8
            }) | (if e { 8u8 } else { 0u8 }) | (if g { 16u8 } else { 0u8 })),
    ;
}

fn encode_divert(d: &Divert) -> (r: Json)
    ensures
        divert_wf(d@) ==> decode_json(r) == Ok::<ObjectModel, ErrorModel>(ObjectModel::Divert(d@)),
{
    let mut fields: Vec<JsonEntry> = Vec::new();
    match &d.target {
        TargetType::Path(p) => {
            let key = if d.stack_push_type == PushPopType::Function {
                "f()"
            } else if d.stack_push_type == PushPopType::Tunnel {
                "->t->"
            } else {
                "->"
            };
            fields.push(entry(key, Json::Str(p.to_string())));
            fields.push(entry("c", Json::Bool(d.is_conditional)));
            proof {
                if divert_wf(d@) {
                    lemma_parse_render(p@);
                    lemma_keyed_path_divert(
                        fields@,
                        render_path(p@),
                        d.stack_push_type,
                        d.is_conditional,
                    );
                }
            }
        },
        TargetType::VarName(n) => {
            fields.push(entry("->", text_of(n.as_str())));
            fields.push(entry("var", Json::Bool(true)));
            fields.push(entry("c", Json::Bool(d.is_conditional)));
            proof {
                lemma_keyed_var_divert(fields@, n@, d.is_conditional);
            }
        },
        TargetType::ExternalName(n) => {
            let args = match d.external_args {
                Some(a) => a,
                None => 0,
            };
            fields.push(entry("x()", text_of(n.as_str())));
            fields.push(entry("exArgs", number_of(args as usize)));
            fields.push(entry("c", Json::Bool(d.is_conditional)));
            proof {
                lemma_keyed_external(fields@, n@, args, d.is_conditional);
            }
        },
    }
    Json::Object(fields)
}

/// The array of a container: its content, then a descriptor with its name,
/// count flags and named sub-elements.
fn encode_container(c: &Container) -> (r: Vec<Json>)
    ensures
        container_wf(c@) ==> decode_container(r@) == Ok::<ContainerModel, ErrorModel>(c@),
    decreases *c,
{
    proof {
        lemma_sigil_chars();
        lemma_objects_model(c.content@);
        lemma_named_model(c.named_subelements@);
        if container_wf(c@) {
            lemma_all_wf_index(c@.content);
            lemma_named_wf_index(c@.named_subelements);
        }
    }
    let ghost wf = container_wf(c@);
    let mut items: Vec<Json> = Vec::new();
    assert(c@.content.subrange(0, 0) =~= Seq::<ObjectModel>::empty());
    assert(decode_all(items@) == Ok::<Seq<ObjectModel>, ErrorModel>(Seq::empty()));
    let mut i: usize = 0;
    while i < c.content.len()
        invariant
            i <= c.content.len(),
            wf == container_wf(c@),
            c@.content == objects_model(c.content@),
            c@.content.len() == c.content.len(),
            forall|j: int| 0 <= j < c.content.len() ==> #[trigger] c@.content[j] == object_model(c.content@[j]),
            wf ==> forall|j: int| 0 <= j < c.content.len() ==> object_wf(#[trigger] c@.content[j]),
            wf ==> decode_all(items@) == Ok::<Seq<ObjectModel>, ErrorModel>(
                c@.content.subrange(0, i as int),
            ),
        decreases c.content.len() - i,
    {
        assert(decreases_to!(c.content@ => c.content@[i as int]));
        let x = encode_object(&c.content[i]);
        proof {
            if wf {
                assert(object_wf(c@.content[i as int]));
                lemma_decode_all_push(items@, x);
                assert(c@.content.subrange(0, i + 1) =~= c@.content.subrange(0, i as int).push(
                    c@.content[i as int],
                ));
            }
        }
        items.push(x);
        i = i + 1;
    }
    let mut fields: Vec<JsonEntry> = Vec::new();
    let has_name = c.name.is_some();
    match &c.name {
        Some(n) => {
            fields.push(entry("#n", text_of(n.as_str())));
        },
        None => {},
    }
    let visits: u8 = if c.visits_should_be_counted {
        1
    } else {
        0
    };
    let turns: u8 = if c.turn_index_should_be_counted {
        2
    } else {
        0
    };
    let start_only: u8 = if c.count_at_start_only {
        4
    } else {
        0
    };
    let f: u8 = visits | turns | start_only;
    proof {
        lemma_decimal_reads_back(f as nat);
        let a = c.visits_should_be_counted;
        let b = c.turn_index_should_be_counted;
        let d = c.count_at_start_only;
        assert(((f & 1 != 0) == a) && ((f & 2 != 0) == b) && ((f & 4 != 0) == d)) by (bit_vector)
            requires
                f == ((if a { 1u8 } else { 0u8 }) | (if b { 2u8 } else { 0u8 }) | (if d {
                    4u8
                } else {
                    0u8
                })),
        ;
    }
    fields.push(entry("#f", number_of(f as usize)));
    let prefix = fields.len();
    proof {
        reveal_with_fuel(decode_named, 3);
        assert(decode_named(fields@) == Ok::<Seq<(Seq<char>, ObjectModel)>, ErrorModel>(
            Seq::empty(),
        ));
        assert(c@.named_subelements.subrange(0, 0) =~= Seq::<(Seq<char>, ObjectModel)>::empty());
    }
    let mut k: usize = 0;
    while k < c.named_subelements.len()
        invariant
            k <= c.named_subelements.len(),
            wf == container_wf(c@),
            prefix == fields.len() - k,
            prefix == (if has_name { 2usize } else { 1usize }),
            has_name == (c.name is Some),
            has_name ==> fields@[0].key@ == "#n"@ && (fields@[0].value matches Json::Str(t) && t@
                == c@.name->Some_0),
            fields@[prefix - 1].key@ == "#f"@,
            fields@[prefix - 1].value matches Json::Number(t) && t@ == decimal_text(f as nat),
            c@.named_subelements == named_model(c.named_subelements@),
            c@.named_subelements.len() == c.named_subelements.len(),
            forall|j: int|
                0 <= j < c.named_subelements.len() ==> #[trigger] c@.named_subelements[j] == (
                    c.named_subelements@[j].0@,
                    object_model(c.named_subelements@[j].1),
                ),
            wf ==> forall|j: int|
                0 <= j < c.named_subelements.len() ==> !is_descriptor_key(
                    (#[trigger] c@.named_subelements[j]).0,
                ) && object_wf(c@.named_subelements[j].1) && named_after(
                    c@.named_subelements[j].1,
                    c@.named_subelements[j].0,
                ) == c@.named_subelements[j].1,
            wf ==> forall|j: int| prefix <= j < fields.len() ==> !is_descriptor_key(
                (#[trigger] fields@[j]).key@,
            ),
            wf ==> decode_named(fields@) == Ok::<Seq<(Seq<char>, ObjectModel)>, ErrorModel>(
                c@.named_subelements.subrange(0, k as int),
            ),
        decreases c.named_subelements.len() - k,
    {
        let key = c.named_subelements[k].0.as_str();
        assert(decreases_to!(c.named_subelements@ => c.named_subelements@[k as int]));
        let x = encode_object(&c.named_subelements[k].1);
        let e = entry(key, x);
        proof {
            if wf {
                assert(e.key@ == c@.named_subelements[k as int].0);
                assert(!is_descriptor_key(e.key@));
                lemma_decode_named_push(fields@, e);
                assert(c@.named_subelements.subrange(0, k + 1) =~= c@.named_subelements.subrange(
                    0,
                    k as int,
                ).push(c@.named_subelements[k as int]));
            }
        }
        fields.push(e);
        k = k + 1;
    }
    proof {
        if wf {
            assert(c@.named_subelements.subrange(0, k as int) =~= c@.named_subelements);
            if !has_name {
                assert forall|j: int| 0 <= j < fields.len() implies (#[trigger] fields@[j]).key@
                    != "#n"@ by {
                    if j >= prefix {
                        assert(!is_descriptor_key(fields@[j].key@));
                    }
                }
                lemma_field_absent(fields@, "#n"@);
            }
            reveal_with_fuel(field, 3);
            assert(c@.content.subrange(0, c.content.len() as int) =~= c@.content);
        }
    }
    let ghost body = items@;
    items.push(Json::Object(fields));
    proof {
        if wf {
            assert(items@.drop_last() =~= body);
        }
    }
    items
}

/// A graph that decoding can give: a version this engine reads, and a
/// well-formed root.
pub open spec fn graph_wf(g: GraphModel) -> bool {
    g.ink_version <= INK_VERSION_CURRENT && container_wf(g.root)
}

/// Every graph that a document decodes to is well-formed; with the contract
/// of `RuntimeGraph::to_json`, writing it back and decoding again gives the
/// same graph.
pub proof fn lemma_decoded_graph_wf(j: Json)
    ensures
        decode_graph(j) matches Ok(g) ==> graph_wf(g),
{
    match j {
        Json::Object(fields) => {
            match field(fields@, "root"@) {
                Some(Json::Array(items)) => {
                    lemma_container_wf(items@);
                },
                _ => {},
            }
        },
        _ => {},
    }
}

#[verifier::spinoff_prover]
#[verifier::rlimit(100)]
proof fn lemma_document(fields: Vec<JsonEntry>, v: u32, root: ContainerModel)
    requires
        fields@.len() == 3,
        fields@[0].key@ == "inkVersion"@,
        is_number(fields@[0].value, v as int),
        fields@[1].key@ == "root"@,
        fields@[1].value matches Json::Array(items) && decode_container(items@) == Ok::<
            ContainerModel,
            ErrorModel,
        >(root),
        fields@[2].key@ == "listDefs"@,
        fields@[2].value matches Json::Object(d) && d@.len() == 0,
        v <= INK_VERSION_CURRENT,
    ensures
        decode_graph(Json::Object(fields)) == Ok::<GraphModel, ErrorModel>(
            GraphModel { ink_version: v, root },
        ),
{
    lemma_sigil_chars();
    reveal_with_fuel(field, 4);
    lemma_int_reads_back(v as int);
}

impl RuntimeGraph {
    /// The document of the graph, as the format writes it. Decoding it gives
    /// the graph back, wherever the graph is one that decoding can give.
    pub fn to_json(&self) -> (r: Json)
        ensures
            graph_wf(self@) ==> decode_graph(r) == Ok::<GraphModel, ErrorModel>(self@),
    {
        let items = encode_container(&self.root_container);
        let mut fields: Vec<JsonEntry> = Vec::new();
        fields.push(entry("inkVersion", number_of(self.ink_version as usize)));
        fields.push(entry("root", Json::Array(items)));
        fields.push(entry("listDefs", Json::Object(Vec::new())));
        proof {
            if graph_wf(self@) {
                lemma_document(fields, self.ink_version, self@.root);
            }
        }
        Json::Object(fields)
    }
}

} // verus!
