use std::rc::Rc;
use vstd::prelude::*;
use vstd::string::*;

use crate::decimal::{integer_in, parse_integer};
use crate::json::{field, get_field, Json, JsonEntry};
use crate::object::{
    AssignmentModel, ChoiceModel, ChoicePoint, Container, ContainerModel, ControlCommand, Divert,
    DivertModel, Glue, NativeFunctionCall, ObjectModel, PushPopType, ReadCount, RuntimeObject,
    Tag, TargetModel, TargetType, VariableAssignment, VariableReference, container_model,
    lemma_named_model, lemma_objects_model, named_model, objects_model,
};
use crate::path::{parse_path, str_equal, Path, PathView};
use crate::value::{Value, ValueModel};

verus! {

/// Why a document could not be decoded.
#[derive(Debug, Clone, PartialEq)]
pub enum DecodeError {
    Syntax { line: usize, column: usize, message: String },
    Schema { field: String, message: String },
    UnknownSigil(String),
    InvalidPath(String),
    UnsupportedVersion(u32),
}

pub enum ErrorModel {
    Syntax(nat, nat, Seq<char>),
    Schema(Seq<char>, Seq<char>),
    UnknownSigil(Seq<char>),
    InvalidPath(Seq<char>),
    UnsupportedVersion(u32),
}

impl View for DecodeError {
    type V = ErrorModel;

    open spec fn view(&self) -> ErrorModel {
        match self {
            DecodeError::Syntax { line, column, message } => ErrorModel::Syntax(
                *line as nat,
                *column as nat,
                message@,
            ),
            DecodeError::Schema { field, message } => ErrorModel::Schema(field@, message@),
            DecodeError::UnknownSigil(s) => ErrorModel::UnknownSigil(s@),
            DecodeError::InvalidPath(s) => ErrorModel::InvalidPath(s@),
            DecodeError::UnsupportedVersion(v) => ErrorModel::UnsupportedVersion(*v),
        }
    }
}

pub open spec fn expected_string() -> Seq<char> {
    "expected a string"@
}

pub open spec fn expected_integer() -> Seq<char> {
    "expected an integer in range"@
}

pub open spec fn expected_bool() -> Seq<char> {
    "expected true or false"@
}

pub open spec fn bad_container_end() -> Seq<char> {
    "a container ends with an object or null"@
}

pub open spec fn not_an_object() -> Seq<char> {
    "a boolean is not a runtime object"@
}

pub open spec fn lists_unsupported() -> Seq<char> {
    "lists are not supported"@
}

pub(crate) fn schema(field: &str, message: &str) -> (r: DecodeError)
    ensures
        r@ == ErrorModel::Schema(field@, message@),
{
    DecodeError::Schema { field: String::from_str(field), message: String::from_str(message) }
}

pub open spec fn glue_of(s: Seq<char>) -> Option<Glue> {
    if s == "<>"@ {
        Some(Glue::Bidirectional)
    } else if s == "G<"@ {
        Some(Glue::Left)
    } else if s == "G>"@ {
        Some(Glue::Right)
    } else {
        None
    }
}

pub open spec fn command_of(s: Seq<char>) -> Option<ControlCommand> {
    if s == "ev"@ {
        Some(ControlCommand::EvalStart)
    } else if s == "out"@ {
        Some(ControlCommand::EvalOutput)
    } else if s == "/ev"@ {
        Some(ControlCommand::EvalEnd)
    } else if s == "du"@ {
        Some(ControlCommand::Duplicate)
    } else if s == "pop"@ {
        Some(ControlCommand::PopEvaluatedValue)
    } else if s == "~ret"@ {
        Some(ControlCommand::PopFunction)
    } else if s == "->->"@ {
        Some(ControlCommand::PopTunnel)
    } else if s == "str"@ {
        Some(ControlCommand::BeginString)
    } else if s == "/str"@ {
        Some(ControlCommand::EndString)
    } else if s == "nop"@ {
        Some(ControlCommand::NoOp)
    } else if s == "choiceCnt"@ {
        Some(ControlCommand::ChoiceCount)
    } else if s == "turns"@ {
        Some(ControlCommand::TurnsSince)
    } else if s == "readc"@ {
        Some(ControlCommand::ReadCount)
    } else if s == "rnd"@ {
        Some(ControlCommand::Random)
    } else if s == "srnd"@ {
        Some(ControlCommand::SeedRandom)
    } else if s == "visit"@ {
        Some(ControlCommand::VisitIndex)
    } else if s == "seq"@ {
        Some(ControlCommand::SequenceShuffleIndex)
    } else if s == "thread"@ {
        Some(ControlCommand::StartThread)
    } else if s == "done"@ {
        Some(ControlCommand::Done)
    } else if s == "end"@ {
        Some(ControlCommand::End)
    } else if s == "listInt"@ {
        Some(ControlCommand::ListFromInt)
    } else if s == "range"@ {
        Some(ControlCommand::ListRange)
    } else {
        None
    }
}

pub open spec fn operator_of(s: Seq<char>) -> Option<NativeFunctionCall> {
    if s == "+"@ {
        Some(NativeFunctionCall::Plus)
    } else if s == "-"@ {
        Some(NativeFunctionCall::Minus)
    } else if s == "/"@ {
        Some(NativeFunctionCall::Divide)
    } else if s == "*"@ {
        Some(NativeFunctionCall::Multiply)
    } else if s == "%"@ {
        Some(NativeFunctionCall::Modulo)
    } else if s == "_"@ {
        Some(NativeFunctionCall::UnaryMinus)
    } else if s == "=="@ {
        Some(NativeFunctionCall::Eq)
    } else if s == ">"@ {
        Some(NativeFunctionCall::GT)
    } else if s == "<"@ {
        Some(NativeFunctionCall::LT)
    } else if s == ">="@ {
        Some(NativeFunctionCall::GEq)
    } else if s == "<="@ {
        Some(NativeFunctionCall::LEq)
    } else if s == "!="@ {
        Some(NativeFunctionCall::NEq)
    } else if s == "!"@ {
        Some(NativeFunctionCall::UnaryNot)
    } else if s == "&&"@ {
        Some(NativeFunctionCall::And)
    } else if s == "||"@ {
        Some(NativeFunctionCall::Or)
    } else if s == "MIN"@ {
        Some(NativeFunctionCall::Min)
    } else if s == "MAX"@ {
        Some(NativeFunctionCall::Max)
    } else {
        None
    }
}

pub fn glue_from_sigil(s: &str) -> (r: Option<Glue>)
    ensures
        r == glue_of(s@),
{
    if str_equal(s, "<>") {
        Some(Glue::Bidirectional)
    } else if str_equal(s, "G<") {
        Some(Glue::Left)
    } else if str_equal(s, "G>") {
        Some(Glue::Right)
    } else {
        None
    }
}

pub fn command_from_sigil(s: &str) -> (r: Option<ControlCommand>)
    ensures
        r == command_of(s@),
{
    if str_equal(s, "ev") {
        Some(ControlCommand::EvalStart)
    } else if str_equal(s, "out") {
        Some(ControlCommand::EvalOutput)
    } else if str_equal(s, "/ev") {
        Some(ControlCommand::EvalEnd)
    } else if str_equal(s, "du") {
        Some(ControlCommand::Duplicate)
    } else if str_equal(s, "pop") {
        Some(ControlCommand::PopEvaluatedValue)
    } else if str_equal(s, "~ret") {
        Some(ControlCommand::PopFunction)
    } else if str_equal(s, "->->") {
        Some(ControlCommand::PopTunnel)
    } else if str_equal(s, "str") {
        Some(ControlCommand::BeginString)
    } else if str_equal(s, "/str") {
        Some(ControlCommand::EndString)
    } else if str_equal(s, "nop") {
        Some(ControlCommand::NoOp)
    } else if str_equal(s, "choiceCnt") {
        Some(ControlCommand::ChoiceCount)
    } else if str_equal(s, "turns") {
        Some(ControlCommand::TurnsSince)
    } else if str_equal(s, "readc") {
        Some(ControlCommand::ReadCount)
    } else if str_equal(s, "rnd") {
        Some(ControlCommand::Random)
    } else if str_equal(s, "srnd") {
        Some(ControlCommand::SeedRandom)
    } else if str_equal(s, "visit") {
        Some(ControlCommand::VisitIndex)
    } else if str_equal(s, "seq") {
        Some(ControlCommand::SequenceShuffleIndex)
    } else if str_equal(s, "thread") {
        Some(ControlCommand::StartThread)
    } else if str_equal(s, "done") {
        Some(ControlCommand::Done)
    } else if str_equal(s, "end") {
        Some(ControlCommand::End)
    } else if str_equal(s, "listInt") {
        Some(ControlCommand::ListFromInt)
    } else if str_equal(s, "range") {
        Some(ControlCommand::ListRange)
    } else {
        None
    }
}

pub fn operator_from_sigil(s: &str) -> (r: Option<NativeFunctionCall>)
    ensures
        r == operator_of(s@),
{
    if str_equal(s, "+") {
        Some(NativeFunctionCall::Plus)
    } else if str_equal(s, "-") {
        Some(NativeFunctionCall::Minus)
    } else if str_equal(s, "/") {
        Some(NativeFunctionCall::Divide)
    } else if str_equal(s, "*") {
        Some(NativeFunctionCall::Multiply)
    } else if str_equal(s, "%") {
        Some(NativeFunctionCall::Modulo)
    } else if str_equal(s, "_") {
        Some(NativeFunctionCall::UnaryMinus)
    } else if str_equal(s, "==") {
        Some(NativeFunctionCall::Eq)
    } else if str_equal(s, ">") {
        Some(NativeFunctionCall::GT)
    } else if str_equal(s, "<") {
        Some(NativeFunctionCall::LT)
    } else if str_equal(s, ">=") {
        Some(NativeFunctionCall::GEq)
    } else if str_equal(s, "<=") {
        Some(NativeFunctionCall::LEq)
    } else if str_equal(s, "!=") {
        Some(NativeFunctionCall::NEq)
    } else if str_equal(s, "!") {
        Some(NativeFunctionCall::UnaryNot)
    } else if str_equal(s, "&&") {
        Some(NativeFunctionCall::And)
    } else if str_equal(s, "||") {
        Some(NativeFunctionCall::Or)
    } else if str_equal(s, "MIN") {
        Some(NativeFunctionCall::Min)
    } else if str_equal(s, "MAX") {
        Some(NativeFunctionCall::Max)
    } else {
        None
    }
}


/// What a JSON number stands for: an `Int` where it is an integer that fits
/// in 32 bits, else a `Float` that keeps its text.
pub open spec fn number_value(t: Seq<char>) -> ValueModel {
    match integer_in(t, i32::MIN as int, i32::MAX as int) {
        Some(v) => ValueModel::Int(v),
        None => ValueModel::Float(t),
    }
}

/// What a JSON string stands for.
pub open spec fn decode_text(s: Seq<char>) -> Result<ObjectModel, ErrorModel> {
    if s == "\n"@ {
        Ok(ObjectModel::Value(ValueModel::Str(s)))
    } else if s.len() > 0 && s[0] == '^' {
        Ok(ObjectModel::Value(ValueModel::Str(s.drop_first())))
    } else if glue_of(s) is Some {
        Ok(ObjectModel::Glue(glue_of(s)->Some_0))
    } else if command_of(s) is Some {
        Ok(ObjectModel::ControlCommand(command_of(s)->Some_0))
    } else if operator_of(s) is Some {
        Ok(ObjectModel::NativeFunctionCall(operator_of(s)->Some_0))
    } else if s == "void"@ {
        Ok(ObjectModel::Void)
    } else {
        Err(ErrorModel::UnknownSigil(s))
    }
}

/// The text under `key`, which must be a string.
pub open spec fn string_field(fields: Seq<JsonEntry>, key: Seq<char>) -> Result<Seq<char>, ErrorModel> {
    match field(fields, key) {
        Some(Json::Str(s)) => Ok(s@),
        _ => Err(ErrorModel::Schema(key, expected_string())),
    }
}

/// A flag under `key`: false where absent.
pub open spec fn flag_field(fields: Seq<JsonEntry>, key: Seq<char>) -> Result<bool, ErrorModel> {
    match field(fields, key) {
        None => Ok(false),
        Some(Json::Bool(b)) => Ok(b),
        Some(_) => Err(ErrorModel::Schema(key, expected_bool())),
    }
}

/// An integer in `lo..=hi` under `key`: `default` where absent.
pub open spec fn int_field(fields: Seq<JsonEntry>, key: Seq<char>, lo: int, hi: int, default: int) -> Result<
    int,
    ErrorModel,
> {
    match field(fields, key) {
        None => Ok(default),
        Some(Json::Number(t)) => match integer_in(t@, lo, hi) {
            Some(v) => Ok(v),
            None => Err(ErrorModel::Schema(key, expected_integer())),
        },
        Some(_) => Err(ErrorModel::Schema(key, expected_integer())),
    }
}

pub open spec fn path_of(text: Seq<char>) -> Result<PathView, ErrorModel> {
    match parse_path(text) {
        Some(p) => Ok(p),
        None => Err(ErrorModel::InvalidPath(text)),
    }
}

/// The path written under `key`.
pub open spec fn path_field(fields: Seq<JsonEntry>, key: Seq<char>) -> Result<PathView, ErrorModel> {
    match string_field(fields, key) {
        Ok(t) => path_of(t),
        Err(e) => Err(e),
    }
}

pub open spec fn divert_model(
    target: TargetModel,
    push: PushPopType,
    pushes: bool,
    args: Option<u32>,
    c: bool,
) -> ObjectModel {
    ObjectModel::Divert(
        DivertModel {
            target,
            stack_push_type: push,
            pushes_to_stack: pushes,
            external_args: args,
            is_conditional: c,
        },
    )
}

/// A divert to the path under `key`, with the condition flag `c`.
pub open spec fn path_divert(fields: Seq<JsonEntry>, key: Seq<char>, push: PushPopType, pushes: bool) -> Result<
    ObjectModel,
    ErrorModel,
> {
    match path_field(fields, key) {
        Err(e) => Err(e),
        Ok(p) => match flag_field(fields, "c"@) {
            Err(e) => Err(e),
            Ok(c) => Ok(divert_model(TargetModel::Path(p), push, pushes, None, c)),
        },
    }
}

pub open spec fn choice_model(p: PathView, f: u8) -> ChoiceModel {
    ChoiceModel {
        has_condition: f & 1 != 0,
        has_start_content: f & 2 != 0,
        has_choice_only_content: f & 4 != 0,
        is_invisible_default: f & 8 != 0,
        once_only: f & 16 != 0,
        choice_target_path: p,
    }
}

pub open spec fn assignment(fields: Seq<JsonEntry>, key: Seq<char>, global: bool) -> Result<
    ObjectModel,
    ErrorModel,
> {
    match string_field(fields, key) {
        Err(e) => Err(e),
        Ok(name) => match flag_field(fields, "re"@) {
            Err(e) => Err(e),
            Ok(re) => Ok(
                ObjectModel::VariableAssignment(
                    AssignmentModel { name, is_new_declaration: !re, is_global: global },
                ),
            ),
        },
    }
}

/// A container gets `key` as its name where it has none.
pub open spec fn named_after(o: ObjectModel, key: Seq<char>) -> ObjectModel {
    match o {
        ObjectModel::Container(c) => if c.name is None {
            ObjectModel::Container(ContainerModel { name: Some(key), ..c })
        } else {
            o
        },
        _ => o,
    }
}

/// What a JSON value stands for in the graph.
pub open spec fn decode_json(j: Json) -> Result<ObjectModel, ErrorModel>
    decreases j, 3nat,
{
    match j {
        Json::Null => Ok(ObjectModel::Null),
        Json::Bool(_) => Err(ErrorModel::Schema("value"@, not_an_object())),
        Json::Number(t) => Ok(ObjectModel::Value(number_value(t@))),
        Json::Str(s) => decode_text(s@),
        Json::Array(items) => match decode_container(items@) {
            Ok(c) => Ok(ObjectModel::Container(c)),
            Err(e) => Err(e),
        },
        Json::Object(fields) => decode_keyed(fields@),
    }
}

/// An object is read by the first sigil key that it holds, in this order.
pub open spec fn decode_keyed(fields: Seq<JsonEntry>) -> Result<ObjectModel, ErrorModel>
    decreases fields, 2nat,
{
    if field(fields, "^->"@) is Some {
        match path_field(fields, "^->"@) {
            Err(e) => Err(e),
            Ok(p) => Ok(ObjectModel::Value(ValueModel::DivertTarget(p))),
        }
    } else if field(fields, "^var"@) is Some {
        match string_field(fields, "^var"@) {
            Err(e) => Err(e),
            Ok(name) => match int_field(fields, "ci"@, i32::MIN as int, i32::MAX as int, -1) {
                Err(e) => Err(e),
                Ok(ci) => Ok(ObjectModel::Value(ValueModel::VariablePointer(name, ci))),
            },
        }
    } else if field(fields, "->"@) is Some {
        match string_field(fields, "->"@) {
            Err(e) => Err(e),
            Ok(t) => match flag_field(fields, "var"@) {
                Err(e) => Err(e),
                Ok(true) => match flag_field(fields, "c"@) {
                    Err(e) => Err(e),
                    Ok(c) => Ok(
                        divert_model(TargetModel::VarName(t), PushPopType::NoPush, false, None, c),
                    ),
                },
                Ok(false) => path_divert(fields, "->"@, PushPopType::NoPush, false),
            },
        }
    } else if field(fields, "f()"@) is Some {
        path_divert(fields, "f()"@, PushPopType::Function, true)
    } else if field(fields, "->t->"@) is Some {
        path_divert(fields, "->t->"@, PushPopType::Tunnel, true)
    } else if field(fields, "x()"@) is Some {
        match string_field(fields, "x()"@) {
            Err(e) => Err(e),
            Ok(name) => match int_field(fields, "exArgs"@, 0, u32::MAX as int, 0) {
                Err(e) => Err(e),
                Ok(n) => match flag_field(fields, "c"@) {
                    Err(e) => Err(e),
                    Ok(c) => Ok(
                        divert_model(
                            TargetModel::ExternalName(name),
                            PushPopType::Function,
                            false,
                            Some(n as u32),
                            c,
                        ),
                    ),
                },
            },
        }
    } else if field(fields, "*"@) is Some {
        match path_field(fields, "*"@) {
            Err(e) => Err(e),
            Ok(p) => match int_field(fields, "flg"@, 0, 255, 0) {
                Err(e) => Err(e),
                Ok(f) => Ok(ObjectModel::Choice(choice_model(p, f as u8))),
            },
        }
    } else if field(fields, "VAR?"@) is Some {
        match string_field(fields, "VAR?"@) {
            Err(e) => Err(e),
            Ok(name) => Ok(ObjectModel::VariableReference(name)),
        }
    } else if field(fields, "CNT?"@) is Some {
        match path_field(fields, "CNT?"@) {
            Err(e) => Err(e),
            Ok(p) => Ok(ObjectModel::ReadCount(p)),
        }
    } else if field(fields, "VAR="@) is Some {
        assignment(fields, "VAR="@, true)
    } else if field(fields, "temp="@) is Some {
        assignment(fields, "temp="@, false)
    } else if field(fields, "#"@) is Some {
        match string_field(fields, "#"@) {
            Err(e) => Err(e),
            Ok(text) => Ok(ObjectModel::Tag(text)),
        }
    } else if field(fields, "list"@) is Some {
        Err(ErrorModel::Schema("list"@, lists_unsupported()))
    } else {
        match decode_descriptor(fields) {
            Ok(c) => Ok(ObjectModel::Container(c)),
            Err(e) => Err(e),
        }
    }
}

/// A container without content, from a descriptor object: `#n` names it,
/// `#f` holds its count flags, every other key is a named sub-element.
pub open spec fn decode_descriptor(fields: Seq<JsonEntry>) -> Result<ContainerModel, ErrorModel>
    decreases fields, 1nat,
{
    let name: Result<Option<Seq<char>>, ErrorModel> = match field(fields, "#n"@) {
        None => Ok(None),
        Some(Json::Str(s)) => Ok(Some(s@)),
        Some(_) => Err(ErrorModel::Schema("#n"@, expected_string())),
    };
    match name {
        Err(e) => Err(e),
        Ok(name) => match int_field(fields, "#f"@, 0, 255, 0) {
            Err(e) => Err(e),
            Ok(f) => match decode_named(fields) {
                Err(e) => Err(e),
                Ok(named) => Ok(
                    ContainerModel {
                        content: Seq::empty(),
                        named_subelements: named,
                        name,
                        visits_should_be_counted: (f as u8) & 1 != 0,
                        turn_index_should_be_counted: (f as u8) & 2 != 0,
                        count_at_start_only: (f as u8) & 4 != 0,
                    },
                ),
            },
        },
    }
}

pub open spec fn is_descriptor_key(k: Seq<char>) -> bool {
    k == "#n"@ || k == "#f"@
}

/// The named sub-elements of a descriptor, in its order.
pub open spec fn decode_named(fields: Seq<JsonEntry>) -> Result<Seq<(Seq<char>, ObjectModel)>, ErrorModel>
    decreases fields, 0nat,
{
    if fields.len() == 0 {
        Ok(Seq::empty())
    } else if is_descriptor_key(fields[0].key@) {
        decode_named(fields.drop_first())
    } else {
        match decode_json(fields[0].value) {
            Err(e) => Err(e),
            Ok(o) => match decode_named(fields.drop_first()) {
                Err(e) => Err(e),
                Ok(rest) => Ok(seq![(fields[0].key@, named_after(o, fields[0].key@))] + rest),
            },
        }
    }
}

/// A container from its array: the content, then a descriptor or `null`.
pub open spec fn decode_container(items: Seq<Json>) -> Result<ContainerModel, ErrorModel>
    decreases items, 1nat,
{
    if items.len() == 0 {
        Err(ErrorModel::Schema("container"@, bad_container_end()))
    } else {
        let last = items.last();
        let descriptor = match last {
            Json::Null => Ok(
                ContainerModel {
                    content: Seq::empty(),
                    named_subelements: Seq::empty(),
                    name: None,
                    visits_should_be_counted: false,
                    turn_index_should_be_counted: false,
                    count_at_start_only: false,
                },
            ),
            Json::Object(fields) => decode_descriptor(fields@),
            _ => Err(ErrorModel::Schema("container"@, bad_container_end())),
        };
        match descriptor {
            Err(e) => Err(e),
            Ok(d) => match decode_all(items.drop_last()) {
                Err(e) => Err(e),
                Ok(content) => Ok(ContainerModel { content, ..d }),
            },
        }
    }
}

/// Every value of `items` decoded in order; the first error wins.
pub open spec fn decode_all(items: Seq<Json>) -> Result<Seq<ObjectModel>, ErrorModel>
    decreases items, 0nat,
{
    if items.len() == 0 {
        Ok(Seq::empty())
    } else {
        match decode_json(items[0]) {
            Err(e) => Err(e),
            Ok(o) => match decode_all(items.drop_first()) {
                Err(e) => Err(e),
                Ok(rest) => Ok(seq![o] + rest),
            },
        }
    }
}


pub open spec fn object_outcome(r: Result<RuntimeObject, DecodeError>) -> Result<ObjectModel, ErrorModel> {
    match r {
        Ok(o) => Ok(o@),
        Err(e) => Err(e@),
    }
}

pub open spec fn container_outcome(r: Result<Container, DecodeError>) -> Result<ContainerModel, ErrorModel> {
    match r {
        Ok(c) => Ok(c@),
        Err(e) => Err(e@),
    }
}

/// A decoding that names a container after `key`, where one is given.
pub open spec fn named_outcome(d: Result<ObjectModel, ErrorModel>, key: Option<Seq<char>>) -> Result<
    ObjectModel,
    ErrorModel,
> {
    match (d, key) {
        (Ok(o), Some(k)) => Ok(named_after(o, k)),
        _ => d,
    }
}

pub open spec fn key_view(key: Option<&str>) -> Option<Seq<char>> {
    match key {
        Some(k) => Some(k@),
        None => None,
    }
}

fn string_field_exec<'a>(fields: &'a Vec<JsonEntry>, key: &str) -> (r: Result<&'a String, DecodeError>)
    ensures
        match r {
            Ok(s) => string_field(fields@, key@) == Ok::<Seq<char>, ErrorModel>(s@),
            Err(e) => string_field(fields@, key@) == Err::<Seq<char>, ErrorModel>(e@),
        },
{
    match get_field(fields, key) {
        Some(Json::Str(s)) => Ok(s),
        _ => Err(schema(key, "expected a string")),
    }
}

fn flag_field_exec(fields: &Vec<JsonEntry>, key: &str) -> (r: Result<bool, DecodeError>)
    ensures
        match r {
            Ok(b) => flag_field(fields@, key@) == Ok::<bool, ErrorModel>(b),
            Err(e) => flag_field(fields@, key@) == Err::<bool, ErrorModel>(e@),
        },
{
    match get_field(fields, key) {
        None => Ok(false),
        Some(Json::Bool(b)) => Ok(*b),
        Some(_) => Err(schema(key, "expected true or false")),
    }
}

pub(crate) fn int_field_exec(fields: &Vec<JsonEntry>, key: &str, lo: i64, hi: i64, default: i64) -> (r: Result<
    i64,
    DecodeError,
>)
    requires
        -0x100_0000_0000 < lo <= hi < 0x100_0000_0000,
    ensures
        match r {
            Ok(v) => int_field(fields@, key@, lo as int, hi as int, default as int) == Ok::<
                int,
                ErrorModel,
            >(v as int),
            Err(e) => int_field(fields@, key@, lo as int, hi as int, default as int) == Err::<
                int,
                ErrorModel,
            >(e@),
        },
{
    match get_field(fields, key) {
        None => Ok(default),
        Some(Json::Number(t)) => match parse_integer(t.as_str(), lo, hi) {
            Some(v) => Ok(v),
            None => Err(schema(key, "expected an integer in range")),
        },
        Some(_) => Err(schema(key, "expected an integer in range")),
    }
}

fn path_of_exec(text: &str) -> (r: Result<Path, DecodeError>)
    ensures
        match r {
            Ok(p) => path_of(text@) == Ok::<PathView, ErrorModel>(p@),
            Err(e) => path_of(text@) == Err::<PathView, ErrorModel>(e@),
        },
{
    match Path::parse(text) {
        Ok(p) => Ok(p),
        Err(_) => Err(DecodeError::InvalidPath(String::from_str(text))),
    }
}

fn path_field_exec(fields: &Vec<JsonEntry>, key: &str) -> (r: Result<Path, DecodeError>)
    ensures
        match r {
            Ok(p) => path_field(fields@, key@) == Ok::<PathView, ErrorModel>(p@),
            Err(e) => path_field(fields@, key@) == Err::<PathView, ErrorModel>(e@),
        },
{
    match string_field_exec(fields, key) {
        Ok(t) => path_of_exec(t.as_str()),
        Err(e) => Err(e),
    }
}

fn path_divert_exec(fields: &Vec<JsonEntry>, key: &str, push: PushPopType, pushes: bool) -> (r: Result<
    RuntimeObject,
    DecodeError,
>)
    ensures
        object_outcome(r) == path_divert(fields@, key@, push, pushes),
{
    proof {
        reveal_strlit("c");
    }
    let p = match path_field_exec(fields, key) {
        Ok(p) => p,
        Err(e) => return Err(e),
    };
    let c = match flag_field_exec(fields, "c") {
        Ok(c) => c,
        Err(e) => return Err(e),
    };
    Ok(
        RuntimeObject::Divert(
            Divert {
                target: TargetType::Path(p),
                stack_push_type: push,
                pushes_to_stack: pushes,
                external_args: None,
                is_conditional: c,
            },
        ),
    )
}

fn assignment_exec(fields: &Vec<JsonEntry>, key: &str, global: bool) -> (r: Result<
    RuntimeObject,
    DecodeError,
>)
    ensures
        object_outcome(r) == assignment(fields@, key@, global),
{
    let name = match string_field_exec(fields, key) {
        Ok(s) => String::from_str(s.as_str()),
        Err(e) => return Err(e),
    };
    let re = match flag_field_exec(fields, "re") {
        Ok(b) => b,
        Err(e) => return Err(e),
    };
    Ok(
        RuntimeObject::VariableAssignment(
            VariableAssignment { name, is_new_declaration: !re, is_global: global },
        ),
    )
}

fn number_exec(t: &String) -> (r: Value)
    ensures
        r@ == number_value(t@),
{
    match parse_integer(t.as_str(), i32::MIN as i64, i32::MAX as i64) {
        Some(v) => Value::Int(v as i32),
        None => Value::Float(String::from_str(t.as_str())),
    }
}

fn decode_text_exec(s: &String) -> (r: Result<RuntimeObject, DecodeError>)
    ensures
        object_outcome(r) == decode_text(s@),
{
    let s = s.as_str();
    if str_equal(s, "\n") {
        return Ok(RuntimeObject::Value(Value::String(String::from_str(s))));
    }
    let n = s.unicode_len();
    if n > 0 && s.get_char(0) == '^' {
        let rest = s.substring_char(1, n);
        assert(rest@ =~= s@.drop_first());
        return Ok(RuntimeObject::Value(Value::String(String::from_str(rest))));
    }
    if let Some(g) = glue_from_sigil(s) {
        return Ok(RuntimeObject::Glue(g));
    }
    if let Some(c) = command_from_sigil(s) {
        return Ok(RuntimeObject::ControlCommand(c));
    }
    if let Some(f) = operator_from_sigil(s) {
        return Ok(RuntimeObject::NativeFunctionCall(f));
    }
    if str_equal(s, "void") {
        return Ok(RuntimeObject::Void);
    }
    Err(DecodeError::UnknownSigil(String::from_str(s)))
}

/// Gives `c` the name `key` where it has none.
fn name_default(c: Container, key: Option<&str>) -> (r: Container)
    ensures
        r@ == match key_view(key) {
            Some(k) => if c@.name is None {
                ContainerModel { name: Some(k), ..c@ }
            } else {
                c@
            },
            None => c@,
        },
{
    let mut c = c;
    if c.name.is_none() {
        if let Some(k) = key {
            c.name = Some(String::from_str(k));
        }
    }
    c
}

pub(crate) fn decode_node(j: &Json, key: Option<&str>) -> (r: Result<RuntimeObject, DecodeError>)
    ensures
        object_outcome(r) == named_outcome(decode_json(*j), key_view(key)),
    decreases *j, 3nat,
{
    match j {
        Json::Null => Ok(RuntimeObject::Null),
        Json::Bool(_) => Err(schema("value", "a boolean is not a runtime object")),
        Json::Number(t) => Ok(RuntimeObject::Value(number_exec(t))),
        Json::Str(s) => decode_text_exec(s),
        Json::Array(items) => match decode_container_exec(items) {
            Ok(c) => Ok(RuntimeObject::Container(Rc::new(name_default(c, key)))),
            Err(e) => Err(e),
        },
        Json::Object(fields) => decode_keyed_exec(fields, key),
    }
}

fn decode_keyed_exec(fields: &Vec<JsonEntry>, key: Option<&str>) -> (r: Result<RuntimeObject, DecodeError>)
    ensures
        object_outcome(r) == named_outcome(decode_keyed(fields@), key_view(key)),
    decreases fields@, 2nat,
{
    proof {
        reveal_strlit("c");
    }
    if get_field(fields, "^->").is_some() {
        let p = match path_field_exec(fields, "^->") {
            Ok(p) => p,
            Err(e) => return Err(e),
        };
        Ok(RuntimeObject::Value(Value::DivertTarget { target_path: p }))
    } else if get_field(fields, "^var").is_some() {
        let name = match string_field_exec(fields, "^var") {
            Ok(s) => String::from_str(s.as_str()),
            Err(e) => return Err(e),
        };
        let ci = match int_field_exec(fields, "ci", i32::MIN as i64, i32::MAX as i64, -1) {
            Ok(v) => v,
            Err(e) => return Err(e),
        };
        Ok(RuntimeObject::Value(Value::VariablePointer { name, context_index: ci as i32 }))
    } else if get_field(fields, "->").is_some() {
        let t = match string_field_exec(fields, "->") {
            Ok(s) => s,
            Err(e) => return Err(e),
        };
        let var = match flag_field_exec(fields, "var") {
            Ok(b) => b,
            Err(e) => return Err(e),
        };
        if var {
            let c = match flag_field_exec(fields, "c") {
                Ok(c) => c,
                Err(e) => return Err(e),
            };
            Ok(
                RuntimeObject::Divert(
                    Divert::new(TargetType::VarName(String::from_str(t.as_str())), c),
                ),
            )
        } else {
            path_divert_exec(fields, "->", PushPopType::NoPush, false)
        }
    } else if get_field(fields, "f()").is_some() {
        path_divert_exec(fields, "f()", PushPopType::Function, true)
    } else if get_field(fields, "->t->").is_some() {
        path_divert_exec(fields, "->t->", PushPopType::Tunnel, true)
    } else if get_field(fields, "x()").is_some() {
        let name = match string_field_exec(fields, "x()") {
            Ok(s) => String::from_str(s.as_str()),
            Err(e) => return Err(e),
        };
        let n = match int_field_exec(fields, "exArgs", 0, u32::MAX as i64, 0) {
            Ok(v) => v,
            Err(e) => return Err(e),
        };
        let c = match flag_field_exec(fields, "c") {
            Ok(c) => c,
            Err(e) => return Err(e),
        };
        Ok(
            RuntimeObject::Divert(
                Divert {
                    target: TargetType::ExternalName(name),
                    stack_push_type: PushPopType::Function,
                    pushes_to_stack: false,
                    external_args: Some(n as u32),
                    is_conditional: c,
                },
            ),
        )
    } else if get_field(fields, "*").is_some() {
        let p = match path_field_exec(fields, "*") {
            Ok(p) => p,
            Err(e) => return Err(e),
        };
        let f = match int_field_exec(fields, "flg", 0, 255, 0) {
            Ok(v) => v,
            Err(e) => return Err(e),
        };
        Ok(RuntimeObject::Choice(ChoicePoint::new(p, f as u8)))
    } else if get_field(fields, "VAR?").is_some() {
        match string_field_exec(fields, "VAR?") {
            Ok(s) => Ok(
                RuntimeObject::VariableReference(
                    VariableReference { name: String::from_str(s.as_str()) },
                ),
            ),
            Err(e) => Err(e),
        }
    } else if get_field(fields, "CNT?").is_some() {
        match path_field_exec(fields, "CNT?") {
            Ok(p) => Ok(RuntimeObject::ReadCount(ReadCount { target: p })),
            Err(e) => Err(e),
        }
    } else if get_field(fields, "VAR=").is_some() {
        assignment_exec(fields, "VAR=", true)
    } else if get_field(fields, "temp=").is_some() {
        assignment_exec(fields, "temp=", false)
    } else if get_field(fields, "#").is_some() {
        match string_field_exec(fields, "#") {
            Ok(s) => Ok(RuntimeObject::Tag(Tag { text: String::from_str(s.as_str()) })),
            Err(e) => Err(e),
        }
    } else if get_field(fields, "list").is_some() {
        Err(schema("list", "lists are not supported"))
    } else {
        match decode_descriptor_exec(fields) {
            Ok(c) => Ok(RuntimeObject::Container(Rc::new(name_default(c, key)))),
            Err(e) => Err(e),
        }
    }
}

fn decode_descriptor_exec(fields: &Vec<JsonEntry>) -> (r: Result<Container, DecodeError>)
    ensures
        container_outcome(r) == decode_descriptor(fields@),
    decreases fields@, 1nat,
{
    let name = match get_field(fields, "#n") {
        None => None,
        Some(Json::Str(s)) => Some(String::from_str(s.as_str())),
        Some(_) => return Err(schema("#n", "expected a string")),
    };
    let f = match int_field_exec(fields, "#f", 0, 255, 0) {
        Ok(v) => v as u8,
        Err(e) => return Err(e),
    };
    let named = match decode_named_exec(fields) {
        Ok(n) => n,
        Err(e) => return Err(e),
    };
    let c = Container {
        content: Vec::new(),
        named_subelements: named,
        name,
        visits_should_be_counted: f & 0x1 != 0,
        turn_index_should_be_counted: f & 0x2 != 0,
        count_at_start_only: f & 0x4 != 0,
    };
    assert(c@.content =~= Seq::<ObjectModel>::empty());
    Ok(c)
}

pub open spec fn prepend_named(
    a: Seq<(Seq<char>, ObjectModel)>,
    r: Result<Seq<(Seq<char>, ObjectModel)>, ErrorModel>,
) -> Result<Seq<(Seq<char>, ObjectModel)>, ErrorModel> {
    match r {
        Ok(b) => Ok(a + b),
        Err(e) => Err(e),
    }
}

pub open spec fn prepend_objects(a: Seq<ObjectModel>, r: Result<Seq<ObjectModel>, ErrorModel>) -> Result<
    Seq<ObjectModel>,
    ErrorModel,
> {
    match r {
        Ok(b) => Ok(a + b),
        Err(e) => Err(e),
    }
}

fn decode_named_exec(fields: &Vec<JsonEntry>) -> (r: Result<Vec<(String, RuntimeObject)>, DecodeError>)
    ensures
        match r {
            Ok(v) => decode_named(fields@) == Ok::<Seq<(Seq<char>, ObjectModel)>, ErrorModel>(
                named_model(v@),
            ),
            Err(e) => decode_named(fields@) == Err::<Seq<(Seq<char>, ObjectModel)>, ErrorModel>(
                e@,
            ),
        },
    decreases fields@, 0nat,
{
    let mut out: Vec<(String, RuntimeObject)> = Vec::new();
    let mut i: usize = 0;
    let n = fields.len();
    assert(fields@.subrange(0, n as int) =~= fields@);
    assert(named_model(out@) =~= Seq::<(Seq<char>, ObjectModel)>::empty());
    while i < n
        invariant
            n == fields.len(),
            i <= n,
            decode_named(fields@) == prepend_named(
                named_model(out@),
                decode_named(fields@.subrange(i as int, n as int)),
            ),
        decreases n - i,
    {
        let ghost rest = fields@.subrange(i as int, n as int);
        assert(rest[0] == fields@[i as int]);
        assert(rest.drop_first() =~= fields@.subrange(i + 1, n as int));
        let entry = &fields[i];
        let key = entry.key.as_str();
        if str_equal(key, "#n") || str_equal(key, "#f") {
            assert(is_descriptor_key(rest[0].key@));
        } else {
            assert(!is_descriptor_key(rest[0].key@));
            assert(decreases_to!(fields@ => fields@[i as int]));
            let o = match decode_node(&entry.value, Some(key)) {
                Ok(o) => o,
                Err(e) => return Err(e),
            };
            let ghost before = out@;
            out.push((String::from_str(key), o));
            assert(out@.drop_last() =~= before);
            assert(named_model(out@) == named_model(before).push((key@, o@)));
            assert(named_model(out@) + decode_named(rest.drop_first())->Ok_0 =~= named_model(before)
                + (seq![(key@, o@)] + decode_named(rest.drop_first())->Ok_0));
        }
        i = i + 1;
    }
    assert(decode_named(fields@.subrange(n as int, n as int)) == Ok::<
        Seq<(Seq<char>, ObjectModel)>,
        ErrorModel,
    >(Seq::empty()));
    assert(named_model(out@) + Seq::<(Seq<char>, ObjectModel)>::empty() =~= named_model(out@));
    Ok(out)
}

pub(crate) fn decode_container_exec(items: &Vec<Json>) -> (r: Result<Container, DecodeError>)
    ensures
        container_outcome(r) == decode_container(items@),
    decreases items@, 1nat,
{
    let n = items.len();
    if n == 0 {
        return Err(schema("container", "a container ends with an object or null"));
    }
    assert(decreases_to!(items@ => items@[n - 1]));
    let mut c = match &items[n - 1] {
        Json::Null => Container::new(),
        Json::Object(fields) => match decode_descriptor_exec(fields) {
            Ok(d) => d,
            Err(e) => return Err(e),
        },
        _ => return Err(schema("container", "a container ends with an object or null")),
    };
    let ghost d = c@;
    let ghost body = items@.drop_last();
    assert(body.subrange(0, (n - 1) as int) =~= body);
    let mut content: Vec<RuntimeObject> = Vec::new();
    assert(objects_model(content@) =~= Seq::<ObjectModel>::empty());
    let mut i: usize = 0;
    assert(items@.last() == items@[n - 1]);
    assert(decode_container(items@) == match decode_all(body) {
        Err(e) => Err(e),
        Ok(content) => Ok(ContainerModel { content, ..d }),
    });
    while i < n - 1
        invariant
            n == items.len(),
            n > 0,
            decode_container(items@) == match decode_all(body) {
                Err(e) => Err(e),
                Ok(content) => Ok(ContainerModel { content, ..d }),
            },
            i <= n - 1,
            body == items@.drop_last(),
            decode_all(body) == prepend_objects(
                objects_model(content@),
                decode_all(body.subrange(i as int, (n - 1) as int)),
            ),
        decreases n - 1 - i,
    {
        let ghost rest = body.subrange(i as int, (n - 1) as int);
        assert(rest[0] == items@[i as int]);
        assert(rest.drop_first() =~= body.subrange(i + 1, (n - 1) as int));
        assert(decreases_to!(items@ => items@[i as int]));
        let o = match decode_node(&items[i], None) {
            Ok(o) => o,
            Err(e) => return Err(e),
        };
        let ghost before = content@;
        content.push(o);
        assert(content@.drop_last() =~= before);
        assert(objects_model(content@) == objects_model(before).push(o@));
        assert(objects_model(content@) + decode_all(rest.drop_first())->Ok_0 =~= objects_model(
            before,
        ) + (seq![o@] + decode_all(rest.drop_first())->Ok_0));
        i = i + 1;
    }
    assert(decode_all(body.subrange((n - 1) as int, (n - 1) as int)) == Ok::<
        Seq<ObjectModel>,
        ErrorModel,
    >(Seq::empty()));
    assert(objects_model(content@) + Seq::<ObjectModel>::empty() =~= objects_model(content@));
    c.content = content;
    assert(c@ == ContainerModel { content: objects_model(content@), ..d });
    Ok(c)
}


/// Every value of `items` decoded in order.
pub(crate) fn decode_each(items: &Vec<Json>) -> (r: Result<Vec<RuntimeObject>, DecodeError>)
    ensures
        match r {
            Ok(v) => decode_all(items@) == Ok::<Seq<ObjectModel>, ErrorModel>(objects_model(v@)),
            Err(e) => decode_all(items@) == Err::<Seq<ObjectModel>, ErrorModel>(e@),
        },
{
    let n = items.len();
    let mut content: Vec<RuntimeObject> = Vec::new();
    assert(objects_model(content@) =~= Seq::<ObjectModel>::empty());
    assert(items@.subrange(0, n as int) =~= items@);
    let mut i: usize = 0;
    while i < n
        invariant
            n == items.len(),
            i <= n,
            decode_all(items@) == prepend_objects(
                objects_model(content@),
                decode_all(items@.subrange(i as int, n as int)),
            ),
        decreases n - i,
    {
        let ghost rest = items@.subrange(i as int, n as int);
        assert(rest[0] == items@[i as int]);
        assert(rest.drop_first() =~= items@.subrange(i + 1, n as int));
        let o = match decode_node(&items[i], None) {
            Ok(o) => o,
            Err(e) => return Err(e),
        };
        let ghost before = content@;
        content.push(o);
        assert(content@.drop_last() =~= before);
        assert(objects_model(content@) == objects_model(before).push(o@));
        assert(objects_model(content@) + decode_all(rest.drop_first())->Ok_0 =~= objects_model(
            before,
        ) + (seq![o@] + decode_all(rest.drop_first())->Ok_0));
        i = i + 1;
    }
    assert(decode_all(items@.subrange(n as int, n as int)) == Ok::<Seq<ObjectModel>, ErrorModel>(
        Seq::empty(),
    ));
    assert(objects_model(content@) + Seq::<ObjectModel>::empty() =~= objects_model(content@));
    Ok(content)
}

} // verus!
