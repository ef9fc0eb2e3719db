use std::rc::Rc;
use vstd::prelude::*;
use vstd::string::*;

use crate::decimal::{decimal_text, int_text, push_decimal};
use crate::decode::DecodeError;
use crate::graph::{decode_graph_text, graph_outcome, GraphModel, RuntimeGraph};
use crate::json::json_parse;
use crate::object::{
    object_name, ChoiceModel, ChoicePoint, Container, ContainerModel, ControlCommand, Divert,
    DivertModel, Glue, NativeFunctionCall, ObjectModel, PushPopType, RuntimeObject, TargetModel,
    TargetType, object_model, lemma_named_model, lemma_objects_model, named_model, objects_model,
};
use crate::path::{render_path, str_equal, ComponentView, Path, PathComponent, PathView};
use crate::value::{Value, ValueModel};

verus! {

/// The kind of a value, as named in a type error.
#[derive(Debug, Clone, Copy, PartialEq, Eq, Structural)]
pub enum ValueKind {
    Int,
    Float,
    String,
    DivertTarget,
    VariablePointer,
}

/// Why a step failed. The graph is untouched; the story may be dropped.
#[derive(Debug, Clone, PartialEq)]
pub enum RuntimeError {
    CursorExhausted,
    EvalStackUnderflow,
    TypeMismatch { expected: ValueKind, got: ValueKind },
    UnknownVariable(String),
    DivisionByZero,
    IntegerOverflow,
    UnresolvedTarget(Path),
    UnknownExternal(String),
    /// A choice index past the choices on offer.
    InvalidChoice,
    /// A return from a function or tunnel that was not called.
    ReturnWithoutCall,
    /// A step while an external function call waits for the host's answer.
    AwaitingExternal,
    /// An answer from the host while no external function call waits.
    NoPendingExternal,
    /// An object whose execution this engine does not offer yet.
    Unsupported,
}

pub enum RuntimeErrorModel {
    CursorExhausted,
    EvalStackUnderflow,
    TypeMismatch(ValueKind, ValueKind),
    UnknownVariable(Seq<char>),
    DivisionByZero,
    IntegerOverflow,
    UnresolvedTarget(PathView),
    UnknownExternal(Seq<char>),
    InvalidChoice,
    ReturnWithoutCall,
    AwaitingExternal,
    NoPendingExternal,
    Unsupported,
}

impl View for RuntimeError {
    type V = RuntimeErrorModel;

    open spec fn view(&self) -> RuntimeErrorModel {
        match self {
            RuntimeError::CursorExhausted => RuntimeErrorModel::CursorExhausted,
            RuntimeError::EvalStackUnderflow => RuntimeErrorModel::EvalStackUnderflow,
            RuntimeError::TypeMismatch { expected, got } => RuntimeErrorModel::TypeMismatch(
                *expected,
                *got,
            ),
            RuntimeError::UnknownVariable(n) => RuntimeErrorModel::UnknownVariable(n@),
            RuntimeError::DivisionByZero => RuntimeErrorModel::DivisionByZero,
            RuntimeError::IntegerOverflow => RuntimeErrorModel::IntegerOverflow,
            RuntimeError::UnresolvedTarget(p) => RuntimeErrorModel::UnresolvedTarget(p@),
            RuntimeError::UnknownExternal(n) => RuntimeErrorModel::UnknownExternal(n@),
            RuntimeError::InvalidChoice => RuntimeErrorModel::InvalidChoice,
            RuntimeError::ReturnWithoutCall => RuntimeErrorModel::ReturnWithoutCall,
            RuntimeError::AwaitingExternal => RuntimeErrorModel::AwaitingExternal,
            RuntimeError::NoPendingExternal => RuntimeErrorModel::NoPendingExternal,
            RuntimeError::Unsupported => RuntimeErrorModel::Unsupported,
        }
    }
}

/// What one step did.
#[derive(Debug, Clone, PartialEq)]
pub enum StepResult {
    Ran,
    Choices(usize),
    Ended,
    Error(RuntimeError),
}

pub enum StepModel {
    Ran,
    Choices(nat),
    Ended,
    Error(RuntimeErrorModel),
}

impl View for StepResult {
    type V = StepModel;

    open spec fn view(&self) -> StepModel {
        match self {
            StepResult::Ran => StepModel::Ran,
            StepResult::Choices(n) => StepModel::Choices(*n as nat),
            StepResult::Ended => StepModel::Ended,
            StepResult::Error(e) => StepModel::Error(e@),
        }
    }
}

/// The state of a story between two steps.
pub struct StoryModel {
    pub graph: GraphModel,
    /// The text written so far.
    pub output: Seq<char>,
    /// A line break that waits for the next text.
    pub pending_newline: bool,
    pub glue: bool,
    /// Frames of (container, index of the next object to run), innermost last.
    pub cursors: Seq<(ContainerModel, usize)>,
    pub eval_mode: bool,
    pub eval_stack: Seq<ValueModel>,
    /// The text gathered since `str`, while a string is being built.
    pub string_buffer: Option<Seq<char>>,
    pub globals: Seq<(Seq<char>, ValueModel)>,
    pub temps: Seq<(Seq<char>, ValueModel)>,
    pub tags: Seq<Seq<char>>,
    /// The choices registered since the last choice was taken.
    pub choices: Seq<OfferModel>,
    /// Functions and tunnels called and not yet returned from, innermost last.
    pub calls: Seq<CallModel>,
    /// The names of the external functions that the host answers.
    pub externals: Seq<Seq<char>>,
    /// An external function call that waits for the host's answer.
    pub pending: Option<ExternalCallModel>,
    pub ended: bool,
}

/// A call of an external function: its name and its arguments, in order.
pub struct ExternalCallModel {
    pub name: Seq<char>,
    pub args: Seq<ValueModel>,
}

/// A call in progress: its kind, the frames to return to, and the
/// temporaries and evaluation mode of the caller.
pub struct CallModel {
    pub kind: PushPopType,
    pub return_to: Seq<(ContainerModel, usize)>,
    pub temps: Seq<(Seq<char>, ValueModel)>,
    pub eval_mode: bool,
}

/// A choice on offer: its text and the frames where it leads.
pub struct OfferModel {
    pub text: Seq<char>,
    pub target: Seq<(ContainerModel, usize)>,
}

/// How the cursor moves after an object ran.
#[derive(Debug, Clone, Copy, PartialEq, Eq, Structural)]
pub enum Flow {
    Advance,
    Stay,
    /// The flow is done; the story waits on its choices, or ends.
    Done,
    /// The story ends.
    End,
}

pub open spec fn kind_of(v: ValueModel) -> ValueKind {
    match v {
        ValueModel::Int(_) => ValueKind::Int,
        ValueModel::Float(_) => ValueKind::Float,
        ValueModel::Str(_) => ValueKind::String,
        ValueModel::DivertTarget(_) => ValueKind::DivertTarget,
        ValueModel::VariablePointer(_, _) => ValueKind::VariablePointer,
    }
}

/// The text that a value prints as.
pub open spec fn value_text(v: ValueModel) -> Seq<char> {
    match v {
        ValueModel::Int(i) => int_text(i),
        ValueModel::Float(t) => t,
        ValueModel::Str(s) => s,
        ValueModel::DivertTarget(p) => "DivertTarget("@ + render_path(p) + ")"@,
        ValueModel::VariablePointer(n, _) => "VarPtr("@ + n + ")"@,
    }
}

pub open spec fn is_blank(s: Seq<char>) -> bool {
    forall|i: int| 0 <= i < s.len() ==> (#[trigger] s[i] == ' ' || s[i] == '\t')
}

/// Writes text: into the string being built, or to the output. A line
/// break waits for the next text and is dropped under glue; glue drops
/// one leading space of the next text and lasts until a text that is not blank.
pub open spec fn emit(m: StoryModel, s: Seq<char>) -> StoryModel {
    match m.string_buffer {
        Some(b) => StoryModel { string_buffer: Some(b + s), ..m },
        None => if s == "\n"@ {
            if m.glue {
                m
            } else {
                StoryModel { pending_newline: true, ..m }
            }
        } else {
            let t = if m.glue && s.len() > 0 && s[0] == ' ' {
                s.drop_first()
            } else {
                s
            };
            if t.len() == 0 {
                m
            } else {
                StoryModel {
                    output: m.output + (if m.pending_newline {
                        "\n"@
                    } else {
                        Seq::empty()
                    }) + t,
                    pending_newline: false,
                    glue: m.glue && is_blank(t),
                    ..m
                }
            }
        },
    }
}

/// The end of the story: a waiting line break is written.
pub open spec fn finish(m: StoryModel) -> StoryModel {
    StoryModel {
        output: m.output + (if m.pending_newline {
            "\n"@
        } else {
            Seq::empty()
        }),
        pending_newline: false,
        cursors: Seq::empty(),
        ended: true,
        ..m
    }
}

/// The frames after the innermost one moved past its object; exhausted
/// frames are dropped and their parents moved on.
pub open spec fn advance(cs: Seq<(ContainerModel, usize)>) -> Seq<(ContainerModel, usize)>
    decreases cs.len(),
{
    if cs.len() == 0 {
        cs
    } else if cs.last().1 + 1 < cs.last().0.content.len() {
        cs.drop_last().push((cs.last().0, (cs.last().1 + 1) as usize))
    } else {
        advance(cs.drop_last())
    }
}

/// The first binding of `name` in a table.
pub open spec fn lookup(t: Seq<(Seq<char>, ValueModel)>, name: Seq<char>) -> Option<ValueModel>
    decreases t.len(),
{
    if t.len() == 0 {
        None
    } else if t[0].0 == name {
        Some(t[0].1)
    } else {
        lookup(t.drop_first(), name)
    }
}

/// The table with the first binding of `name` set to `v`, or `v` bound at the end.
pub open spec fn bind(t: Seq<(Seq<char>, ValueModel)>, name: Seq<char>, v: ValueModel) -> Seq<
    (Seq<char>, ValueModel),
>
    decreases t.len(),
{
    if t.len() == 0 {
        seq![(name, v)]
    } else if t[0].0 == name {
        t.update(0, (name, v))
    } else {
        seq![t[0]] + bind(t.drop_first(), name, v)
    }
}

/// A value stored by an assignment: a declaration binds in its own table, a
/// reassignment rebinds where the name is found, temporaries first.
pub open spec fn assign(m: StoryModel, name: Seq<char>, new_decl: bool, global: bool, v: ValueModel) -> Result<
    StoryModel,
    RuntimeErrorModel,
> {
    if new_decl {
        if global {
            Ok(StoryModel { globals: bind(m.globals, name, v), ..m })
        } else {
            Ok(StoryModel { temps: bind(m.temps, name, v), ..m })
        }
    } else if lookup(m.temps, name) is Some {
        Ok(StoryModel { temps: bind(m.temps, name, v), ..m })
    } else if lookup(m.globals, name) is Some {
        Ok(StoryModel { globals: bind(m.globals, name, v), ..m })
    } else {
        Err(RuntimeErrorModel::UnknownVariable(name))
    }
}

pub open spec fn is_binary(f: NativeFunctionCall) -> bool {
    !(f == NativeFunctionCall::UnaryMinus || f == NativeFunctionCall::UnaryNot)
}

pub open spec fn truth(b: bool) -> int {
    if b {
        1
    } else {
        0
    }
}

/// Division that rounds toward zero.
pub open spec fn quotient(a: int, b: int) -> int {
    let q = (if a < 0 { -a } else { a }) / (if b < 0 { -b } else { b });
    if (a < 0) != (b < 0) {
        -q
    } else {
        q
    }
}

/// The remainder of `quotient`, with the sign of `a`.
pub open spec fn remainder(a: int, b: int) -> int {
    let r = (if a < 0 { -a } else { a }) % (if b < 0 { -b } else { b });
    if a < 0 {
        -r
    } else {
        r
    }
}

/// The integer that an operator gives on `a` and `b` (`b` alone for a unary one).
pub open spec fn apply(f: NativeFunctionCall, a: int, b: int) -> Result<int, RuntimeErrorModel> {
    let r = match f {
        NativeFunctionCall::Plus => Ok(a + b),
        NativeFunctionCall::Minus => Ok(a - b),
        NativeFunctionCall::Multiply => Ok(a * b),
        NativeFunctionCall::Divide => if b == 0 {
            Err(RuntimeErrorModel::DivisionByZero)
        } else {
            Ok(quotient(a, b))
        },
        NativeFunctionCall::Modulo => if b == 0 {
            Err(RuntimeErrorModel::DivisionByZero)
        } else {
            Ok(remainder(a, b))
        },
        NativeFunctionCall::UnaryMinus => Ok(-b),
        NativeFunctionCall::Eq => Ok(truth(a == b)),
        NativeFunctionCall::GT => Ok(truth(a > b)),
        NativeFunctionCall::LT => Ok(truth(a < b)),
        NativeFunctionCall::GEq => Ok(truth(a >= b)),
        NativeFunctionCall::LEq => Ok(truth(a <= b)),
        NativeFunctionCall::NEq => Ok(truth(a != b)),
        NativeFunctionCall::UnaryNot => Ok(truth(b == 0)),
        NativeFunctionCall::And => Ok(truth(a != 0 && b != 0)),
        NativeFunctionCall::Or => Ok(truth(a != 0 || b != 0)),
        NativeFunctionCall::Min => Ok(if a <= b { a } else { b }),
        NativeFunctionCall::Max => Ok(if a >= b { a } else { b }),
    };
    match r {
        Ok(v) => if i32::MIN <= v && v <= i32::MAX {
            Ok(v)
        } else {
            Err(RuntimeErrorModel::IntegerOverflow)
        },
        Err(e) => Err(e),
    }
}

pub open spec fn int_operand(v: ValueModel) -> Result<int, RuntimeErrorModel> {
    match v {
        ValueModel::Int(i) => Ok(i),
        _ => Err(RuntimeErrorModel::TypeMismatch(ValueKind::Int, kind_of(v))),
    }
}

/// An operator on the integers on top of the evaluation stack.
pub open spec fn native(m: StoryModel, f: NativeFunctionCall) -> Result<StoryModel, RuntimeErrorModel> {
    let s = m.eval_stack;
    let arity: int = if is_binary(f) {
        2
    } else {
        1
    };
    if s.len() < arity {
        Err(RuntimeErrorModel::EvalStackUnderflow)
    } else {
        let a = if is_binary(f) {
            int_operand(s[s.len() - 2])
        } else {
            Ok(0)
        };
        match a {
            Err(e) => Err(e),
            Ok(a) => match int_operand(s.last()) {
                Err(e) => Err(e),
                Ok(b) => match apply(f, a, b) {
                    Err(e) => Err(e),
                    Ok(v) => Ok(
                        StoryModel {
                            eval_stack: s.subrange(0, s.len() - arity).push(ValueModel::Int(v)),
                            ..m
                        },
                    ),
                },
            },
        }
    }
}

/// The end of a call of the given kind: the caller's frames and
/// temporaries come back.
pub open spec fn return_from(m: StoryModel, kind: PushPopType) -> Result<(StoryModel, Flow), RuntimeErrorModel> {
    if m.calls.len() > 0 && m.calls.last().kind == kind {
        Ok(
            (
                StoryModel {
                    cursors: m.calls.last().return_to,
                    temps: m.calls.last().temps,
                    eval_mode: m.calls.last().eval_mode,
                    calls: m.calls.drop_last(),
                    ..m
                },
                Flow::Stay,
            ),
        )
    } else {
        Err(RuntimeErrorModel::ReturnWithoutCall)
    }
}

/// A control command.
pub open spec fn command(m: StoryModel, c: ControlCommand) -> Result<(StoryModel, Flow), RuntimeErrorModel> {
    let s = m.eval_stack;
    match c {
        ControlCommand::EvalStart => Ok((StoryModel { eval_mode: true, ..m }, Flow::Advance)),
        ControlCommand::EvalEnd => Ok((StoryModel { eval_mode: false, ..m }, Flow::Advance)),
        ControlCommand::EvalOutput => if s.len() == 0 {
            Err(RuntimeErrorModel::EvalStackUnderflow)
        } else {
            Ok(
                (
                    emit(StoryModel { eval_stack: s.drop_last(), ..m }, value_text(s.last())),
                    Flow::Advance,
                ),
            )
        },
        ControlCommand::Duplicate => if s.len() == 0 {
            Err(RuntimeErrorModel::EvalStackUnderflow)
        } else {
            Ok((StoryModel { eval_stack: s.push(s.last()), ..m }, Flow::Advance))
        },
        ControlCommand::PopEvaluatedValue => if s.len() == 0 {
            Err(RuntimeErrorModel::EvalStackUnderflow)
        } else {
            Ok((StoryModel { eval_stack: s.drop_last(), ..m }, Flow::Advance))
        },
        ControlCommand::NoOp => Ok((m, Flow::Advance)),
        ControlCommand::BeginString => if m.string_buffer is Some {
            Err(RuntimeErrorModel::Unsupported)
        } else {
            Ok(
                (
                    StoryModel { string_buffer: Some(Seq::empty()), eval_mode: false, ..m },
                    Flow::Advance,
                ),
            )
        },
        ControlCommand::EndString => match m.string_buffer {
            Some(b) => Ok(
                (
                    StoryModel {
                        string_buffer: None,
                        eval_mode: true,
                        eval_stack: s.push(ValueModel::Str(b)),
                        ..m
                    },
                    Flow::Advance,
                ),
            ),
            None => Err(RuntimeErrorModel::Unsupported),
        },
        ControlCommand::Done => Ok((m, Flow::Done)),
        ControlCommand::End => Ok((m, Flow::End)),
        ControlCommand::PopFunction => return_from(m, PushPopType::Function),
        ControlCommand::PopTunnel => return_from(m, PushPopType::Tunnel),
        ControlCommand::ChoiceCount => if m.choices.len() <= i32::MAX {
            Ok(
                (
                    StoryModel { eval_stack: s.push(ValueModel::Int(m.choices.len() as int)), ..m },
                    Flow::Advance,
                ),
            )
        } else {
            Err(RuntimeErrorModel::IntegerOverflow)
        },
        _ => Err(RuntimeErrorModel::Unsupported),
    }
}

/// The first sub-element stored under `n`.
pub open spec fn named_child(s: Seq<(Seq<char>, ObjectModel)>, n: Seq<char>) -> Option<ObjectModel>
    decreases s.len(),
{
    if s.len() == 0 {
        None
    } else if s[0].0 == n {
        Some(s[0].1)
    } else {
        named_child(s.drop_first(), n)
    }
}

pub open spec fn has_name(o: ObjectModel, n: Seq<char>) -> bool {
    object_name(o) == Some(n)
}

/// The position of the first container of the content named `n`.
pub open spec fn content_named(s: Seq<ObjectModel>, n: Seq<char>) -> Option<int>
    decreases s.len(),
{
    if s.len() == 0 {
        None
    } else if has_name(s[0], n) {
        Some(0)
    } else {
        match content_named(s.drop_first(), n) {
            Some(i) => Some(i + 1),
            None => None,
        }
    }
}

/// Where one path component leads from a chain of frames, and whether it
/// ends on an object that is not a container. A container entered by name
/// leaves its parent's frame past the end: when it runs out, that frame is
/// dropped too and the one below it moves on.
pub open spec fn follow(chain: Seq<(ContainerModel, usize)>, c: ComponentView) -> Option<
    (Seq<(ContainerModel, usize)>, bool),
> {
    let t = chain.last().0;
    let up = chain.drop_last();
    match c {
        ComponentView::Parent => if chain.len() > 1 {
            Some((up, false))
        } else {
            None
        },
        ComponentView::Index(i) => if i < t.content.len() {
            match t.content[i as int] {
                ObjectModel::Container(child) => Some(
                    (up.push((t, i as usize)).push((child, 0usize)), false),
                ),
                _ => Some((up.push((t, i as usize)), true)),
            }
        } else {
            None
        },
        ComponentView::Named(n) => match named_child(t.named_subelements, n) {
            Some(ObjectModel::Container(child)) => Some(
                (up.push((t, t.content.len() as usize)).push((child, 0usize)), false),
            ),
            Some(_) => None,
            None => match content_named(t.content, n) {
                Some(i) => match t.content[i] {
                    ObjectModel::Container(child) => Some(
                        (up.push((t, i as usize)).push((child, 0usize)), false),
                    ),
                    _ => None,
                },
                None => None,
            },
        },
    }
}

/// The frames that a sequence of components leads to.
pub open spec fn walk(chain: Seq<(ContainerModel, usize)>, at_object: bool, cs: Seq<ComponentView>) -> Option<
    Seq<(ContainerModel, usize)>,
>
    decreases cs.len(),
{
    if cs.len() == 0 {
        Some(chain)
    } else if at_object {
        None
    } else {
        match follow(chain, cs[0]) {
            Some((next, obj)) => walk(next, obj, cs.drop_first()),
            None => None,
        }
    }
}

/// The frames that a path leads to: from the root, or, for a relative path,
/// from the container of the object that holds it (its leading `^`).
pub open spec fn resolve(m: StoryModel, p: PathView) -> Option<Seq<(ContainerModel, usize)>> {
    if !p.is_relative {
        walk(seq![(m.graph.root, 0usize)], false, p.components)
    } else if m.cursors.len() > 0 && p.components.len() > 0 && p.components[0]
        == ComponentView::Parent {
        walk(m.cursors, false, p.components.drop_first())
    } else {
        None
    }
}

/// Frames whose innermost one has run out move on, as after a step.
pub open spec fn settle(cs: Seq<(ContainerModel, usize)>) -> Seq<(ContainerModel, usize)> {
    if cs.len() == 0 || cs.last().1 < cs.last().0.content.len() {
        cs
    } else {
        advance(cs.drop_last())
    }
}

/// Whether a condition value holds: an integer other than zero.
pub open spec fn truthy(v: ValueModel) -> Result<bool, RuntimeErrorModel> {
    match v {
        ValueModel::Int(i) => Ok(i != 0),
        _ => Err(RuntimeErrorModel::TypeMismatch(ValueKind::Int, kind_of(v))),
    }
}

/// The path a divert target leads to, where a variable holds it.
pub open spec fn divert_path(m: StoryModel, d: DivertModel) -> Result<PathView, RuntimeErrorModel> {
    match d.target {
        TargetModel::Path(p) => Ok(p),
        TargetModel::ExternalName(n) => Err(RuntimeErrorModel::UnknownExternal(n)),
        TargetModel::VarName(n) => {
            let found = if lookup(m.temps, n) is Some {
                lookup(m.temps, n)
            } else {
                lookup(m.globals, n)
            };
            match found {
                Some(ValueModel::DivertTarget(p)) => Ok(p),
                Some(v) => Err(RuntimeErrorModel::TypeMismatch(ValueKind::DivertTarget, kind_of(v))),
                None => Err(RuntimeErrorModel::UnknownVariable(n)),
            }
        },
    }
}

/// An external function call: its arguments are popped, the last pushed
/// last, and the call waits for the host, which must know the name.
pub open spec fn call_external(n: StoryModel, name: Seq<char>, args: Option<u32>) -> Result<
    (StoryModel, Flow),
    RuntimeErrorModel,
> {
    let s = n.eval_stack;
    let k: int = match args {
        Some(k) => k as int,
        None => 0,
    };
    if !n.externals.contains(name) {
        Err(RuntimeErrorModel::UnknownExternal(name))
    } else if s.len() < k {
        Err(RuntimeErrorModel::EvalStackUnderflow)
    } else {
        Ok(
            (
                StoryModel {
                    eval_stack: s.subrange(0, s.len() - k),
                    pending: Some(ExternalCallModel { name, args: s.subrange(s.len() - k, s.len() as int) }),
                    ..n
                },
                Flow::Advance,
            ),
        )
    }
}

/// The host's answer to the waiting external call: its value, if any, is pushed.
pub open spec fn resume_model(m: StoryModel, result: Option<ValueModel>) -> Result<StoryModel, RuntimeErrorModel> {
    if m.pending is None {
        Err(RuntimeErrorModel::NoPendingExternal)
    } else {
        Ok(
            StoryModel {
                pending: None,
                eval_stack: match result {
                    Some(v) => m.eval_stack.push(v),
                    None => m.eval_stack,
                },
                ..m
            },
        )
    }
}

/// A divert: a conditional one pops its condition first and is skipped when
/// it is zero. A function or tunnel call remembers where to return to and
/// starts with no temporaries; an external one waits for the host.
pub open spec fn divert(m: StoryModel, d: DivertModel) -> Result<(StoryModel, Flow), RuntimeErrorModel> {
    let cond = if !d.is_conditional {
        Ok(true)
    } else if m.eval_stack.len() == 0 {
        Err(RuntimeErrorModel::EvalStackUnderflow)
    } else {
        truthy(m.eval_stack.last())
    };
    let n = if d.is_conditional {
        StoryModel { eval_stack: m.eval_stack.drop_last(), ..m }
    } else {
        m
    };
    match cond {
        Err(e) => Err(e),
        Ok(false) => Ok((n, Flow::Advance)),
        Ok(true) => if d.target is ExternalName {
            call_external(n, d.target->ExternalName_0, d.external_args)
        } else {
            match divert_path(m, d) {
            Err(e) => Err(e),
            Ok(p) => match resolve(m, p) {
                None => Err(RuntimeErrorModel::UnresolvedTarget(p)),
                Some(cs) => if d.pushes_to_stack {
                    Ok(
                        (
                            StoryModel {
                                cursors: settle(cs),
                                calls: n.calls.push(
                                    CallModel {
                                        kind: d.stack_push_type,
                                        return_to: advance(m.cursors),
                                        temps: m.temps,
                                        eval_mode: m.eval_mode,
                                    },
                                ),
                                temps: Seq::empty(),
                                eval_mode: false,
                                ..n
                            },
                            Flow::Stay,
                        ),
                    )
                } else {
                    Ok((StoryModel { cursors: settle(cs), ..n }, Flow::Stay))
                },
            },
        }
        },
    }
}

/// How many values a choice point pops: its condition, then its
/// choice-only text, then its start text.
pub open spec fn choice_arity(c: ChoiceModel) -> int {
    (if c.has_condition {
        1int
    } else {
        0int
    }) + (if c.has_choice_only_content {
        1int
    } else {
        0int
    }) + (if c.has_start_content {
        1int
    } else {
        0int
    })
}

pub open spec fn text_operand(v: ValueModel) -> Result<Seq<char>, RuntimeErrorModel> {
    match v {
        ValueModel::Str(s) => Ok(s),
        _ => Err(RuntimeErrorModel::TypeMismatch(ValueKind::String, kind_of(v))),
    }
}

/// A choice point: it pops what its flags say and offers a choice, unless
/// its condition is zero.
pub open spec fn offer(m: StoryModel, c: ChoiceModel) -> Result<(StoryModel, Flow), RuntimeErrorModel> {
    let s = m.eval_stack;
    let k = choice_arity(c);
    if s.len() < k {
        Err(RuntimeErrorModel::EvalStackUnderflow)
    } else {
        let ci = s.len() - 1;
        let oi = if c.has_condition {
            ci - 1
        } else {
            ci
        };
        let si = if c.has_choice_only_content {
            oi - 1
        } else {
            oi
        };
        let shown = if c.has_condition {
            truthy(s[ci])
        } else {
            Ok(true)
        };
        let only = if c.has_choice_only_content {
            text_operand(s[oi])
        } else {
            Ok(Seq::<char>::empty())
        };
        let start = if c.has_start_content {
            text_operand(s[si])
        } else {
            Ok(Seq::<char>::empty())
        };
        match (shown, only, start) {
            (Err(e), _, _) => Err(e),
            (_, Err(e), _) => Err(e),
            (_, _, Err(e)) => Err(e),
            (Ok(shown), Ok(only), Ok(start)) => match resolve(m, c.choice_target_path) {
                None => Err(RuntimeErrorModel::UnresolvedTarget(c.choice_target_path)),
                Some(cs) => {
                    let n = StoryModel { eval_stack: s.subrange(0, s.len() - k), ..m };
                    if shown {
                        Ok(
                            (
                                StoryModel {
                                    choices: n.choices.push(
                                        OfferModel { text: start + only, target: settle(cs) },
                                    ),
                                    ..n
                                },
                                Flow::Advance,
                            ),
                        )
                    } else {
                        Ok((n, Flow::Advance))
                    }
                },
            },
        }
    }
}

/// What running one object does to the story, and how the cursor moves.
pub open spec fn execute(m: StoryModel, o: ObjectModel) -> Result<(StoryModel, Flow), RuntimeErrorModel> {
    match o {
        ObjectModel::Value(v) => if m.eval_mode {
            Ok((StoryModel { eval_stack: m.eval_stack.push(v), ..m }, Flow::Advance))
        } else {
            Ok((emit(m, value_text(v)), Flow::Advance))
        },
        ObjectModel::Glue(g) => if g == Glue::Bidirectional {
            Ok((StoryModel { glue: true, pending_newline: false, ..m }, Flow::Advance))
        } else {
            Ok((m, Flow::Advance))
        },
        ObjectModel::ControlCommand(c) => command(m, c),
        ObjectModel::Container(c) => Ok(
            (StoryModel { cursors: m.cursors.push((c, 0usize)), ..m }, Flow::Stay),
        ),
        ObjectModel::Tag(t) => Ok((StoryModel { tags: m.tags.push(t), ..m }, Flow::Advance)),
        ObjectModel::NativeFunctionCall(f) => match native(m, f) {
            Ok(n) => Ok((n, Flow::Advance)),
            Err(e) => Err(e),
        },
        ObjectModel::VariableAssignment(a) => if m.eval_stack.len() == 0 {
            Err(RuntimeErrorModel::EvalStackUnderflow)
        } else {
            match assign(
                StoryModel { eval_stack: m.eval_stack.drop_last(), ..m },
                a.name,
                a.is_new_declaration,
                a.is_global,
                m.eval_stack.last(),
            ) {
                Ok(n) => Ok((n, Flow::Advance)),
                Err(e) => Err(e),
            }
        },
        ObjectModel::VariableReference(name) => {
            let found = if lookup(m.temps, name) is Some {
                lookup(m.temps, name)
            } else {
                lookup(m.globals, name)
            };
            match found {
                Some(v) => Ok((StoryModel { eval_stack: m.eval_stack.push(v), ..m }, Flow::Advance)),
                None => Err(RuntimeErrorModel::UnknownVariable(name)),
            }
        },
        ObjectModel::Divert(d) => divert(m, d),
        ObjectModel::Choice(c) => offer(m, c),
        ObjectModel::Void => Ok((m, Flow::Advance)),
        ObjectModel::Null => Ok((m, Flow::Advance)),
        _ => Err(RuntimeErrorModel::Unsupported),
    }
}

/// The flow has run out: the story waits on its choices, or ends.
pub open spec fn end_of_flow(n: StoryModel) -> (StoryModel, StepModel) {
    if n.choices.len() > 0 {
        (StoryModel { cursors: Seq::empty(), ..n }, StepModel::Choices(n.choices.len()))
    } else {
        (finish(n), StepModel::Ended)
    }
}

/// One step: the object under the cursor runs and the cursor moves on. A
/// frame with nothing left to run is dropped and its parent moved on. An
/// error leaves the story as it was.
pub open spec fn step_model(m: StoryModel) -> (StoryModel, StepModel) {
    if m.ended {
        (finish(m), StepModel::Ended)
    } else if m.pending is Some {
        (m, StepModel::Error(RuntimeErrorModel::AwaitingExternal))
    } else if m.cursors.len() == 0 {
        end_of_flow(m)
    } else if m.cursors.last().1 >= m.cursors.last().0.content.len() {
        let cs = advance(m.cursors.drop_last());
        if cs.len() == 0 {
            end_of_flow(StoryModel { cursors: cs, ..m })
        } else {
            (StoryModel { cursors: cs, ..m }, StepModel::Ran)
        }
    } else {
        match execute(m, m.cursors.last().0.content[m.cursors.last().1 as int]) {
            Err(e) => (m, StepModel::Error(e)),
            Ok((n, Flow::End)) => (finish(n), StepModel::Ended),
            Ok((n, Flow::Done)) => end_of_flow(n),
            Ok((n, Flow::Stay)) => if n.cursors.len() == 0 {
                end_of_flow(n)
            } else {
                (n, StepModel::Ran)
            },
            Ok((n, Flow::Advance)) => {
                let cs = advance(n.cursors);
                if cs.len() == 0 {
                    end_of_flow(n)
                } else {
                    (StoryModel { cursors: cs, ..n }, StepModel::Ran)
                }
            },
        }
    }
}

/// The story after taking choice `i`: the flow resumes where it leads.
pub open spec fn choose_model(m: StoryModel, i: int) -> Result<StoryModel, RuntimeErrorModel> {
    if 0 <= i < m.choices.len() {
        Ok(StoryModel { cursors: m.choices[i].target, choices: Seq::empty(), ..m })
    } else {
        Err(RuntimeErrorModel::InvalidChoice)
    }
}

/// A story at its start: one frame at the first object of the root.
pub open spec fn start_model(g: GraphModel) -> StoryModel {
    StoryModel {
        graph: g,
        output: Seq::empty(),
        pending_newline: false,
        glue: false,
        cursors: seq![(g.root, 0usize)],
        eval_mode: false,
        eval_stack: Seq::empty(),
        string_buffer: None,
        globals: Seq::empty(),
        temps: Seq::empty(),
        tags: Seq::empty(),
        choices: Seq::empty(),
        calls: Seq::empty(),
        externals: Seq::empty(),
        pending: None,
        ended: false,
    }
}

/// The story after `n` steps.
pub open spec fn run(m: StoryModel, n: nat) -> StoryModel
    decreases n,
{
    if n == 0 {
        m
    } else {
        run(step_model(m).0, (n - 1) as nat)
    }
}


/// Stepping never changes the graph that a story reads.
pub proof fn lemma_step_keeps_graph(m: StoryModel)
    ensures
        step_model(m).0.graph == m.graph,
{
    if !(m.ended || m.cursors.len() == 0) && m.cursors.last().1 < m.cursors.last().0.content.len() {
        let o = m.cursors.last().0.content[m.cursors.last().1 as int];
        match o {
            ObjectModel::ControlCommand(c) => {
                match c {
                    ControlCommand::EvalOutput => {
                        if m.eval_stack.len() > 0 {
                            let p = StoryModel { eval_stack: m.eval_stack.drop_last(), ..m };
                            assert(emit(p, value_text(m.eval_stack.last())).graph == m.graph);
                        }
                    },
                    _ => {},
                }
            },
            ObjectModel::Value(v) => {
                assert(emit(m, value_text(v)).graph == m.graph);
            },
            ObjectModel::VariableAssignment(a) => {
                if m.eval_stack.len() > 0 {
                    let p = StoryModel { eval_stack: m.eval_stack.drop_last(), ..m };
                    let r = assign(p, a.name, a.is_new_declaration, a.is_global, m.eval_stack.last());
                    assert(r matches Ok(n) ==> n.graph == m.graph);
                }
            },
            ObjectModel::NativeFunctionCall(f) => {
                assert(native(m, f) matches Ok(n) ==> n.graph == m.graph);
            },
            _ => {},
        }
    }
}

/// However many steps run, the graph stays as it was decoded.
pub proof fn lemma_run_keeps_graph(m: StoryModel, n: nat)
    ensures
        run(m, n).graph == m.graph,
    decreases n,
{
    if n > 0 {
        lemma_step_keeps_graph(m);
        lemma_run_keeps_graph(step_model(m).0, (n - 1) as nat);
    }
}

/// The engine draws on nothing but its state: two stories in the same state
/// write the same output, step for step.
pub proof fn lemma_run_deterministic(a: StoryModel, b: StoryModel, n: nat)
    requires
        a == b,
    ensures
        run(a, n).output == run(b, n).output,
        run(a, n) == run(b, n),
    decreases n,
{
    if n > 0 {
        lemma_run_deterministic(step_model(a).0, step_model(b).0, (n - 1) as nat);
    }
}


/// Two stories started from the same JSON text (each as `Story::new_from_json`
/// states it) are in the same state: every step gives the same result in
/// both, and they write the same output, however many steps run.
pub proof fn lemma_same_text_same_run(text: Seq<char>, a: StoryModel, b: StoryModel, n: nat)
    requires
        decode_graph_text(json_parse(text)) == Ok::<GraphModel, crate::decode::ErrorModel>(a.graph),
        decode_graph_text(json_parse(text)) == Ok::<GraphModel, crate::decode::ErrorModel>(b.graph),
        a == start_model(a.graph),
        b == start_model(b.graph),
    ensures
        run(a, n).output == run(b, n).output,
        forall|k: nat| k < n ==> (#[trigger] step_model(run(a, k))).1 == step_model(run(b, k)).1,
{
    assert(a == b);
    lemma_run_deterministic(a, b, n);
}

pub open spec fn values_view(s: Seq<Value>) -> Seq<ValueModel> {
    s.map_values(|v: Value| v@)
}

pub open spec fn vars_view(s: Seq<(String, Value)>) -> Seq<(Seq<char>, ValueModel)> {
    s.map_values(|p: (String, Value)| (p.0@, p.1@))
}

pub open spec fn strings_view(s: Seq<String>) -> Seq<Seq<char>> {
    s.map_values(|t: String| t@)
}


/// The frames as the story model sees them.
pub open spec fn frames_view(s: Seq<(Rc<Container>, usize)>) -> Seq<(ContainerModel, usize)> {
    s.map_values(|f: (Rc<Container>, usize)| (f.0@, f.1))
}

proof fn lemma_frames_push(s: Seq<(Rc<Container>, usize)>, f: (Rc<Container>, usize))
    ensures
        frames_view(s.push(f)) == frames_view(s).push((f.0@, f.1)),
{
    assert(frames_view(s.push(f)) =~= frames_view(s).push((f.0@, f.1)));
}

proof fn lemma_frames_drop_last(s: Seq<(Rc<Container>, usize)>)
    requires
        s.len() > 0,
    ensures
        frames_view(s.drop_last()) == frames_view(s).drop_last(),
        frames_view(s).last() == (s.last().0@, s.last().1),
{
    assert(frames_view(s.drop_last()) =~= frames_view(s).drop_last());
}

/// A choice on offer: its text, and the frames where taking it leads.
#[derive(Debug, Clone, PartialEq)]
pub struct Choice {
    pub text: String,
    pub target: Vec<(Rc<Container>, usize)>,
}

impl View for Choice {
    type V = OfferModel;

    open spec fn view(&self) -> OfferModel {
        OfferModel { text: self.text@, target: frames_view(self.target@) }
    }
}

pub open spec fn choices_view(s: Seq<Choice>) -> Seq<OfferModel> {
    s.map_values(|c: Choice| c@)
}

fn named_child_exec<'a>(s: &'a Vec<(String, RuntimeObject)>, n: &str) -> (r: Option<&'a RuntimeObject>)
    ensures
        match r {
            Some(o) => named_child(named_model(s@), n@) == Some(o@),
            None => named_child(named_model(s@), n@) is None,
        },
{
    let ghost nm = named_model(s@);
    proof {
        lemma_named_model(s@);
    }
    let mut i: usize = 0;
    assert(nm.subrange(0, s.len() as int) =~= nm);
    while i < s.len()
        invariant
            i <= s.len(),
            nm == named_model(s@),
            nm.len() == s.len(),
            forall|j: int| 0 <= j < s.len() ==> #[trigger] nm[j] == (s@[j].0@, object_model(s@[j].1)),
            named_child(nm, n@) == named_child(nm.subrange(i as int, s.len() as int), n@),
        decreases s.len() - i,
    {
        let ghost rest = nm.subrange(i as int, s.len() as int);
        assert(rest[0] == nm[i as int]);
        if str_equal(s[i].0.as_str(), n) {
            return Some(&s[i].1);
        }
        assert(rest.drop_first() =~= nm.subrange(i + 1, s.len() as int));
        i = i + 1;
    }
    None
}

pub open spec fn shifted(r: Option<int>, by: int) -> Option<int> {
    match r {
        Some(i) => Some(i + by),
        None => None,
    }
}

fn content_named_exec(s: &Vec<RuntimeObject>, n: &str) -> (r: Option<usize>)
    ensures
        match r {
            Some(i) => content_named(objects_model(s@), n@) == Some(i as int) && i < s.len(),
            None => content_named(objects_model(s@), n@) is None,
        },
{
    let ghost cm = objects_model(s@);
    proof {
        lemma_objects_model(s@);
    }
    let mut i: usize = 0;
    assert(cm.subrange(0, s.len() as int) =~= cm);
    while i < s.len()
        invariant
            i <= s.len(),
            cm == objects_model(s@),
            cm.len() == s.len(),
            forall|j: int| 0 <= j < s.len() ==> #[trigger] cm[j] == object_model(s@[j]),
            content_named(cm, n@) == shifted(
                content_named(cm.subrange(i as int, s.len() as int), n@),
                i as int,
            ),
        decreases s.len() - i,
    {
        let ghost rest = cm.subrange(i as int, s.len() as int);
        assert(rest[0] == cm[i as int]);
        let named = match &s[i] {
            RuntimeObject::Container(c) => match &c.name {
                Some(x) => str_equal(x.as_str(), n),
                None => false,
            },
            _ => false,
        };
        assert(named == has_name(cm[i as int], n@));
        if named {
            return Some(i);
        }
        assert(rest.drop_first() =~= cm.subrange(i + 1, s.len() as int));
        i = i + 1;
    }
    None
}

/// Moves `chain` along one path component.
fn follow_exec(chain: &mut Vec<(Rc<Container>, usize)>, c: &PathComponent) -> (r: Option<bool>)
    requires
        old(chain).len() > 0,
    ensures
        match r {
            Some(obj) => follow(frames_view(old(chain)@), c@) == Some((frames_view(final(chain)@), obj)),
            None => follow(frames_view(old(chain)@), c@) is None,
        },
{
    let last = chain.len() - 1;
    let t = chain[last].0.clone();
    let ghost up = chain@.drop_last();
    proof {
        lemma_frames_drop_last(chain@);
        lemma_objects_model(t.content@);
        lemma_named_model(t.named_subelements@);
    }
    assert(t@.content.len() == t.content.len());
    match c {
        PathComponent::Parent => {
            if chain.len() > 1 {
                chain.pop();
                assert(chain@ =~= up);
                Some(false)
            } else {
                None
            }
        },
        PathComponent::Index(i) => {
            let i = *i;
            if i < t.content.len() {
                chain.pop();
                assert(chain@ =~= up);
                chain.push((t.clone(), i));
                proof {
                    lemma_frames_push(up, (t, i));
                }
                match &t.content[i] {
                    RuntimeObject::Container(child) => {
                        let ghost before = chain@;
                        chain.push((child.clone(), 0));
                        proof {
                            lemma_frames_push(before, (*child, 0usize));
                        }
                        Some(false)
                    },
                    _ => Some(true),
                }
            } else {
                None
            }
        },
        PathComponent::Named(n) => {
            let n = n.as_str();
            match named_child_exec(&t.named_subelements, n) {
                Some(RuntimeObject::Container(child)) => {
                    let child = child.clone();
                    chain.pop();
                    assert(chain@ =~= up);
                    chain.push((t.clone(), t.content.len()));
                    proof {
                        lemma_frames_push(up, (t, t.content.len()));
                    }
                    let ghost before = chain@;
                    chain.push((child.clone(), 0));
                    proof {
                        lemma_frames_push(before, (child, 0usize));
                    }
                    Some(false)
                },
                Some(_) => None,
                None => match content_named_exec(&t.content, n) {
                    Some(i) => match &t.content[i] {
                        RuntimeObject::Container(child) => {
                            let child = child.clone();
                            chain.pop();
                            assert(chain@ =~= up);
                            chain.push((t.clone(), i));
                            proof {
                                lemma_frames_push(up, (t, i));
                            }
                            let ghost before = chain@;
                            chain.push((child.clone(), 0));
                            proof {
                                lemma_frames_push(before, (child, 0usize));
                            }
                            Some(false)
                        },
                        _ => None,
                    },
                    None => None,
                },
            }
        },
    }
}

/// Moves `cs` on past its innermost object, dropping exhausted frames.
fn advance_frames(cs: &mut Vec<(Rc<Container>, usize)>)
    ensures
        frames_view(final(cs)@) == advance(frames_view(old(cs)@)),
{
    let mut done = false;
    while !done && cs.len() > 0
        invariant
            advance(frames_view(old(cs)@)) == if done {
                frames_view(cs@)
            } else {
                advance(frames_view(cs@))
            },
        decreases cs.len() + if done {
            0int
        } else {
            1int
        },
    {
        let ghost before = cs@;
        proof {
            lemma_frames_drop_last(before);
            lemma_objects_model(before.last().0.content@);
        }
        let (c, i) = cs.pop().unwrap();
        assert(before.drop_last() =~= cs@);
        assert(c@.content.len() == c.content.len());
        if i < c.content.len() && c.content.len() - i > 1 {
            cs.push((c, i + 1));
            proof {
                lemma_frames_push(before.drop_last(), (c, (i + 1) as usize));
            }
            done = true;
        }
    }
}

fn copy_frames(cs: &Vec<(Rc<Container>, usize)>) -> (r: Vec<(Rc<Container>, usize)>)
    ensures
        r@ == cs@,
{
    let mut r: Vec<(Rc<Container>, usize)> = Vec::new();
    let mut i: usize = 0;
    while i < cs.len()
        invariant
            i <= cs.len(),
            r@ == cs@.subrange(0, i as int),
        decreases cs.len() - i,
    {
        r.push((cs[i].0.clone(), cs[i].1));
        assert(r@ =~= cs@.subrange(0, i + 1));
        i = i + 1;
    }
    assert(cs@.subrange(0, i as int) =~= cs@);
    r
}

fn settle_exec(cs: &mut Vec<(Rc<Container>, usize)>)
    ensures
        frames_view(final(cs)@) == settle(frames_view(old(cs)@)),
{
    let n = cs.len();
    if n == 0 {
        assert(frames_view(cs@).len() == 0);
        return;
    }
    let ghost before = cs@;
    proof {
        lemma_frames_drop_last(before);
        lemma_objects_model(before.last().0.content@);
    }
    if cs[n - 1].1 < cs[n - 1].0.content.len() {
        return;
    }
    cs.pop();
    assert(before.drop_last() =~= cs@);
    advance_frames(cs);
}

/// A running story: the graph it reads, and its own state.
pub struct Story {
    graph: RuntimeGraph,
    output: String,
    pending_newline: bool,
    glue: bool,
    cursors: Vec<(Rc<Container>, usize)>,
    eval_mode: bool,
    eval_stack: Vec<Value>,
    string_buffer: Option<String>,
    globals: Vec<(String, Value)>,
    temps: Vec<(String, Value)>,
    tags: Vec<String>,
    choices: Vec<Choice>,
    calls: Vec<CallFrame>,
    externals: Vec<String>,
    pending: Option<ExternalCall>,
    ended: bool,
}

/// A call of an external function that waits for the host's answer.
#[derive(Debug, Clone, PartialEq)]
pub struct ExternalCall {
    pub name: String,
    pub args: Vec<Value>,
}

impl View for ExternalCall {
    type V = ExternalCallModel;

    open spec fn view(&self) -> ExternalCallModel {
        ExternalCallModel { name: self.name@, args: values_view(self.args@) }
    }
}

/// A call in progress.
pub struct CallFrame {
    kind: PushPopType,
    return_to: Vec<(Rc<Container>, usize)>,
    temps: Vec<(String, Value)>,
    eval_mode: bool,
}

impl View for CallFrame {
    type V = CallModel;

    closed spec fn view(&self) -> CallModel {
        CallModel {
            kind: self.kind,
            return_to: frames_view(self.return_to@),
            temps: vars_view(self.temps@),
            eval_mode: self.eval_mode,
        }
    }
}

pub closed spec fn calls_view(s: Seq<CallFrame>) -> Seq<CallModel> {
    s.map_values(|c: CallFrame| c@)
}

impl View for Story {
    type V = StoryModel;

    closed spec fn view(&self) -> StoryModel {
        StoryModel {
            graph: self.graph@,
            output: self.output@,
            pending_newline: self.pending_newline,
            glue: self.glue,
            cursors: frames_view(self.cursors@),
            eval_mode: self.eval_mode,
            eval_stack: values_view(self.eval_stack@),
            string_buffer: match self.string_buffer {
                Some(b) => Some(b@),
                None => None,
            },
            globals: vars_view(self.globals@),
            temps: vars_view(self.temps@),
            tags: strings_view(self.tags@),
            choices: choices_view(self.choices@),
            calls: calls_view(self.calls@),
            externals: strings_view(self.externals@),
            pending: match self.pending {
                Some(c) => Some(c@),
                None => None,
            },
            ended: self.ended,
        }
    }
}

proof fn lemma_lookup_bind(t: Seq<(Seq<char>, ValueModel)>, name: Seq<char>, v: ValueModel, i: int)
    requires
        0 <= i <= t.len(),
        forall|j: int| 0 <= j < i ==> (#[trigger] t[j]).0 != name,
        i < t.len() ==> t[i].0 == name,
    ensures
        lookup(t, name) == (if i < t.len() {
            Some(t[i].1)
        } else {
            None
        }),
        bind(t, name, v) == (if i < t.len() {
            t.update(i, (name, v))
        } else {
            t.push((name, v))
        }),
    decreases i,
{
    if i == 0 {
        if t.len() == 0 {
            assert(bind(t, name, v) =~= t.push((name, v)));
        }
    } else {
        let r = t.drop_first();
        assert forall|j: int| 0 <= j < i - 1 implies (#[trigger] r[j]).0 != name by {
            assert(r[j] == t[j + 1]);
        }
        lemma_lookup_bind(r, name, v, i - 1);
        assert(t[0].0 != name);
        if i < t.len() {
            assert(bind(t, name, v) =~= t.update(i, (name, v)));
        } else {
            assert(bind(t, name, v) =~= t.push((name, v)));
        }
    }
}

/// The position of the first binding of `name`.
fn find_binding(t: &Vec<(String, Value)>, name: &str) -> (r: usize)
    ensures
        r <= t.len(),
        forall|j: int| 0 <= j < r ==> (#[trigger] vars_view(t@)[j]).0 != name@,
        r < t.len() ==> vars_view(t@)[r as int].0 == name@,
{
    let mut i: usize = 0;
    while i < t.len()
        invariant
            i <= t.len(),
            forall|j: int| 0 <= j < i ==> (#[trigger] vars_view(t@)[j]).0 != name@,
        decreases t.len() - i,
    {
        if str_equal(t[i].0.as_str(), name) {
            return i;
        }
        i = i + 1;
    }
    i
}

fn bind_exec(t: &mut Vec<(String, Value)>, name: &str, v: Value)
    ensures
        vars_view(final(t)@) == bind(vars_view(old(t)@), name@, v@),
{
    let i = find_binding(t, name);
    proof {
        lemma_lookup_bind(vars_view(t@), name@, v@, i as int);
    }
    if i < t.len() {
        t.set(i, (String::from_str(name), v));
        assert(vars_view(t@) =~= vars_view(old(t)@).update(i as int, (name@, v@)));
    } else {
        t.push((String::from_str(name), v));
        assert(vars_view(t@) =~= vars_view(old(t)@).push((name@, v@)));
    }
}

/// A copy of the value bound to `name`.
fn lookup_exec(t: &Vec<(String, Value)>, name: &str) -> (r: Option<Value>)
    ensures
        match r {
            Some(v) => lookup(vars_view(t@), name@) == Some(v@),
            None => lookup(vars_view(t@), name@) is None,
        },
{
    let i = find_binding(t, name);
    proof {
        lemma_lookup_bind(vars_view(t@), name@, ValueModel::Int(0), i as int);
    }
    if i < t.len() {
        Some(t[i].1.duplicate())
    } else {
        None
    }
}

fn is_blank_exec(s: &str) -> (r: bool)
    ensures
        r == is_blank(s@),
{
    let n = s.unicode_len();
    let mut i: usize = 0;
    while i < n
        invariant
            n == s@.len(),
            i <= n,
            forall|j: int| 0 <= j < i ==> (#[trigger] s@[j] == ' ' || s@[j] == '\t'),
        decreases n - i,
    {
        let c = s.get_char(i);
        if c != ' ' && c != '\t' {
            return false;
        }
        i = i + 1;
    }
    true
}

/// The text that a value prints as.
pub fn value_to_text(v: &Value) -> (r: String)
    ensures
        r@ == value_text(v@),
{
    let mut out = String::new();
    match v {
        Value::Int(i) => {
            if *i < 0 {
                out.append("-");
                proof {
                    reveal_strlit("-");
                }
                push_decimal(&mut out, (-(*i as i64)) as usize);
            } else {
                push_decimal(&mut out, *i as usize);
            }
        },
        Value::Float(t) => {
            out.append(t.as_str());
        },
        Value::String(s) => {
            out.append(s.as_str());
        },
        Value::DivertTarget { target_path } => {
            out.append("DivertTarget(");
            let p = target_path.to_string();
            out.append(p.as_str());
            out.append(")");
        },
        Value::VariablePointer { name, .. } => {
            out.append("VarPtr(");
            out.append(name.as_str());
            out.append(")");
        },
    }
    assert(out@ =~= value_text(v@));
    out
}

fn kind_of_exec(v: &Value) -> (r: ValueKind)
    ensures
        r == kind_of(v@),
{
    match v {
        Value::Int(_) => ValueKind::Int,
        Value::Float(_) => ValueKind::Float,
        Value::String(_) => ValueKind::String,
        Value::DivertTarget { .. } => ValueKind::DivertTarget,
        Value::VariablePointer { .. } => ValueKind::VariablePointer,
    }
}

fn apply_exec(f: NativeFunctionCall, a: i32, b: i32) -> (r: Result<i32, RuntimeError>)
    ensures
        match r {
            Ok(v) => apply(f, a as int, b as int) == Ok::<int, RuntimeErrorModel>(v as int),
            Err(e) => apply(f, a as int, b as int) == Err::<int, RuntimeErrorModel>(e@),
        },
{
    let x = a as i64;
    let y = b as i64;
    let v: i64 = match f {
        NativeFunctionCall::Plus => x + y,
        NativeFunctionCall::Minus => x - y,
        NativeFunctionCall::Multiply => {
            assert(-0x4000_0000_0000_0000 <= x * y <= 0x4000_0000_0000_0000) by (nonlinear_arith)
                requires
                    -0x8000_0000 <= x <= 0x7fff_ffff,
                    -0x8000_0000 <= y <= 0x7fff_ffff,
            ;
            x * y
        },
        NativeFunctionCall::Divide | NativeFunctionCall::Modulo => {
            if y == 0 {
                return Err(RuntimeError::DivisionByZero);
            }
            let ax: i64 = if x < 0 {
                -x
            } else {
                x
            };
            let ay: i64 = if y < 0 {
                -y
            } else {
                y
            };
            if f == NativeFunctionCall::Divide {
                let q = ax / ay;
                if (x < 0) != (y < 0) {
                    -q
                } else {
                    q
                }
            } else {
                let m = ax % ay;
                if x < 0 {
                    -m
                } else {
                    m
                }
            }
        },
        NativeFunctionCall::UnaryMinus => -y,
        NativeFunctionCall::Eq => if x == y {
            1
        } else {
            0
        },
        NativeFunctionCall::GT => if x > y {
            1
        } else {
            0
        },
        NativeFunctionCall::LT => if x < y {
            1
        } else {
            0
        },
        NativeFunctionCall::GEq => if x >= y {
            1
        } else {
            0
        },
        NativeFunctionCall::LEq => if x <= y {
            1
        } else {
            0
        },
        NativeFunctionCall::NEq => if x != y {
            1
        } else {
            0
        },
        NativeFunctionCall::UnaryNot => if y == 0 {
            1
        } else {
            0
        },
        NativeFunctionCall::And => if x != 0 && y != 0 {
            1
        } else {
            0
        },
        NativeFunctionCall::Or => if x != 0 || y != 0 {
            1
        } else {
            0
        },
        NativeFunctionCall::Min => if x <= y {
            x
        } else {
            y
        },
        NativeFunctionCall::Max => if x >= y {
            x
        } else {
            y
        },
    };
    if i32::MIN as i64 <= v && v <= i32::MAX as i64 {
        Ok(v as i32)
    } else {
        Err(RuntimeError::IntegerOverflow)
    }
}


impl Story {
    /// A story at the start of `graph`.
    pub fn new(graph: RuntimeGraph) -> (r: Story)
        ensures
            r@ == start_model(graph@),
    {
        let mut cursors: Vec<(Rc<Container>, usize)> = Vec::new();
        cursors.push((graph.root_container.clone(), 0));
        let r = Story {
            graph,
            output: String::new(),
            pending_newline: false,
            glue: false,
            cursors,
            eval_mode: false,
            eval_stack: Vec::new(),
            string_buffer: None,
            globals: Vec::new(),
            temps: Vec::new(),
            tags: Vec::new(),
            choices: Vec::new(),
            calls: Vec::new(),
            externals: Vec::new(),
            pending: None,
            ended: false,
        };
        assert(r@.cursors =~= start_model(graph@).cursors);
        assert(r@.eval_stack =~= Seq::<ValueModel>::empty());
        assert(r@.globals =~= Seq::<(Seq<char>, ValueModel)>::empty());
        assert(r@.temps =~= Seq::<(Seq<char>, ValueModel)>::empty());
        assert(r@.tags =~= Seq::<Seq<char>>::empty());
        assert(r@.choices =~= Seq::<OfferModel>::empty());
        assert(r@.calls =~= Seq::<CallModel>::empty());
        assert(r@.externals =~= Seq::<Seq<char>>::empty());
        r
    }

    /// A story at the start of the graph that a JSON text decodes to.
    pub fn new_from_json(text: &str) -> (r: Result<Story, DecodeError>)
        ensures
            match r {
                Ok(s) => decode_graph_text(json_parse(text@)) == Ok::<GraphModel, crate::decode::ErrorModel>(
                    s@.graph,
                ) && s@ == start_model(s@.graph),
                Err(e) => decode_graph_text(json_parse(text@)) == Err::<GraphModel, crate::decode::ErrorModel>(
                    e@,
                ),
            },
    {
        match RuntimeGraph::from_str(text) {
            Ok(g) => Ok(Story::new(g)),
            Err(e) => Err(e),
        }
    }

    /// The text written so far.
    pub fn output(&self) -> (r: &str)
        ensures
            r@ == self@.output,
    {
        self.output.as_str()
    }

    /// The tags met so far, in order.
    pub fn current_tags(&self) -> (r: &Vec<String>)
        ensures
            strings_view(r@) == self@.tags,
    {
        &self.tags
    }

    pub fn graph(&self) -> (r: &RuntimeGraph)
        ensures
            r@ == self@.graph,
    {
        &self.graph
    }

    pub fn is_ended(&self) -> (r: bool)
        ensures
            r == self@.ended,
    {
        self.ended
    }

    /// Writes text as the story does: into a string being built, or to the
    /// output, under the line-break and glue rules.
    pub fn write_output(&mut self, s: &str)
        ensures
            final(self)@ == emit(old(self)@, s@),
    {
        if self.string_buffer.is_some() {
            let mut b = self.string_buffer.take().unwrap();
            b.append(s);
            self.string_buffer = Some(b);
            return;
        }
        if str_equal(s, "\n") {
            if !self.glue {
                self.pending_newline = true;
            }
            return;
        }
        let n = s.unicode_len();
        let t: &str = if self.glue && n > 0 && s.get_char(0) == ' ' {
            s.substring_char(1, n)
        } else {
            s
        };
        assert(self.glue && n > 0 && s@[0] == ' ' ==> t@ =~= s@.drop_first());
        if t.unicode_len() == 0 {
            return;
        }
        if self.pending_newline {
            self.output.append("\n");
        }
        self.output.append(t);
        self.pending_newline = false;
        let blank = is_blank_exec(t);
        self.glue = self.glue && blank;
        assert(self@.output =~= emit(old(self)@, s@).output);
    }

    fn finish(&mut self)
        ensures
            final(self)@ == finish(old(self)@),
    {
        if self.pending_newline {
            self.output.append("\n");
        }
        self.pending_newline = false;
        self.cursors = Vec::new();
        self.ended = true;
        assert(self@.output =~= finish(old(self)@).output);
        assert(self@.cursors =~= Seq::<(ContainerModel, usize)>::empty());
    }

    fn push_value(&mut self, v: Value)
        ensures
            final(self)@ == (StoryModel { eval_stack: old(self)@.eval_stack.push(v@), ..old(self)@ }),
    {
        self.eval_stack.push(v);
        assert(values_view(self.eval_stack@) =~= values_view(old(self).eval_stack@).push(v@));
    }

    fn pop_value(&mut self) -> (r: Value)
        requires
            old(self)@.eval_stack.len() > 0,
        ensures
            r@ == old(self)@.eval_stack.last(),
            final(self)@ == (StoryModel { eval_stack: old(self)@.eval_stack.drop_last(), ..old(self)@ }),
    {
        assert(self.eval_stack@.len() == self@.eval_stack.len());
        let v = self.eval_stack.pop().unwrap();
        assert(values_view(self.eval_stack@) =~= values_view(old(self).eval_stack@).drop_last());
        v
    }

    fn native_exec(&mut self, f: NativeFunctionCall) -> (r: Result<(), RuntimeError>)
        ensures
            match r {
                Ok(_) => native(old(self)@, f) == Ok::<StoryModel, RuntimeErrorModel>(final(self)@),
                Err(e) => native(old(self)@, f) == Err::<StoryModel, RuntimeErrorModel>(e@)
                    && final(self)@ == old(self)@,
            },
    {
        let binary = !(f == NativeFunctionCall::UnaryMinus || f == NativeFunctionCall::UnaryNot);
        let arity: usize = if binary {
            2
        } else {
            1
        };
        let n = self.eval_stack.len();
        assert(n == self@.eval_stack.len());
        if n < arity {
            return Err(RuntimeError::EvalStackUnderflow);
        }
        let a: i32 = if binary {
            match &self.eval_stack[n - 2] {
                Value::Int(a) => *a,
                other => {
                    return Err(
                        RuntimeError::TypeMismatch {
                            expected: ValueKind::Int,
                            got: kind_of_exec(other),
                        },
                    );
                },
            }
        } else {
            0
        };
        let b: i32 = match &self.eval_stack[n - 1] {
            Value::Int(b) => *b,
            other => {
                return Err(
                    RuntimeError::TypeMismatch { expected: ValueKind::Int, got: kind_of_exec(other) },
                );
            },
        };
        let v = match apply_exec(f, a, b) {
            Ok(v) => v,
            Err(e) => return Err(e),
        };
        let ghost s = self@.eval_stack;
        self.eval_stack.pop();
        if binary {
            self.eval_stack.pop();
        }
        self.eval_stack.push(Value::Int(v));
        assert(values_view(self.eval_stack@) =~= s.subrange(0, s.len() - arity).push(
            ValueModel::Int(v as int),
        ));
        Ok(())
    }

    fn return_exec(&mut self, kind: PushPopType) -> (r: Result<Flow, RuntimeError>)
        ensures
            match r {
                Ok(flow) => return_from(old(self)@, kind) == Ok::<
                    (StoryModel, Flow),
                    RuntimeErrorModel,
                >((final(self)@, flow)),
                Err(e) => return_from(old(self)@, kind) == Err::<
                    (StoryModel, Flow),
                    RuntimeErrorModel,
                >(e@) && final(self)@ == old(self)@,
            },
    {
        let n = self.calls.len();
        assert(n == self@.calls.len());
        if n == 0 || self.calls[n - 1].kind != kind {
            return Err(RuntimeError::ReturnWithoutCall);
        }
        let ghost before = self.calls@;
        let frame = self.calls.pop().unwrap();
        assert(calls_view(self.calls@) =~= calls_view(before).drop_last());
        self.cursors = frame.return_to;
        self.temps = frame.temps;
        self.eval_mode = frame.eval_mode;
        Ok(Flow::Stay)
    }

    fn command_exec(&mut self, c: ControlCommand) -> (r: Result<Flow, RuntimeError>)
        ensures
            match r {
                Ok(flow) => command(old(self)@, c) == Ok::<(StoryModel, Flow), RuntimeErrorModel>(
                    (final(self)@, flow),
                ),
                Err(e) => command(old(self)@, c) == Err::<(StoryModel, Flow), RuntimeErrorModel>(
                    e@,
                ) && final(self)@ == old(self)@,
            },
    {
        let n = self.eval_stack.len();
        assert(n == self@.eval_stack.len());
        match c {
            ControlCommand::EvalStart => {
                self.eval_mode = true;
                Ok(Flow::Advance)
            },
            ControlCommand::EvalEnd => {
                self.eval_mode = false;
                Ok(Flow::Advance)
            },
            ControlCommand::EvalOutput => {
                if n == 0 {
                    return Err(RuntimeError::EvalStackUnderflow);
                }
                let v = self.pop_value();
                let t = value_to_text(&v);
                self.write_output(t.as_str());
                Ok(Flow::Advance)
            },
            ControlCommand::Duplicate => {
                if n == 0 {
                    return Err(RuntimeError::EvalStackUnderflow);
                }
                let v = self.eval_stack[n - 1].duplicate();
                self.push_value(v);
                Ok(Flow::Advance)
            },
            ControlCommand::PopEvaluatedValue => {
                if n == 0 {
                    return Err(RuntimeError::EvalStackUnderflow);
                }
                self.pop_value();
                Ok(Flow::Advance)
            },
            ControlCommand::NoOp => Ok(Flow::Advance),
            ControlCommand::BeginString => {
                if self.string_buffer.is_some() {
                    return Err(RuntimeError::Unsupported);
                }
                self.string_buffer = Some(String::new());
                self.eval_mode = false;
                Ok(Flow::Advance)
            },
            ControlCommand::EndString => {
                if self.string_buffer.is_none() {
                    return Err(RuntimeError::Unsupported);
                }
                let b = self.string_buffer.take().unwrap();
                self.string_buffer = None;
                self.eval_mode = true;
                self.push_value(Value::String(b));
                Ok(Flow::Advance)
            },
            ControlCommand::Done => Ok(Flow::Done),
            ControlCommand::End => Ok(Flow::End),
            ControlCommand::PopFunction => self.return_exec(PushPopType::Function),
            ControlCommand::PopTunnel => self.return_exec(PushPopType::Tunnel),
            ControlCommand::ChoiceCount => {
                if self.choices.len() > i32::MAX as usize {
                    return Err(RuntimeError::IntegerOverflow);
                }
                self.push_value(Value::Int(self.choices.len() as i32));
                Ok(Flow::Advance)
            },
            _ => Err(RuntimeError::Unsupported),
        }
    }

    /// Runs one object; the flow says how the cursor is to move after it.
    #[verifier::spinoff_prover]
    #[verifier::rlimit(80)]
    pub fn execute(&mut self, o: &RuntimeObject) -> (r: Result<Flow, RuntimeError>)
        ensures
            match r {
                Ok(flow) => execute(old(self)@, o@) == Ok::<(StoryModel, Flow), RuntimeErrorModel>(
                    (final(self)@, flow),
                ),
                Err(e) => execute(old(self)@, o@) == Err::<(StoryModel, Flow), RuntimeErrorModel>(
                    e@,
                ) && final(self)@ == old(self)@,
            },
    {
        match o {
            RuntimeObject::Value(v) => {
                if self.eval_mode {
                    self.push_value(v.duplicate());
                } else {
                    let t = value_to_text(v);
                    self.write_output(t.as_str());
                }
                Ok(Flow::Advance)
            },
            RuntimeObject::Glue(g) => {
                if *g == Glue::Bidirectional {
                    self.glue = true;
                    self.pending_newline = false;
                }
                Ok(Flow::Advance)
            },
            RuntimeObject::ControlCommand(c) => self.command_exec(*c),
            RuntimeObject::Container(c) => {
                proof {
                    lemma_frames_push(self.cursors@, (*c, 0usize));
                }
                self.cursors.push((c.clone(), 0));
                Ok(Flow::Stay)
            },
            RuntimeObject::Tag(t) => {
                self.tags.push(String::from_str(t.text.as_str()));
                assert(strings_view(self.tags@) =~= strings_view(old(self).tags@).push(t.text@));
                Ok(Flow::Advance)
            },
            RuntimeObject::NativeFunctionCall(f) => match self.native_exec(*f) {
                Ok(_) => Ok(Flow::Advance),
                Err(e) => Err(e),
            },
            RuntimeObject::VariableAssignment(a) => {
                let n = self.eval_stack.len();
                assert(n == self@.eval_stack.len());
                if n == 0 {
                    return Err(RuntimeError::EvalStackUnderflow);
                }
                let name = a.name.as_str();
                if !a.is_new_declaration {
                    let in_temps = lookup_exec(&self.temps, name).is_some();
                    let in_globals = lookup_exec(&self.globals, name).is_some();
                    if !in_temps && !in_globals {
                        return Err(RuntimeError::UnknownVariable(String::from_str(name)));
                    }
                }
                let v = self.pop_value();
                let to_temps = if a.is_new_declaration {
                    !a.is_global
                } else {
                    lookup_exec(&self.temps, name).is_some()
                };
                if to_temps {
                    bind_exec(&mut self.temps, name, v);
                } else {
                    bind_exec(&mut self.globals, name, v);
                }
                Ok(Flow::Advance)
            },
            RuntimeObject::VariableReference(r) => {
                let name = r.name.as_str();
                let found = match lookup_exec(&self.temps, name) {
                    Some(v) => Some(v),
                    None => lookup_exec(&self.globals, name),
                };
                match found {
                    Some(v) => {
                        self.push_value(v);
                        Ok(Flow::Advance)
                    },
                    None => Err(RuntimeError::UnknownVariable(String::from_str(name))),
                }
            },
            RuntimeObject::Divert(d) => self.divert_exec(d),
            RuntimeObject::Choice(c) => self.offer_exec(c),
            RuntimeObject::Void => Ok(Flow::Advance),
            RuntimeObject::Null => Ok(Flow::Advance),
            _ => Err(RuntimeError::Unsupported),
        }
    }

    /// The object under the cursor, where the innermost frame has one.
    pub fn peek_cursor(&self) -> (r: Option<&RuntimeObject>)
        ensures
            match r {
                Some(o) => self@.cursors.len() > 0 && self@.cursors.last().1
                    < self@.cursors.last().0.content.len() && o@ == self@.cursors.last().0.content[self@.cursors.last().1 as int],
                None => self@.cursors.len() == 0 || self@.cursors.last().1
                    >= self@.cursors.last().0.content.len(),
            },
    {
        let n = self.cursors.len();
        if n == 0 {
            return None;
        }
        proof {
            lemma_frames_drop_last(self.cursors@);
            lemma_objects_model(self.cursors@[n - 1].0.content@);
        }
        let i = self.cursors[n - 1].1;
        if i < self.cursors[n - 1].0.content.len() {
            Some(&self.cursors[n - 1].0.content[i])
        } else {
            None
        }
    }

    /// Moves the cursor past its object; fails where no frame is left.
    pub fn advance_cursor(&mut self) -> (r: Result<(), ()>)
        ensures
            final(self)@ == (StoryModel { cursors: advance(old(self)@.cursors), ..old(self)@ }),
            r is Ok <==> advance(old(self)@.cursors).len() > 0,
    {
        advance_frames(&mut self.cursors);
        if self.cursors.len() == 0 {
            Err(())
        } else {
            Ok(())
        }
    }

    /// The frames that a path leads to from the current position.
    fn resolve_exec(&self, p: &Path) -> (r: Option<Vec<(Rc<Container>, usize)>>)
        ensures
            match r {
                Some(cs) => resolve(self@, p@) == Some(frames_view(cs@)),
                None => resolve(self@, p@) is None,
            },
    {
        let ghost comps = p@.components;
        let mut chain: Vec<(Rc<Container>, usize)>;
        let start: usize;
        if !p.is_relative {
            chain = Vec::new();
            chain.push((self.graph.root_container.clone(), 0));
            assert(frames_view(chain@) =~= seq![(self@.graph.root, 0usize)]);
            start = 0;
            assert(comps.subrange(0, comps.len() as int) =~= comps);
        } else {
            if self.cursors.len() == 0 || p.components.len() == 0 {
                return None;
            }
            match &p.components[0] {
                PathComponent::Parent => {},
                _ => {
                    return None;
                },
            }
            chain = copy_frames(&self.cursors);
            start = 1;
            assert(comps.subrange(1, comps.len() as int) =~= comps.drop_first());
        }
        let ghost init = chain@;
        let mut at_object = false;
        let mut k: usize = start;
        while k < p.components.len()
            invariant
                start <= k <= p.components.len(),
                comps == p@.components,
                comps.len() == p.components.len(),
                chain.len() > 0,
                resolve(self@, p@) == walk(
                    frames_view(chain@),
                    at_object,
                    comps.subrange(k as int, comps.len() as int),
                ),
            decreases p.components.len() - k,
        {
            let ghost rest = comps.subrange(k as int, comps.len() as int);
            assert(rest[0] == p.components@[k as int]@);
            assert(rest.drop_first() =~= comps.subrange(k + 1, comps.len() as int));
            if at_object {
                return None;
            }
            match follow_exec(&mut chain, &p.components[k]) {
                Some(obj) => {
                    at_object = obj;
                },
                None => {
                    return None;
                },
            }
            proof {
                if chain@.len() == 0 {
                    assert(false);
                }
            }
            k = k + 1;
        }
        Some(chain)
    }

    /// Lets the host answer calls of the external function `name`.
    pub fn bind_external(&mut self, name: &str)
        ensures
            final(self)@ == (StoryModel { externals: old(self)@.externals.push(name@), ..old(self)@ }),
    {
        self.externals.push(String::from_str(name));
        assert(strings_view(self.externals@) =~= strings_view(old(self).externals@).push(name@));
    }

    /// The external function call that waits for the host's answer.
    pub fn pending_external(&self) -> (r: Option<&ExternalCall>)
        ensures
            match r {
                Some(c) => self@.pending == Some(c@),
                None => self@.pending is None,
            },
    {
        match &self.pending {
            Some(c) => Some(c),
            None => None,
        }
    }

    /// Answers the waiting external call; a value it returns is pushed.
    pub fn resume_external(&mut self, result: Option<Value>) -> (r: Result<(), RuntimeError>)
        ensures
            match r {
                Ok(_) => resume_model(
                    old(self)@,
                    match result {
                        Some(v) => Some(v@),
                        None => None,
                    },
                ) == Ok::<StoryModel, RuntimeErrorModel>(final(self)@),
                Err(e) => resume_model(
                    old(self)@,
                    match result {
                        Some(v) => Some(v@),
                        None => None,
                    },
                ) == Err::<StoryModel, RuntimeErrorModel>(e@) && final(self)@ == old(self)@,
            },
    {
        if self.pending.is_none() {
            return Err(RuntimeError::NoPendingExternal);
        }
        self.pending = None;
        match result {
            Some(v) => self.push_value(v),
            None => {},
        }
        Ok(())
    }

    fn has_external(&self, name: &str) -> (r: bool)
        ensures
            r == self@.externals.contains(name@),
    {
        let ghost names = self@.externals;
        let mut i: usize = 0;
        while i < self.externals.len()
            invariant
                i <= self.externals.len(),
                names == strings_view(self.externals@),
                names.len() == self.externals.len(),
                forall|j: int| 0 <= j < i ==> names[j] != name@,
            decreases self.externals.len() - i,
        {
            if str_equal(self.externals[i].as_str(), name) {
                assert(names[i as int] == name@);
                return true;
            }
            i = i + 1;
        }
        false
    }

    fn call_external_exec(&mut self, d: &Divert, name: &str) -> (r: Result<Flow, RuntimeError>)
        requires
            d.target matches TargetType::ExternalName(n) && n@ == name@,
            !d.is_conditional || (old(self)@.eval_stack.len() > 0 && truthy(
                old(self)@.eval_stack.last(),
            ) == Ok::<bool, RuntimeErrorModel>(true)),
        ensures
            match r {
                Ok(flow) => divert(old(self)@, d@) == Ok::<(StoryModel, Flow), RuntimeErrorModel>(
                    (final(self)@, flow),
                ),
                Err(e) => divert(old(self)@, d@) == Err::<(StoryModel, Flow), RuntimeErrorModel>(
                    e@,
                ) && final(self)@ == old(self)@,
            },
    {
        if !self.has_external(name) {
            return Err(RuntimeError::UnknownExternal(String::from_str(name)));
        }
        let k: usize = match d.external_args {
            Some(k) => k as usize,
            None => 0,
        };
        let n = self.eval_stack.len();
        assert(n == self@.eval_stack.len());
        let cond: usize = if d.is_conditional {
            1
        } else {
            0
        };
        if n - cond < k {
            return Err(RuntimeError::EvalStackUnderflow);
        }
        if d.is_conditional {
            self.pop_value();
        }
        let ghost s = self@.eval_stack;
        let m = n - cond;
        let base: usize = m - k;
        let mut args: Vec<Value> = Vec::new();
        let mut i: usize = base;
        while i < m
            invariant
                base <= i <= m,
                m == self.eval_stack.len(),
                s == values_view(self.eval_stack@),
                s.len() == m,
                values_view(args@) == s.subrange(base as int, i as int),
            decreases m - i,
        {
            let v = self.eval_stack[i].duplicate();
            let ghost before = args@;
            args.push(v);
            assert(values_view(args@) =~= values_view(before).push(s[i as int]));
            assert(s.subrange(base as int, i + 1) =~= s.subrange(base as int, i as int).push(
                s[i as int],
            ));
            i = i + 1;
        }
        self.eval_stack.truncate(base);
        assert(values_view(self.eval_stack@) =~= s.subrange(0, base as int));
        self.pending = Some(ExternalCall { name: String::from_str(name), args });
        Ok(Flow::Advance)
    }

    fn divert_exec(&mut self, d: &Divert) -> (r: Result<Flow, RuntimeError>)
        ensures
            match r {
                Ok(flow) => divert(old(self)@, d@) == Ok::<(StoryModel, Flow), RuntimeErrorModel>(
                    (final(self)@, flow),
                ),
                Err(e) => divert(old(self)@, d@) == Err::<(StoryModel, Flow), RuntimeErrorModel>(
                    e@,
                ) && final(self)@ == old(self)@,
            },
    {
        let n = self.eval_stack.len();
        assert(n == self@.eval_stack.len());
        if d.is_conditional {
            if n == 0 {
                return Err(RuntimeError::EvalStackUnderflow);
            }
            let holds = match &self.eval_stack[n - 1] {
                Value::Int(i) => *i != 0,
                other => {
                    return Err(
                        RuntimeError::TypeMismatch {
                            expected: ValueKind::Int,
                            got: kind_of_exec(other),
                        },
                    );
                },
            };
            if !holds {
                self.pop_value();
                return Ok(Flow::Advance);
            }
        }
        let path: Path = match &d.target {
            TargetType::Path(p) => p.duplicate(),
            TargetType::ExternalName(name) => {
                return self.call_external_exec(d, name.as_str());
            },
            TargetType::VarName(name) => {
                let name = name.as_str();
                let found = match lookup_exec(&self.temps, name) {
                    Some(v) => Some(v),
                    None => lookup_exec(&self.globals, name),
                };
                match found {
                    Some(Value::DivertTarget { target_path }) => target_path,
                    Some(v) => {
                        return Err(
                            RuntimeError::TypeMismatch {
                                expected: ValueKind::DivertTarget,
                                got: kind_of_exec(&v),
                            },
                        );
                    },
                    None => {
                        return Err(RuntimeError::UnknownVariable(String::from_str(name)));
                    },
                }
            },
        };
        assert(divert_path(self@, d@) == Ok::<PathView, RuntimeErrorModel>(path@));
        let mut cs = match self.resolve_exec(&path) {
            Some(cs) => cs,
            None => {
                return Err(RuntimeError::UnresolvedTarget(path));
            },
        };
        if d.is_conditional {
            self.pop_value();
        }
        settle_exec(&mut cs);
        if d.pushes_to_stack {
            let mut return_to = copy_frames(&self.cursors);
            advance_frames(&mut return_to);
            let mut temps: Vec<(String, Value)> = Vec::new();
            std::mem::swap(&mut temps, &mut self.temps);
            let ghost before = self.calls@;
            self.calls.push(
                CallFrame { kind: d.stack_push_type, return_to, temps, eval_mode: self.eval_mode },
            );
            self.eval_mode = false;
            assert(calls_view(self.calls@) =~= calls_view(before).push(self.calls@.last()@));
            assert(vars_view(self.temps@) =~= Seq::<(Seq<char>, ValueModel)>::empty());
        }
        self.cursors = cs;
        Ok(Flow::Stay)
    }

    fn offer_exec(&mut self, c: &ChoicePoint) -> (r: Result<Flow, RuntimeError>)
        ensures
            match r {
                Ok(flow) => offer(old(self)@, c@) == Ok::<(StoryModel, Flow), RuntimeErrorModel>(
                    (final(self)@, flow),
                ),
                Err(e) => offer(old(self)@, c@) == Err::<(StoryModel, Flow), RuntimeErrorModel>(
                    e@,
                ) && final(self)@ == old(self)@,
            },
    {
        let n = self.eval_stack.len();
        let ghost s = self@.eval_stack;
        assert(n == s.len());
        let k: usize = (if c.has_condition {
            1usize
        } else {
            0
        }) + (if c.has_choice_only_content {
            1usize
        } else {
            0
        }) + (if c.has_start_content {
            1usize
        } else {
            0
        });
        if n < k {
            return Err(RuntimeError::EvalStackUnderflow);
        }
        let mut pos: usize = n;
        let shown = if c.has_condition {
            pos = pos - 1;
            match &self.eval_stack[pos] {
                Value::Int(i) => *i != 0,
                other => {
                    return Err(
                        RuntimeError::TypeMismatch {
                            expected: ValueKind::Int,
                            got: kind_of_exec(other),
                        },
                    );
                },
            }
        } else {
            true
        };
        let only = if c.has_choice_only_content {
            pos = pos - 1;
            match &self.eval_stack[pos] {
                Value::String(t) => String::from_str(t.as_str()),
                other => {
                    return Err(
                        RuntimeError::TypeMismatch {
                            expected: ValueKind::String,
                            got: kind_of_exec(other),
                        },
                    );
                },
            }
        } else {
            String::new()
        };
        let start = if c.has_start_content {
            pos = pos - 1;
            match &self.eval_stack[pos] {
                Value::String(t) => String::from_str(t.as_str()),
                other => {
                    return Err(
                        RuntimeError::TypeMismatch {
                            expected: ValueKind::String,
                            got: kind_of_exec(other),
                        },
                    );
                },
            }
        } else {
            String::new()
        };
        let mut target = match self.resolve_exec(&c.choice_target_path) {
            Some(cs) => cs,
            None => {
                return Err(RuntimeError::UnresolvedTarget(c.choice_target_path.duplicate()));
            },
        };
        self.eval_stack.truncate(n - k);
        assert(values_view(self.eval_stack@) =~= s.subrange(0, s.len() - k as int));
        if shown {
            settle_exec(&mut target);
            let mut text = start;
            text.append(only.as_str());
            let ghost before = self.choices@;
            self.choices.push(Choice { text, target });
            assert(choices_view(self.choices@) =~= choices_view(before).push(
                self.choices@.last()@,
            ));
        }
        Ok(Flow::Advance)
    }

    fn end_of_flow_exec(&mut self) -> (r: StepResult)
        ensures
            (final(self)@, r@) == end_of_flow(old(self)@),
    {
        if self.choices.len() > 0 {
            self.cursors = Vec::new();
            assert(self@.cursors =~= Seq::<(ContainerModel, usize)>::empty());
            StepResult::Choices(self.choices.len())
        } else {
            self.finish();
            StepResult::Ended
        }
    }

    /// The texts of the choices on offer, in order.
    pub fn current_choices(&self) -> (r: Vec<String>)
        ensures
            strings_view(r@) == self@.choices.map_values(|c: OfferModel| c.text),
    {
        let mut r: Vec<String> = Vec::new();
        let mut i: usize = 0;
        while i < self.choices.len()
            invariant
                i <= self.choices.len(),
                strings_view(r@) == self@.choices.subrange(0, i as int).map_values(
                    |c: OfferModel| c.text,
                ),
            decreases self.choices.len() - i,
        {
            let ghost before = r@;
            r.push(String::from_str(self.choices[i].text.as_str()));
            assert(self@.choices[i as int] == self.choices@[i as int]@);
            assert(strings_view(r@) =~= strings_view(before).push(self.choices@[i as int].text@));
            assert(self@.choices.subrange(0, i + 1) =~= self@.choices.subrange(0, i as int).push(
                self.choices@[i as int]@,
            ));
            assert(strings_view(r@) =~= self@.choices.subrange(0, i + 1).map_values(
                |c: OfferModel| c.text,
            ));
            i = i + 1;
        }
        assert(self@.choices.subrange(0, i as int) =~= self@.choices);
        r
    }

    /// Takes choice `index`: the flow resumes where it leads.
    pub fn select_choice(&mut self, index: usize) -> (r: Result<(), RuntimeError>)
        ensures
            match r {
                Ok(_) => choose_model(old(self)@, index as int) == Ok::<StoryModel, RuntimeErrorModel>(
                    final(self)@,
                ),
                Err(e) => choose_model(old(self)@, index as int) == Err::<
                    StoryModel,
                    RuntimeErrorModel,
                >(e@) && final(self)@ == old(self)@,
            },
    {
        if index >= self.choices.len() {
            return Err(RuntimeError::InvalidChoice);
        }
        let target = copy_frames(&self.choices[index].target);
        assert(self@.choices[index as int] == self.choices@[index as int]@);
        self.cursors = target;
        self.choices = Vec::new();
        assert(self@.choices =~= Seq::<OfferModel>::empty());
        Ok(())
    }

    /// Runs the object under the cursor and moves the cursor on.
    pub fn step(&mut self) -> (r: StepResult)
        ensures
            (final(self)@, r@) == step_model(old(self)@),
    {
        if self.ended {
            self.finish();
            return StepResult::Ended;
        }
        if self.pending.is_some() {
            return StepResult::Error(RuntimeError::AwaitingExternal);
        }
        if self.cursors.len() == 0 {
            return self.end_of_flow_exec();
        }
        let n = self.cursors.len();
        let c = self.cursors[n - 1].0.clone();
        let i = self.cursors[n - 1].1;
        proof {
            lemma_frames_drop_last(self.cursors@);
            lemma_objects_model(c.content@);
        }
        if i >= c.content.len() {
            let ghost before = self.cursors@;
            self.cursors.pop();
            assert(before.drop_last() =~= self.cursors@);
            advance_frames(&mut self.cursors);
            if self.cursors.len() == 0 {
                return self.end_of_flow_exec();
            }
            return StepResult::Ran;
        }
        match self.execute(&c.content[i]) {
            Err(e) => StepResult::Error(e),
            Ok(Flow::End) => {
                self.finish();
                StepResult::Ended
            },
            Ok(Flow::Done) => self.end_of_flow_exec(),
            Ok(Flow::Stay) => {
                if self.cursors.len() == 0 {
                    self.end_of_flow_exec()
                } else {
                    StepResult::Ran
                }
            },
            Ok(Flow::Advance) => {
                let _ = self.advance_cursor();
                if self.cursors.len() == 0 {
                    self.end_of_flow_exec()
                } else {
                    StepResult::Ran
                }
            },
        }
    }
}

} // verus!
