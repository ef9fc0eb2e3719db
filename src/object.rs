use std::rc::Rc;
use vstd::prelude::*;
use vstd::string::*;

use crate::path::{str_equal, Path, PathView};
use crate::value::{Value, ValueModel};

verus! {

/// The three glue markers; only `<>` has an effect when run.
#[derive(Debug, Clone, Copy, PartialEq, Eq, Structural)]
pub enum Glue {
    Bidirectional,
    Left,
    Right,
}

#[derive(Debug, Clone, Copy, PartialEq, Eq, Structural)]
pub enum ControlCommand {
    EvalStart,
    EvalOutput,
    EvalEnd,
    Duplicate,
    PopEvaluatedValue,
    PopFunction,
    PopTunnel,
    BeginString,
    EndString,
    NoOp,
    ChoiceCount,
    TurnsSince,
    ReadCount,
    Random,
    SeedRandom,
    VisitIndex,
    SequenceShuffleIndex,
    StartThread,
    Done,
    End,
    ListFromInt,
    ListRange,
}

#[derive(Debug, Clone, Copy, PartialEq, Eq, Structural)]
pub enum NativeFunctionCall {
    Plus,
    Minus,
    Divide,
    Multiply,
    Modulo,
    UnaryMinus,
    Eq,
    GT,
    LT,
    GEq,
    LEq,
    NEq,
    UnaryNot,
    And,
    Or,
    Min,
    Max,
}

/// What a divert pushes on the call stack.
#[derive(Debug, Clone, Copy, PartialEq, Eq, Structural)]
pub enum PushPopType {
    Tunnel,
    Function,
    NoPush,
}

#[derive(Debug, Clone, PartialEq)]
pub enum TargetType {
    VarName(String),
    ExternalName(String),
    Path(Path),
}

#[derive(Debug, Clone, PartialEq)]
pub struct Divert {
    pub target: TargetType,
    pub stack_push_type: PushPopType,
    pub pushes_to_stack: bool,
    pub external_args: Option<u32>,
    pub is_conditional: bool,
}

#[derive(Debug, Clone, PartialEq)]
pub struct ChoicePoint {
    pub has_condition: bool,
    pub has_start_content: bool,
    pub has_choice_only_content: bool,
    pub is_invisible_default: bool,
    pub once_only: bool,
    pub choice_target_path: Path,
}

#[derive(Debug, Clone, PartialEq)]
pub struct Tag {
    pub text: String,
}

#[derive(Debug, Clone, PartialEq)]
pub struct VariableAssignment {
    pub name: String,
    pub is_new_declaration: bool,
    pub is_global: bool,
}

#[derive(Debug, Clone, PartialEq)]
pub struct VariableReference {
    pub name: String,
}

#[derive(Debug, Clone, PartialEq)]
pub struct ReadCount {
    pub target: Path,
}

/// Ordered content, named sub-elements, an optional name and the three
/// count flags.
#[derive(Debug, Clone, PartialEq)]
pub struct Container {
    pub content: Vec<RuntimeObject>,
    /// The named sub-elements, in the order of their descriptor. A map keyed
    /// by `String` gets no specification that a proof can use here, so the
    /// pairs stand in a `Vec` and every lookup takes the first pair with the
    /// key. Keys are unique wherever the descriptor came from serde_json,
    /// whose objects are maps; a pair whose key repeats an earlier one is
    /// never found.
    pub named_subelements: Vec<(String, RuntimeObject)>,
    pub name: Option<String>,
    pub visits_should_be_counted: bool,
    pub turn_index_should_be_counted: bool,
    pub count_at_start_only: bool,
}

/// Every kind of node of the graph.
#[derive(Debug, Clone, PartialEq)]
pub enum RuntimeObject {
    Choice(ChoicePoint),
    Container(Rc<Container>),
    ControlCommand(ControlCommand),
    Divert(Divert),
    NativeFunctionCall(NativeFunctionCall),
    Tag(Tag),
    Value(Value),
    VariableAssignment(VariableAssignment),
    VariableReference(VariableReference),
    ReadCount(ReadCount),
    Glue(Glue),
    Void,
    Null,
}

pub enum TargetModel {
    VarName(Seq<char>),
    ExternalName(Seq<char>),
    Path(PathView),
}

pub struct DivertModel {
    pub target: TargetModel,
    pub stack_push_type: PushPopType,
    pub pushes_to_stack: bool,
    pub external_args: Option<u32>,
    pub is_conditional: bool,
}

pub struct ChoiceModel {
    pub has_condition: bool,
    pub has_start_content: bool,
    pub has_choice_only_content: bool,
    pub is_invisible_default: bool,
    pub once_only: bool,
    pub choice_target_path: PathView,
}

pub struct AssignmentModel {
    pub name: Seq<char>,
    pub is_new_declaration: bool,
    pub is_global: bool,
}

pub struct ContainerModel {
    pub content: Seq<ObjectModel>,
    pub named_subelements: Seq<(Seq<char>, ObjectModel)>,
    pub name: Option<Seq<char>>,
    pub visits_should_be_counted: bool,
    pub turn_index_should_be_counted: bool,
    pub count_at_start_only: bool,
}

pub enum ObjectModel {
    Choice(ChoiceModel),
    Container(ContainerModel),
    ControlCommand(ControlCommand),
    Divert(DivertModel),
    NativeFunctionCall(NativeFunctionCall),
    Tag(Seq<char>),
    Value(ValueModel),
    VariableAssignment(AssignmentModel),
    VariableReference(Seq<char>),
    ReadCount(PathView),
    Glue(Glue),
    Void,
    Null,
}

impl View for TargetType {
    type V = TargetModel;

    open spec fn view(&self) -> TargetModel {
        match self {
            TargetType::VarName(s) => TargetModel::VarName(s@),
            TargetType::ExternalName(s) => TargetModel::ExternalName(s@),
            TargetType::Path(p) => TargetModel::Path(p@),
        }
    }
}

impl View for Divert {
    type V = DivertModel;

    open spec fn view(&self) -> DivertModel {
        DivertModel {
            target: self.target@,
            stack_push_type: self.stack_push_type,
            pushes_to_stack: self.pushes_to_stack,
            external_args: self.external_args,
            is_conditional: self.is_conditional,
        }
    }
}

impl View for ChoicePoint {
    type V = ChoiceModel;

    open spec fn view(&self) -> ChoiceModel {
        ChoiceModel {
            has_condition: self.has_condition,
            has_start_content: self.has_start_content,
            has_choice_only_content: self.has_choice_only_content,
            is_invisible_default: self.is_invisible_default,
            once_only: self.once_only,
            choice_target_path: self.choice_target_path@,
        }
    }
}

impl View for VariableAssignment {
    type V = AssignmentModel;

    open spec fn view(&self) -> AssignmentModel {
        AssignmentModel {
            name: self.name@,
            is_new_declaration: self.is_new_declaration,
            is_global: self.is_global,
        }
    }
}

pub open spec fn object_model(o: RuntimeObject) -> ObjectModel
    decreases o,
{
    match o {
        RuntimeObject::Choice(c) => ObjectModel::Choice(c@),
        RuntimeObject::Container(c) => ObjectModel::Container(container_model(*c)),
        RuntimeObject::ControlCommand(c) => ObjectModel::ControlCommand(c),
        RuntimeObject::Divert(d) => ObjectModel::Divert(d@),
        RuntimeObject::NativeFunctionCall(f) => ObjectModel::NativeFunctionCall(f),
        RuntimeObject::Tag(t) => ObjectModel::Tag(t.text@),
        RuntimeObject::Value(v) => ObjectModel::Value(v@),
        RuntimeObject::VariableAssignment(a) => ObjectModel::VariableAssignment(a@),
        RuntimeObject::VariableReference(r) => ObjectModel::VariableReference(r.name@),
        RuntimeObject::ReadCount(r) => ObjectModel::ReadCount(r.target@),
        RuntimeObject::Glue(g) => ObjectModel::Glue(g),
        RuntimeObject::Void => ObjectModel::Void,
        RuntimeObject::Null => ObjectModel::Null,
    }
}

pub open spec fn container_model(c: Container) -> ContainerModel
    decreases c,
{
    ContainerModel {
        content: objects_model(c.content@),
        named_subelements: named_model(c.named_subelements@),
        name: match c.name {
            Some(n) => Some(n@),
            None => None,
        },
        visits_should_be_counted: c.visits_should_be_counted,
        turn_index_should_be_counted: c.turn_index_should_be_counted,
        count_at_start_only: c.count_at_start_only,
    }
}

pub open spec fn objects_model(s: Seq<RuntimeObject>) -> Seq<ObjectModel>
    decreases s,
{
    if s.len() == 0 {
        Seq::empty()
    } else {
        objects_model(s.drop_last()).push(object_model(s.last()))
    }
}

pub open spec fn named_model(s: Seq<(String, RuntimeObject)>) -> Seq<(Seq<char>, ObjectModel)>
    decreases s,
{
    if s.len() == 0 {
        Seq::empty()
    } else {
        named_model(s.drop_last()).push((s.last().0@, object_model(s.last().1)))
    }
}

impl View for RuntimeObject {
    type V = ObjectModel;

    open spec fn view(&self) -> ObjectModel {
        object_model(*self)
    }
}

impl View for Container {
    type V = ContainerModel;

    open spec fn view(&self) -> ContainerModel {
        container_model(*self)
    }
}

pub proof fn lemma_objects_model(s: Seq<RuntimeObject>)
    ensures
        objects_model(s).len() == s.len(),
        forall|i: int| 0 <= i < s.len() ==> #[trigger] objects_model(s)[i] == object_model(s[i]),
    decreases s.len(),
{
    if s.len() > 0 {
        lemma_objects_model(s.drop_last());
    }
}

pub proof fn lemma_named_model(s: Seq<(String, RuntimeObject)>)
    ensures
        named_model(s).len() == s.len(),
        forall|i: int|
            0 <= i < s.len() ==> #[trigger] named_model(s)[i] == (s[i].0@, object_model(s[i].1)),
    decreases s.len(),
{
    if s.len() > 0 {
        lemma_named_model(s.drop_last());
    }
}

/// The five choice flags packed in bits 0 to 4.
pub open spec fn choice_flags(c: ChoiceModel) -> u8 {
    ((if c.has_condition { 1u8 } else { 0u8 }) | (if c.has_start_content { 2u8 } else { 0u8 })
        | (if c.has_choice_only_content { 4u8 } else { 0u8 }) | (if c.is_invisible_default {
        8u8
    } else {
        0u8
    }) | (if c.once_only { 16u8 } else { 0u8 })) as u8
}

/// The sigil that a glue marker is written with.
pub open spec fn glue_sigil(g: Glue) -> Seq<char> {
    match g {
        Glue::Bidirectional => "<>"@,
        Glue::Left => "G<"@,
        Glue::Right => "G>"@,
    }
}

impl Glue {
    /// The sigil of the marker.
    pub fn to_string(&self) -> (r: String)
        ensures
            r@ == glue_sigil(*self),
    {
        match self {
            Glue::Bidirectional => String::from_str("<>"),
            Glue::Left => String::from_str("G<"),
            Glue::Right => String::from_str("G>"),
        }
    }
}

impl ChoicePoint {
    /// A choice point whose booleans are bits 0 to 4 of `flags`.
    pub fn new(choice_target_path: Path, flags: u8) -> (r: ChoicePoint)
        ensures
            r.choice_target_path == choice_target_path,
            r.has_condition == (flags & 1 != 0),
            r.has_start_content == (flags & 2 != 0),
            r.has_choice_only_content == (flags & 4 != 0),
            r.is_invisible_default == (flags & 8 != 0),
            r.once_only == (flags & 16 != 0),
    {
        ChoicePoint {
            has_condition: flags & 0x1 != 0,
            has_start_content: flags & 0x2 != 0,
            has_choice_only_content: flags & 0x4 != 0,
            is_invisible_default: flags & 0x8 != 0,
            once_only: flags & 0x10 != 0,
            choice_target_path,
        }
    }

    /// The booleans packed back into bits 0 to 4.
    pub fn flags(&self) -> (r: u8)
        ensures
            r == choice_flags(self@),
    {
        let condition: u8 = if self.has_condition { 0x1 } else { 0 };
        let start: u8 = if self.has_start_content { 0x2 } else { 0 };
        let choice_only: u8 = if self.has_choice_only_content { 0x4 } else { 0 };
        let invisible: u8 = if self.is_invisible_default { 0x8 } else { 0 };
        let once: u8 = if self.once_only { 0x10 } else { 0 };
        condition | start | choice_only | invisible | once
    }
}

/// Unpacking five flag bits into a choice point and packing them again gives
/// the same number.
pub proof fn lemma_choice_flags_round_trip(path: PathView, f: u8)
    requires
        f < 32,
    ensures
        choice_flags(
            ChoiceModel {
                has_condition: f & 1 != 0,
                has_start_content: f & 2 != 0,
                has_choice_only_content: f & 4 != 0,
                is_invisible_default: f & 8 != 0,
                once_only: f & 16 != 0,
                choice_target_path: path,
            },
        ) == f,
{
    assert(((if f & 1 != 0 { 1u8 } else { 0u8 }) | (if f & 2 != 0 { 2u8 } else { 0u8 }) | (if f
        & 4 != 0 { 4u8 } else { 0u8 }) | (if f & 8 != 0 { 8u8 } else { 0u8 }) | (if f & 16 != 0 {
        16u8
    } else {
        0u8
    })) == f) by (bit_vector)
        requires
            f < 32,
    ;
}

impl Divert {
    /// A standard divert: it pushes nothing and takes no external arguments.
    pub fn new(target: TargetType, is_conditional: bool) -> (r: Divert)
        ensures
            r.target == target,
            r.stack_push_type == PushPopType::NoPush,
            !r.pushes_to_stack,
            r.external_args is None,
            r.is_conditional == is_conditional,
    {
        Divert {
            target,
            stack_push_type: PushPopType::NoPush,
            pushes_to_stack: false,
            external_args: None,
            is_conditional,
        }
    }
}

/// The count flags packed in bits 0 to 2; the start-only bit alone packs to 0.
pub open spec fn count_flags_of(c: ContainerModel) -> u8 {
    let f = ((if c.visits_should_be_counted { 1u8 } else { 0u8 }) | (if c.turn_index_should_be_counted {
        2u8
    } else {
        0u8
    }) | (if c.count_at_start_only { 4u8 } else { 0u8 })) as u8;
    if f == 4 {
        0
    } else {
        f
    }
}

/// The name of an object, where it is a named container.
pub open spec fn object_name(o: ObjectModel) -> Option<Seq<char>> {
    match o {
        ObjectModel::Container(c) => c.name,
        _ => None,
    }
}

/// The position of the first object of `s` named `name`.
pub open spec fn first_named(s: Seq<ObjectModel>, name: Seq<char>, i: int) -> bool {
    0 <= i < s.len() && object_name(s[i]) == Some(name) && forall|j: int|
        0 <= j < i ==> object_name(#[trigger] s[j]) != Some(name)
}

/// The position of the first entry of `s` keyed `key`.
pub open spec fn first_keyed<V>(s: Seq<(Seq<char>, V)>, key: Seq<char>, i: int) -> bool {
    0 <= i < s.len() && s[i].0 == key && forall|j: int| 0 <= j < i ==> (#[trigger] s[j]).0 != key
}

pub open spec fn has_key<V>(s: Seq<(Seq<char>, V)>, key: Seq<char>) -> bool {
    exists|i: int| 0 <= i < s.len() && (#[trigger] s[i]).0 == key
}

impl Container {
    pub fn new() -> (r: Container)
        ensures
            r@.content.len() == 0,
            r@.named_subelements.len() == 0,
            r@.name is None,
            !r.visits_should_be_counted,
            !r.turn_index_should_be_counted,
            !r.count_at_start_only,
    {
        let r = Container {
            content: Vec::new(),
            named_subelements: Vec::new(),
            name: None,
            visits_should_be_counted: false,
            turn_index_should_be_counted: false,
            count_at_start_only: false,
        };
        assert(r.content@ =~= Seq::<RuntimeObject>::empty());
        assert(r.named_subelements@ =~= Seq::<(String, RuntimeObject)>::empty());
        r
    }

    pub fn count_flags(&self) -> (r: u8)
        ensures
            r == count_flags_of(self@),
    {
        let visits: u8 = if self.visits_should_be_counted { 0x1 } else { 0 };
        let turns: u8 = if self.turn_index_should_be_counted { 0x2 } else { 0 };
        let start_only: u8 = if self.count_at_start_only { 0x4 } else { 0 };
        let count_flags: u8 = visits | turns | start_only;
        if count_flags == 0x4 {
            0
        } else {
            count_flags
        }
    }

    /// Sets the three count flags from bits 0 to 2.
    pub fn set_count_flags(&mut self, count_flags: u8)
        ensures
            final(self).visits_should_be_counted == (count_flags & 1 != 0),
            final(self).turn_index_should_be_counted == (count_flags & 2 != 0),
            final(self).count_at_start_only == (count_flags & 4 != 0),
            final(self).content == old(self).content,
            final(self).named_subelements == old(self).named_subelements,
            final(self).name == old(self).name,
    {
        self.visits_should_be_counted = count_flags & 0x1 != 0;
        self.turn_index_should_be_counted = count_flags & 0x2 != 0;
        self.count_at_start_only = count_flags & 0x4 != 0;
    }

    pub fn add_child(&mut self, obj: RuntimeObject)
        ensures
            final(self).content@ == old(self).content@.push(obj),
            final(self).named_subelements == old(self).named_subelements,
            final(self).name == old(self).name,
            final(self).visits_should_be_counted == old(self).visits_should_be_counted,
            final(self).turn_index_should_be_counted == old(self).turn_index_should_be_counted,
            final(self).count_at_start_only == old(self).count_at_start_only,
    {
        self.content.push(obj);
    }

    /// Puts `objects` before the current content.
    pub fn prepend(&mut self, objects: Vec<RuntimeObject>)
        ensures
            final(self).content@ == objects@ + old(self).content@,
            final(self).named_subelements == old(self).named_subelements,
            final(self).name == old(self).name,
            final(self).visits_should_be_counted == old(self).visits_should_be_counted,
            final(self).turn_index_should_be_counted == old(self).turn_index_should_be_counted,
            final(self).count_at_start_only == old(self).count_at_start_only,
    {
        let mut objects = objects;
        objects.append(&mut self.content);
        self.content = objects;
    }

    /// The first object of the content that is a container named `name`.
    pub fn search_by_name(&self, name: &str) -> (r: Option<&RuntimeObject>)
        ensures
            r matches Some(o) ==> exists|i: int|
                first_named(self@.content, name@, i) && self.content@[i] == *o,
            r is None ==> forall|i: int|
                0 <= i < self@.content.len() ==> object_name(#[trigger] self@.content[i]) != Some(
                    name@,
                ),
    {
        proof {
            lemma_objects_model(self.content@);
        }
        let mut i: usize = 0;
        while i < self.content.len()
            invariant
                i <= self.content.len(),
                self@.content == objects_model(self.content@),
                self@.content.len() == self.content@.len(),
                forall|j: int| 0 <= j < self.content.len() ==> #[trigger] self@.content[j] == object_model(self.content@[j]),
                forall|j: int| 0 <= j < i ==> object_name(#[trigger] self@.content[j]) != Some(name@),
            decreases self.content.len() - i,
        {
            if let Some(other) = self.content[i].name() {
                if str_equal(name, other) {
                    assert(first_named(self@.content, name@, i as int));
                    return Some(&self.content[i]);
                }
            }
            i = i + 1;
        }
        None
    }

    /// The sub-element stored under `key`.
    pub fn named_subelement(&self, key: &str) -> (r: Option<&RuntimeObject>)
        ensures
            r matches Some(o) ==> exists|i: int|
                first_keyed(self@.named_subelements, key@, i) && self.named_subelements@[i].1
                    == *o,
            r is None ==> !has_key(self@.named_subelements, key@),
    {
        proof {
            lemma_named_model(self.named_subelements@);
        }
        let mut i: usize = 0;
        while i < self.named_subelements.len()
            invariant
                i <= self.named_subelements.len(),
                self@.named_subelements == named_model(self.named_subelements@),
                self@.named_subelements.len() == self.named_subelements@.len(),
                forall|j: int|
                    0 <= j < self.named_subelements.len() ==> #[trigger] self@.named_subelements[j]
                        == (self.named_subelements@[j].0@, object_model(
                        self.named_subelements@[j].1,
                    )),
                forall|j: int| 0 <= j < i ==> (#[trigger] self@.named_subelements[j]).0 != key@,
            decreases self.named_subelements.len() - i,
        {
            if str_equal(key, self.named_subelements[i].0.as_str()) {
                assert(first_keyed(self@.named_subelements, key@, i as int));
                return Some(&self.named_subelements[i].1);
            }
            i = i + 1;
        }
        None
    }
}

impl RuntimeObject {
    pub fn is_container(&self) -> (r: bool)
        ensures
            r == (self is Container),
    {
        match self {
            RuntimeObject::Container(_) => true,
            _ => false,
        }
    }

    pub fn as_container(&self) -> (r: Option<&Rc<Container>>)
        ensures
            self is Container <==> r is Some,
            r matches Some(c) ==> *self == RuntimeObject::Container(*c),
    {
        match self {
            RuntimeObject::Container(c) => Some(c),
            _ => None,
        }
    }

    pub fn as_value(&self) -> (r: Option<&Value>)
        ensures
            self is Value <==> r is Some,
            r matches Some(v) ==> *self == RuntimeObject::Value(*v),
    {
        match self {
            RuntimeObject::Value(v) => Some(v),
            _ => None,
        }
    }

    /// The name of a named container; other objects have none.
    pub fn name(&self) -> (r: Option<&str>)
        ensures
            r matches Some(n) ==> object_name(self@) == Some(n@),
            r is None ==> object_name(self@) is None,
    {
        match self {
            RuntimeObject::Container(c) => match &c.name {
                Some(n) => Some(n.as_str()),
                None => None,
            },
            _ => None,
        }
    }
}

} // verus!
