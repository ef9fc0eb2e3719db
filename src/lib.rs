use vstd::prelude::*;

pub mod decimal;
pub mod decode;
pub mod encode;
pub mod graph;
pub mod holder;
pub mod json;
pub mod object;
pub mod path;
pub mod story;
pub mod value;

pub use decode::DecodeError;
pub use graph::{
    container_from_str, decode_json_object, object_from_str, objects_from_str, RuntimeGraph,
};
pub use object::{
    ChoicePoint, Container, ControlCommand, Divert, Glue, NativeFunctionCall, PushPopType,
    ReadCount, RuntimeObject, Tag, TargetType, VariableAssignment, VariableReference,
};
pub use path::{Path, PathComponent};
pub use story::{ExternalCall, Flow, RuntimeError, StepResult, Story};
pub use value::Value;

verus! {

} // verus!
