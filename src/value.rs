use vstd::prelude::*;
use vstd::string::*;

use crate::path::{Path, PathView};

verus! {

/// A literal of the graph. A float keeps the decimal text it was written with.
#[derive(Debug, Clone, PartialEq)]
pub enum Value {
    Int(i32),
    Float(String),
    String(String),
    DivertTarget { target_path: Path },
    VariablePointer { name: String, context_index: i32 },
}

pub enum ValueModel {
    Int(int),
    Float(Seq<char>),
    Str(Seq<char>),
    DivertTarget(PathView),
    VariablePointer(Seq<char>, int),
}

impl View for Value {
    type V = ValueModel;

    open spec fn view(&self) -> ValueModel {
        match self {
            Value::Int(i) => ValueModel::Int(*i as int),
            Value::Float(t) => ValueModel::Float(t@),
            Value::String(s) => ValueModel::Str(s@),
            Value::DivertTarget { target_path } => ValueModel::DivertTarget(target_path@),
            Value::VariablePointer { name, context_index } => ValueModel::VariablePointer(
                name@,
                *context_index as int,
            ),
        }
    }
}

impl Value {
    /// A copy of the value.
    pub fn duplicate(&self) -> (r: Value)
        ensures
            r@ == self@,
    {
        match self {
            Value::Int(i) => Value::Int(*i),
            Value::Float(t) => Value::Float(String::from_str(t.as_str())),
            Value::String(s) => Value::String(String::from_str(s.as_str())),
            Value::DivertTarget { target_path } => Value::DivertTarget {
                target_path: target_path.duplicate(),
            },
            Value::VariablePointer { name, context_index } => Value::VariablePointer {
                name: String::from_str(name.as_str()),
                context_index: *context_index,
            },
        }
    }

    pub fn as_int(&self) -> (r: Option<i32>)
        ensures
            r == (match self {
                Value::Int(i) => Some(*i),
                _ => None::<i32>,
            }),
    {
        match self {
            Value::Int(i) => Some(*i),
            _ => None,
        }
    }

    /// The decimal text of a float.
    pub fn as_float(&self) -> (r: Option<&str>)
        ensures
            self is Float <==> r is Some,
            r matches Some(t) ==> self@ == ValueModel::Float(t@),
    {
        match self {
            Value::Float(t) => Some(t.as_str()),
            _ => None,
        }
    }

    pub fn as_string(&self) -> (r: Option<&str>)
        ensures
            self is String <==> r is Some,
            r matches Some(t) ==> self@ == ValueModel::Str(t@),
    {
        match self {
            Value::String(s) => Some(s.as_str()),
            _ => None,
        }
    }
}

} // verus!
