use std::rc::Rc;
use vstd::prelude::*;

use crate::decode::{
    container_outcome, decode_all, decode_container, decode_container_exec, decode_json,
    decode_node, int_field, object_outcome, schema, int_field_exec, ErrorModel, DecodeError,
};
use crate::json::{field, get_field, json_parse, json_parse_bytes, parse_json, parse_json_bytes, Json, JsonSyntaxError};
use crate::object::{Container, ContainerModel, RuntimeObject, objects_model, ObjectModel};

verus! {

/// The newest version of the graph format that this engine reads.
pub const INK_VERSION_CURRENT: u32 = 21;

/// A decoded story: its root container and the format version it was
/// written in. It does not change after decoding.
#[derive(Debug, Clone, PartialEq)]
pub struct RuntimeGraph {
    pub ink_version: u32,
    pub root_container: Rc<Container>,
}

pub struct GraphModel {
    pub ink_version: u32,
    pub root: ContainerModel,
}

impl View for RuntimeGraph {
    type V = GraphModel;

    open spec fn view(&self) -> GraphModel {
        GraphModel { ink_version: self.ink_version, root: (*self.root_container)@ }
    }
}

pub open spec fn missing_field() -> Seq<char> {
    "missing field"@
}

/// A document: `inkVersion`, `root` and an empty `listDefs`, read in this order.
pub open spec fn decode_graph(j: Json) -> Result<GraphModel, ErrorModel> {
    match j {
        Json::Object(fields) => {
            let fields = fields@;
            let version = if field(fields, "inkVersion"@) is None {
                Err(ErrorModel::Schema("inkVersion"@, missing_field()))
            } else {
                int_field(fields, "inkVersion"@, 0, u32::MAX as int, 0)
            };
            match version {
                Err(e) => Err(e),
                Ok(v) => if v > INK_VERSION_CURRENT {
                    Err(ErrorModel::UnsupportedVersion(v as u32))
                } else {
                    let root = match field(fields, "root"@) {
                        None => Err(ErrorModel::Schema("root"@, missing_field())),
                        Some(Json::Array(items)) => decode_container(items@),
                        Some(_) => Err(ErrorModel::Schema("root"@, "expected a container"@)),
                    };
                    match root {
                        Err(e) => Err(e),
                        Ok(root) => match field(fields, "listDefs"@) {
                            None => Err(ErrorModel::Schema("listDefs"@, missing_field())),
                            Some(Json::Object(defs)) => if defs.len() == 0 {
                                Ok(GraphModel { ink_version: v as u32, root })
                            } else {
                                Err(ErrorModel::Schema("listDefs"@, "lists are not supported"@))
                            },
                            Some(_) => Err(ErrorModel::Schema("listDefs"@, "expected an object"@)),
                        },
                    }
                },
            }
        },
        _ => Err(ErrorModel::Schema("document"@, "expected an object"@)),
    }
}

pub open spec fn graph_outcome(r: Result<RuntimeGraph, DecodeError>) -> Result<GraphModel, ErrorModel> {
    match r {
        Ok(g) => Ok(g@),
        Err(e) => Err(e@),
    }
}

pub open spec fn syntax_model(e: JsonSyntaxError) -> ErrorModel {
    ErrorModel::Syntax(e.line as nat, e.column as nat, e.message@)
}

fn syntax_error(e: JsonSyntaxError) -> (r: DecodeError)
    ensures
        r@ == syntax_model(e),
{
    DecodeError::Syntax { line: e.line, column: e.column, message: e.message }
}

/// Decodes a document already read as JSON.
pub fn decode_graph_json(j: &Json) -> (r: Result<RuntimeGraph, DecodeError>)
    ensures
        graph_outcome(r) == decode_graph(*j),
{
    let fields = match j {
        Json::Object(fields) => fields,
        _ => return Err(schema("document", "expected an object")),
    };
    if get_field(fields, "inkVersion").is_none() {
        return Err(schema("inkVersion", "missing field"));
    }
    let v = match int_field_exec(fields, "inkVersion", 0, u32::MAX as i64, 0) {
        Ok(v) => v,
        Err(e) => return Err(e),
    };
    if v > INK_VERSION_CURRENT as i64 {
        return Err(DecodeError::UnsupportedVersion(v as u32));
    }
    let root = match get_field(fields, "root") {
        None => return Err(schema("root", "missing field")),
        Some(Json::Array(items)) => match decode_container_exec(items) {
            Ok(c) => c,
            Err(e) => return Err(e),
        },
        Some(_) => return Err(schema("root", "expected a container")),
    };
    match get_field(fields, "listDefs") {
        None => Err(schema("listDefs", "missing field")),
        Some(Json::Object(defs)) => if defs.len() == 0 {
            Ok(RuntimeGraph { ink_version: v as u32, root_container: Rc::new(root) })
        } else {
            Err(schema("listDefs", "lists are not supported"))
        },
        Some(_) => Err(schema("listDefs", "expected an object")),
    }
}

/// The outcome of decoding a text: its syntax error, or what its document decodes to.
pub open spec fn decode_graph_text(parsed: Result<Json, JsonSyntaxError>) -> Result<GraphModel, ErrorModel> {
    match parsed {
        Ok(j) => decode_graph(j),
        Err(e) => Err(syntax_model(e)),
    }
}

impl RuntimeGraph {
    /// Decodes a story from JSON text.
    pub fn from_str(text: &str) -> (r: Result<RuntimeGraph, DecodeError>)
        ensures
            graph_outcome(r) == decode_graph_text(json_parse(text@)),
    {
        match parse_json(text) {
            Ok(j) => decode_graph_json(&j),
            Err(e) => Err(syntax_error(e)),
        }
    }

    /// Decodes a story from UTF-8 JSON bytes.
    pub fn from_slice(bytes: &[u8]) -> (r: Result<RuntimeGraph, DecodeError>)
        ensures
            graph_outcome(r) == decode_graph_text(json_parse_bytes(bytes@)),
    {
        match parse_json_bytes(bytes) {
            Ok(j) => decode_graph_json(&j),
            Err(e) => Err(syntax_error(e)),
        }
    }

    pub fn root(&self) -> (r: &Container)
        ensures
            *r == *self.root_container,
    {
        &self.root_container
    }

    pub fn version(&self) -> (r: u32)
        ensures
            r == self.ink_version,
    {
        self.ink_version
    }
}

/// Decodes one runtime object from JSON text.
pub fn object_from_str(text: &str) -> (r: Result<RuntimeObject, DecodeError>)
    ensures
        match json_parse(text@) {
            Ok(j) => object_outcome(r) == decode_json(j),
            Err(e) => object_outcome(r) == Err::<ObjectModel, ErrorModel>(syntax_model(e)),
        },
{
    match parse_json(text) {
        Ok(j) => decode_node(&j, None),
        Err(e) => Err(syntax_error(e)),
    }
}

/// Decodes one runtime object from a JSON document.
pub fn decode_json_object(j: &Json) -> (r: Result<RuntimeObject, DecodeError>)
    ensures
        object_outcome(r) == decode_json(*j),
{
    decode_node(j, None)
}

/// Decodes a container from the JSON text of its array.
pub fn container_from_str(text: &str) -> (r: Result<Container, DecodeError>)
    ensures
        match json_parse(text@) {
            Ok(Json::Array(items)) => container_outcome(r) == decode_container(items@),
            Ok(_) => container_outcome(r) == Err::<ContainerModel, ErrorModel>(
                ErrorModel::Schema("container"@, "expected an array"@),
            ),
            Err(e) => container_outcome(r) == Err::<ContainerModel, ErrorModel>(syntax_model(e)),
        },
{
    match parse_json(text) {
        Ok(Json::Array(items)) => decode_container_exec(&items),
        Ok(_) => Err(schema("container", "expected an array")),
        Err(e) => Err(syntax_error(e)),
    }
}

/// Decodes a JSON array whose every element is a runtime object.
pub fn objects_from_str(text: &str) -> (r: Result<Vec<RuntimeObject>, DecodeError>)
    ensures
        match json_parse(text@) {
            Ok(Json::Array(items)) => match r {
                Ok(v) => decode_all(items@) == Ok::<Seq<ObjectModel>, ErrorModel>(objects_model(v@)),
                Err(e) => decode_all(items@) == Err::<Seq<ObjectModel>, ErrorModel>(e@),
            },
            Ok(_) => r matches Err(e) && e@ == ErrorModel::Schema("objects"@, "expected an array"@),
            Err(e) => r matches Err(x) && x@ == syntax_model(e),
        },
{
    match parse_json(text) {
        Ok(Json::Array(items)) => crate::decode::decode_each(&items),
        Ok(_) => Err(schema("objects", "expected an array")),
        Err(e) => Err(syntax_error(e)),
    }
}

} // verus!
