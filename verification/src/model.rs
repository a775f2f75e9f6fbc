//! The in-memory model of a service-definition document: services with their
//! procedures, classes and enumerations, and the closed recursive type
//! algebra that procedure signatures are written in.  The model is built once
//! per input document and never mutated; maps are kept as entry lists with
//! strictly sorted keys (see `entries`), which is what makes every listing
//! derived from them deterministic.

use vstd::prelude::*;
use crate::entries::sorted_entries;

verus! {

/// One parsed document: a map from service name to service definition.
pub struct ServiceFile {
    pub services: Vec<(String, Service)>,
}

/// A named collection of procedures, classes and enumerations sharing one
/// namespace.
pub struct Service {
    pub id: u32,
    pub documentation: String,
    pub procedures: Vec<(String, Procedure)>,
    pub classes: Vec<(String, Class)>,
    pub enumerations: Vec<(String, Enum)>,
}

/// A callable operation: an ordered parameter list and an optional return
/// type, which may be declared nullable.
pub struct Procedure {
    pub id: u32,
    pub documentation: String,
    pub parameters: Vec<ProcParameter>,
    pub return_type: Option<Type>,
    pub return_is_nullable: bool,
}

/// A named marker type; procedures reference it and the partitioner detects
/// methods against it.
pub struct Class {
    pub documentation: String,
}

/// One named, typed procedure parameter.
pub struct ProcParameter {
    pub name: String,
    pub ty: Type,
}

/// The closed type algebra: six primitives, four containers, and symbolic
/// references to classes and enumerations owned by some service.  List and
/// Set must carry exactly one child type and Dictionary exactly two (key,
/// then value); the `types` vectors still admit any arity, and the resolver
/// rejects a violation as a structural error.
pub enum Type {
    Bool,
    SInt32,
    UInt32,
    Double,
    Float,
    String,
    List { types: Vec<Type> },
    Tuple { types: Vec<Type> },
    Class { service: String, name: String },
    Enumeration { service: String, name: String },
    Dictionary { types: Vec<Type> },
    SetOf { types: Vec<Type> },
}

/// An enumeration: named values carried through to the generated code.
#[derive(Debug, PartialEq, Eq)]
pub struct Enum {
    pub documentation: String,
    pub values: Vec<EnumValue>,
}

/// One enumeration member.  Names are unique within the enumeration; the
/// numeric values need not be.
#[derive(Debug, PartialEq, Eq)]
pub struct EnumValue {
    pub name: String,
    pub value: u32,
}

/// The view of one enumeration member.
pub struct EnumValueV {
    pub name: Seq<char>,
    pub value: u32,
}

impl View for EnumValue {
    type V = EnumValueV;

    open spec fn view(&self) -> EnumValueV {
        EnumValueV { name: self.name@, value: self.value }
    }
}

/// The view of an enumeration.
pub struct EnumV {
    pub documentation: Seq<char>,
    pub values: Seq<EnumValueV>,
}

impl View for Enum {
    type V = EnumV;

    open spec fn view(&self) -> EnumV {
        EnumV {
            documentation: self.documentation@,
            values: self.values@.map_values(|v: EnumValue| v@),
        }
    }
}

impl Service {
    /// A well-formed service keeps each of its three maps strictly sorted by
    /// key, which also makes the names unique.
    pub open spec fn wf(self) -> bool {
        &&& sorted_entries(self.procedures@)
        &&& sorted_entries(self.classes@)
        &&& sorted_entries(self.enumerations@)
    }
}

impl ServiceFile {
    /// A well-formed document: sorted service map, each service well-formed.
    pub open spec fn wf(self) -> bool {
        &&& sorted_entries(self.services@)
        &&& forall|i: int| 0 <= i < self.services@.len() ==> (#[trigger] self.services@[i]).1.wf()
    }
}

} // verus!
