//! Assembly of the per-service rendering context: everything the external
//! template renderer needs to emit one service's source file.  The context
//! carries the service's name, the module name its output artifact is named
//! by, the sorted dependency listing, the partitioned classes and free
//! procedures, and the declared enumerations unchanged.  Every part of it is
//! a function of the input service alone, which is what makes repeated runs
//! over unchanged input byte-identical.

use vstd::prelude::*;
use crate::entries::entries_view;
use crate::model::{Enum, EnumValue, Service, ServiceFile};
use crate::partition::{
    classes_v, free_procs_v, partition_error, separate_procedures_from_methods, GenClass,
    GenProcedure,
};
use crate::resolve::{snake_of, to_snake_case, TypeError};
use crate::strkit::{lemma_sorted_same_set, strictly_sorted, views_of};

verus! {

/// One service's rendering context, fully assembled.
pub struct ServiceContext {
    pub service_name: String,
    pub module_name: String,
    pub dependencies: Vec<String>,
    pub classes: Vec<(String, GenClass)>,
    pub procedures: Vec<(String, GenProcedure)>,
    pub enumerations: Vec<(String, Enum)>,
}

/// What it means for a context to belong to a service: each part equals the
/// specified function of the service.  This predicate is total in the input,
/// so any two contexts satisfying it agree (see
/// `lemma_context_deterministic`).
pub open spec fn is_context_for(c: ServiceContext, name: Seq<char>, s: Service) -> bool {
    &&& c.service_name@ == name
    &&& c.module_name@ == snake_of(name)
    &&& strictly_sorted(views_of(c.dependencies@))
    &&& views_of(c.dependencies@).to_set() == s.deps(name)
    &&& entries_view(c.classes@) == classes_v(s.classes@, s.procedures@, s.classes@.len() as int, name)
    &&& entries_view(c.procedures@) == free_procs_v(
        s.procedures@,
        s.classes@,
        s.procedures@.len() as int,
        name,
    )
    &&& entries_view(c.enumerations@) == entries_view(s.enumerations@)
}

/// Copy one enumeration member; the copy's view equals the original's.
fn copy_enum_value(v: &EnumValue) -> (r: EnumValue)
    ensures
        r@ == v@,
{
    EnumValue { name: v.name.clone(), value: v.value }
}

/// Copy an enumeration; the copy's view equals the original's.
fn copy_enum(e: &Enum) -> (r: Enum)
    ensures
        r@ == e@,
{
    let mut values: Vec<EnumValue> = Vec::new();
    let mut i: usize = 0;
    while i < e.values.len()
        invariant
            i <= e.values@.len(),
            values@.len() == i,
            forall|j: int| 0 <= j < i ==> values@[j]@ == e.values@[j]@,
        decreases e.values@.len() - i,
    {
        values.push(copy_enum_value(&e.values[i]));
        i += 1;
    }
    let r = Enum { documentation: e.documentation.clone(), values };
    proof {
        assert(r@.values =~= e@.values);
    }
    r
}

/// Copy the enumeration map of a service; the copy's view equals the
/// original's.
fn copy_enums(src: &Vec<(String, Enum)>) -> (r: Vec<(String, Enum)>)
    ensures
        entries_view(r@) == entries_view(src@),
{
    let mut out: Vec<(String, Enum)> = Vec::new();
    let mut i: usize = 0;
    while i < src.len()
        invariant
            i <= src@.len(),
            out@.len() == i,
            forall|j: int| 0 <= j < i ==> out@[j].0@ == src@[j].0@ && out@[j].1@ == src@[j].1@,
        decreases src@.len() - i,
    {
        let entry = &src[i];
        out.push((entry.0.clone(), copy_enum(&entry.1)));
        i += 1;
    }
    proof {
        assert(entries_view(out@) =~= entries_view(src@));
    }
    out
}

/// Assemble the rendering context for one service: partition its procedures,
/// extract its dependency listing, name its module, and pass its
/// enumerations through — or report the first structural fault found, which
/// aborts generation for the whole service.
pub fn build_service_context(service_name: &String, service: &Service) -> (r: Result<
    ServiceContext,
    TypeError,
>)
    ensures
        match r {
            Ok(c) => partition_error(*service) is None && is_context_for(
                c,
                service_name@,
                *service,
            ),
            Err(e) => partition_error(*service) == Some(e),
        },
{
    match separate_procedures_from_methods(service, service_name.as_str()) {
        Err(e) => Err(e),
        Ok(parts) => {
            let (classes, procedures) = parts;
            let dependencies = service.dependencies(service_name.as_str());
            Ok(
                ServiceContext {
                    service_name: service_name.clone(),
                    module_name: to_snake_case(service_name.as_str()),
                    dependencies,
                    classes,
                    procedures,
                    enumerations: copy_enums(&service.enumerations),
                },
            )
        },
    }
}

impl ServiceFile {
    /// The module names of all services, in map order: the index artifact
    /// lists exactly these, and each service's output file is named by its
    /// own entry.
    pub fn module_index(&self) -> (r: Vec<String>)
        ensures
            r@.len() == self.services@.len(),
            forall|i: int| 0 <= i < r@.len() ==> r@[i]@ == snake_of(self.services@[i].0@),
    {
        let mut out: Vec<String> = Vec::new();
        let mut i: usize = 0;
        while i < self.services.len()
            invariant
                i <= self.services@.len(),
                out@.len() == i,
                forall|j: int| 0 <= j < i ==> out@[j]@ == snake_of(self.services@[j].0@),
            decreases self.services@.len() - i,
        {
            out.push(to_snake_case(self.services[i].0.as_str()));
            i += 1;
        }
        out
    }
}

/// Determinism: two contexts assembled for the same service agree in every
/// emitted respect — the same dependency listing in the same order, the same
/// classes, methods and free procedures in the same order, the same
/// enumerations.  Rendering a context is a pure function of these parts, so
/// repeated runs over unchanged input produce byte-identical text.
pub proof fn lemma_context_deterministic(
    name: Seq<char>,
    s: Service,
    c1: ServiceContext,
    c2: ServiceContext,
)
    requires
        is_context_for(c1, name, s),
        is_context_for(c2, name, s),
    ensures
        c1.service_name@ == c2.service_name@,
        c1.module_name@ == c2.module_name@,
        views_of(c1.dependencies@) == views_of(c2.dependencies@),
        entries_view(c1.classes@) == entries_view(c2.classes@),
        entries_view(c1.procedures@) == entries_view(c2.procedures@),
        entries_view(c1.enumerations@) == entries_view(c2.enumerations@),
{
    lemma_sorted_same_set(views_of(c1.dependencies@), views_of(c2.dependencies@));
}

} // verus!
