//! The procedure partitioner: classifies each procedure of a service as a
//! method of one of the service's declared classes or as a free procedure,
//! and produces normalized signatures for the generated code.  The
//! classification is a naming convention: a procedure whose name splits at
//! its first underscore into a declared class name and a suffix is a method
//! of that class, named by the suffix, with its first declared parameter (the
//! implicit receiver) discarded.  Everything else stays a free procedure,
//! untouched.

use vstd::prelude::*;
use crate::entries::{entries_view, has_key};
use crate::model::{Class, Procedure, ProcParameter, Service, Type};
use crate::resolve::{
    arity_error, is_class_ref, snake_of, to_snake_case, type_expr, TypeError,
};
use crate::strkit::str_eq;

verus! {

/// One normalized parameter: the case-converted identifier and the resolved
/// Rust type expression.
#[derive(Debug, PartialEq, Eq)]
pub struct GenProcParameter {
    pub name: String,
    pub ty: String,
}

/// The view of a normalized parameter.
pub struct GenProcParameterV {
    pub name: Seq<char>,
    pub ty: Seq<char>,
}

impl View for GenProcParameter {
    type V = GenProcParameterV;

    open spec fn view(&self) -> GenProcParameterV {
        GenProcParameterV { name: self.name@, ty: self.ty@ }
    }
}

/// One normalized signature: the declared remote name, the generated
/// identifier, the documentation unchanged, the normalized parameters in
/// declared order, and the resolved return type description.
#[derive(Debug, PartialEq, Eq)]
pub struct GenProcedure {
    pub rpc_name: String,
    pub name: String,
    pub documentation: String,
    pub parameters: Vec<GenProcParameter>,
    pub return_type: String,
    pub return_is_class: bool,
    pub return_is_nullable: bool,
}

/// The view of a normalized signature.
pub struct GenProcedureV {
    pub rpc_name: Seq<char>,
    pub name: Seq<char>,
    pub documentation: Seq<char>,
    pub parameters: Seq<GenProcParameterV>,
    pub return_type: Seq<char>,
    pub return_is_class: bool,
    pub return_is_nullable: bool,
}

/// The views of a list of normalized parameters.
pub open spec fn parameters_view(ps: Seq<GenProcParameter>) -> Seq<GenProcParameterV> {
    ps.map_values(|q: GenProcParameter| q@)
}

impl View for GenProcedure {
    type V = GenProcedureV;

    open spec fn view(&self) -> GenProcedureV {
        GenProcedureV {
            rpc_name: self.rpc_name@,
            name: self.name@,
            documentation: self.documentation@,
            parameters: parameters_view(self.parameters@),
            return_type: self.return_type@,
            return_is_class: self.return_is_class,
            return_is_nullable: self.return_is_nullable,
        }
    }
}

/// A class that owns at least one method: its documentation and its methods,
/// keyed by the declared method name.
#[derive(Debug, PartialEq, Eq)]
pub struct GenClass {
    pub documentation: String,
    pub methods: Vec<(String, GenProcedure)>,
}

/// The view of a partitioned class.
pub struct GenClassV {
    pub documentation: Seq<char>,
    pub methods: Seq<(Seq<char>, GenProcedureV)>,
}

impl View for GenClass {
    type V = GenClassV;

    open spec fn view(&self) -> GenClassV {
        GenClassV { documentation: self.documentation@, methods: entries_view(self.methods@) }
    }
}

/// The position of the first underscore at or after `i`, if any.
pub open spec fn underscore_at(n: Seq<char>, i: int) -> Option<int>
    decreases n.len() - i,
{
    if i < 0 || i >= n.len() {
        None
    } else if n[i] == '_' {
        Some(i)
    } else {
        underscore_at(n, i + 1)
    }
}

/// Where a procedure name splits: at its first underscore.
pub open spec fn split_pos(n: Seq<char>) -> Option<int> {
    underscore_at(n, 0)
}

/// The naming convention: a name that splits into a declared class name and
/// a suffix marks a method of that class.
pub open spec fn is_method_name(n: Seq<char>, classes: Seq<(String, Class)>) -> bool {
    split_pos(n) matches Some(p) && has_key(classes, n.take(p))
}

/// Split a name at its first underscore into prefix and suffix.
fn split_on_underscore(n: &str) -> (r: Option<(String, String)>)
    ensures
        match r {
            Some(parts) => {
                &&& split_pos(n@) matches Some(p) && parts.0@ == n@.take(p) && parts.1@ == n@.skip(
                    p + 1,
                )
            },
            None => split_pos(n@) is None,
        },
{
    let len = n.unicode_len();
    let mut i: usize = 0;
    loop
        invariant
            i <= len,
            len == n@.len(),
            underscore_at(n@, 0) == underscore_at(n@, i as int),
        ensures
            len == n@.len(),
            i <= len,
            i < len ==> underscore_at(n@, 0) == Some(i as int) && n@[i as int] == '_',
            i == len ==> underscore_at(n@, 0) is None,
        decreases len - i,
    {
        if i >= len {
            break ;
        }
        if n.get_char(i) == '_' {
            break ;
        }
        i += 1;
    }
    if i == len {
        return None;
    }
    let prefix = String::from_str(n.substring_char(0, i));
    let suffix = String::from_str(n.substring_char(i + 1, len));
    proof {
        assert(prefix@ =~= n@.take(i as int));
        assert(suffix@ =~= n@.skip(i as int + 1));
    }
    Some((prefix, suffix))
}

/// The normalized view of one parameter.
pub open spec fn gen_param_v(p: ProcParameter, cur: Seq<char>) -> GenProcParameterV {
    GenProcParameterV { name: snake_of(p.name@), ty: type_expr(p.ty, cur) }
}

/// The normalized views of a parameter list, in order.
pub open spec fn gen_params_v(ps: Seq<ProcParameter>, cur: Seq<char>) -> Seq<GenProcParameterV> {
    ps.map_values(|p: ProcParameter| gen_param_v(p, cur))
}

/// A method's parameter list: the declared list with the first parameter,
/// the implicit receiver, discarded.
pub open spec fn method_params(ps: Seq<ProcParameter>) -> Seq<ProcParameter> {
    if ps.len() == 0 {
        ps
    } else {
        ps.drop_first()
    }
}

/// The resolved return type expression; an absent return value is the unit
/// expression.
pub open spec fn gen_return_type(rt: Option<Type>, cur: Seq<char>) -> Seq<char> {
    match rt {
        Some(t) => type_expr(t, cur),
        None => "()"@,
    }
}

/// Whether a present return value resolves to a class reference: generated
/// code passes such values by reference.
pub open spec fn gen_return_is_class(rt: Option<Type>) -> bool {
    rt matches Some(t) && is_class_ref(t)
}

/// The full normalized view of a signature, given the declared procedure
/// name, the name the generated identifier derives from, and the parameter
/// list after receiver handling.
pub open spec fn gen_proc_v(
    rpc: Seq<char>,
    declared: Seq<char>,
    p: Procedure,
    params: Seq<ProcParameter>,
    cur: Seq<char>,
) -> GenProcedureV {
    GenProcedureV {
        rpc_name: rpc,
        name: snake_of(declared),
        documentation: p.documentation@,
        parameters: gen_params_v(params, cur),
        return_type: gen_return_type(p.return_type, cur),
        return_is_class: gen_return_is_class(p.return_type),
        return_is_nullable: p.return_is_nullable,
    }
}

/// The first structural fault among the parameters at positions `i` and up.
pub open spec fn param_error_from(ps: Seq<ProcParameter>, i: int) -> Option<TypeError>
    decreases ps.len() - i,
{
    if i < 0 || i >= ps.len() {
        None
    } else if arity_error(ps[i].ty) is Some {
        arity_error(ps[i].ty)
    } else {
        param_error_from(ps, i + 1)
    }
}

/// The first structural fault in one signature: parameters first (skipping
/// the receiver of a method), then the return type.
pub open spec fn sig_error(p: Procedure, start: int) -> Option<TypeError> {
    if param_error_from(p.parameters@, start) is Some {
        param_error_from(p.parameters@, start)
    } else {
        match p.return_type {
            Some(t) => arity_error(t),
            None => None,
        }
    }
}

/// The first structural fault in one named procedure, classified against the
/// declared classes.
pub open spec fn proc_error(nm: Seq<char>, p: Procedure, classes: Seq<(String, Class)>) -> Option<
    TypeError,
> {
    sig_error(p, if is_method_name(nm, classes) { 1 } else { 0 })
}

/// The first structural fault among the procedures at positions `i` and up.
pub open spec fn procs_error_from(
    procs: Seq<(String, Procedure)>,
    classes: Seq<(String, Class)>,
    i: int,
) -> Option<TypeError>
    decreases procs.len() - i,
{
    if i < 0 || i >= procs.len() {
        None
    } else if proc_error(procs[i].0@, procs[i].1, classes) is Some {
        proc_error(procs[i].0@, procs[i].1, classes)
    } else {
        procs_error_from(procs, classes, i + 1)
    }
}

/// The first structural fault anywhere in a service's procedures, scanning
/// them in map order.
pub open spec fn partition_error(s: Service) -> Option<TypeError> {
    procs_error_from(s.procedures@, s.classes@, 0)
}

/// A clean scan stays clean at every later position.
proof fn lemma_param_error_none(ps: Seq<ProcParameter>, start: int, j: int)
    requires
        param_error_from(ps, start) is None,
        0 <= start <= j < ps.len(),
    ensures
        arity_error(ps[j].ty) is None,
    decreases j - start,
{
    if start < j {
        lemma_param_error_none(ps, start + 1, j);
    }
}

/// A clean service has a clean signature at every position.
proof fn lemma_procs_error_none(
    procs: Seq<(String, Procedure)>,
    classes: Seq<(String, Class)>,
    i: int,
)
    requires
        procs_error_from(procs, classes, 0) is None,
        0 <= i < procs.len(),
    ensures
        proc_error(procs[i].0@, procs[i].1, classes) is None,
{
    lemma_procs_error_none_from(procs, classes, 0, i);
}

proof fn lemma_procs_error_none_from(
    procs: Seq<(String, Procedure)>,
    classes: Seq<(String, Class)>,
    start: int,
    i: int,
)
    requires
        procs_error_from(procs, classes, start) is None,
        0 <= start <= i < procs.len(),
    ensures
        proc_error(procs[i].0@, procs[i].1, classes) is None,
    decreases i - start,
{
    if start < i {
        lemma_procs_error_none_from(procs, classes, start + 1, i);
    }
}

/// Build one normalized signature: case-convert each parameter name, resolve
/// each parameter type and the return type, and record nullability — or
/// report the first structural fault, parameters before return type.
fn build_signature(
    rpc_name: &String,
    declared: &str,
    p: &Procedure,
    skip_receiver: bool,
    current_service: &str,
) -> (r: Result<GenProcedure, TypeError>)
    ensures
        match r {
            Ok(g) => {
                &&& sig_error(*p, if skip_receiver { 1int } else { 0int }) is None
                &&& g@ == gen_proc_v(
                    rpc_name@,
                    declared@,
                    *p,
                    if skip_receiver {
                        method_params(p.parameters@)
                    } else {
                        p.parameters@
                    },
                    current_service@,
                )
            },
            Err(e) => sig_error(*p, if skip_receiver { 1int } else { 0int }) == Some(e),
        },
{
    let ghost cur = current_service@;
    let ghost start: int = if skip_receiver { 1int } else { 0int };
    let ghost target = if skip_receiver {
        method_params(p.parameters@)
    } else {
        p.parameters@
    };
    let plen = p.parameters.len();
    // The receiver is skipped by starting past it; a method with no declared
    // parameters at all has nothing to skip.
    let mut j: usize = if skip_receiver && plen > 0 {
        1
    } else {
        0
    };
    let ghost jstart = j as int;
    proof {
        assert(target =~= p.parameters@.skip(jstart));
        assert(parameters_view(Seq::<GenProcParameter>::empty()) =~= Seq::<
            GenProcParameterV,
        >::empty());
    }
    let mut parameters: Vec<GenProcParameter> = Vec::new();
    loop
        invariant
            jstart <= j <= plen,
            plen == p.parameters@.len(),
            0 <= jstart <= 1,
            start == if skip_receiver { 1int } else { 0int },
            param_error_from(p.parameters@, start) == param_error_from(p.parameters@, j as int),
            parameters@.len() == j as int - jstart,
            forall|k: int|
                0 <= k < parameters@.len() ==> parameters_view(parameters@)[k] == gen_param_v(
                    p.parameters@[jstart + k],
                    cur,
                ),
            cur == current_service@,
        ensures
            j == plen,
            plen == p.parameters@.len(),
            param_error_from(p.parameters@, start) is None,
            parameters@.len() == plen - jstart,
            forall|k: int|
                0 <= k < parameters@.len() ==> parameters_view(parameters@)[k] == gen_param_v(
                    p.parameters@[jstart + k],
                    cur,
                ),
        decreases plen - j,
    {
        if j >= plen {
            break ;
        }
        let param = &p.parameters[j];
        match param.ty.to_rust_type(current_service) {
            Err(e) => {
                return Err(e);
            },
            Ok(res) => {
                let gp = GenProcParameter { name: to_snake_case(param.name.as_str()), ty: res.name };
                proof {
                    assert(gp@ == gen_param_v(p.parameters@[j as int], cur));
                }
                let ghost before = parameters@;
                parameters.push(gp);
                proof {
                    assert forall|k: int| 0 <= k < parameters@.len() implies parameters_view(
                        parameters@,
                    )[k] == gen_param_v(p.parameters@[jstart + k], cur) by {
                        if k < before.len() {
                            assert(parameters@[k] == before[k]);
                            assert(parameters_view(before)[k] == gen_param_v(
                                p.parameters@[jstart + k],
                                cur,
                            ));
                        } else {
                            assert(parameters@[k] == gp);
                        }
                    }
                }
            },
        }
        j += 1;
    }
    let (return_type, return_is_class) = match &p.return_type {
        Some(rt) => match rt.to_rust_type(current_service) {
            Err(e) => {
                return Err(e);
            },
            Ok(res) => (res.name, res.is_class),
        },
        None => (String::from_str("()"), false),
    };
    let g = GenProcedure {
        rpc_name: rpc_name.clone(),
        name: to_snake_case(declared),
        documentation: p.documentation.clone(),
        parameters,
        return_type,
        return_is_class,
        return_is_nullable: p.return_is_nullable,
    };
    proof {
        let gv = gen_proc_v(rpc_name@, declared@, *p, target, cur);
        assert(g@.parameters =~= gv.parameters) by {
            assert(target =~= p.parameters@.skip(jstart));
            assert forall|k: int| 0 <= k < target.len() implies gen_params_v(target, cur)[k]
                == gen_param_v(p.parameters@[jstart + k], cur) by {
                assert(target[k] == p.parameters@[jstart + k]);
            }
        }
        assert(g@ == gv);
    }
    Ok(g)
}

/// The free procedures among the first `n` of the procedure map, in order:
/// each one that the naming convention does not claim as a method, under its
/// full declared name, with its full parameter list.
pub open spec fn free_procs_v(
    procs: Seq<(String, Procedure)>,
    classes: Seq<(String, Class)>,
    n: int,
    cur: Seq<char>,
) -> Seq<(Seq<char>, GenProcedureV)>
    decreases n,
{
    if n <= 0 || n > procs.len() {
        Seq::empty()
    } else {
        let rest = free_procs_v(procs, classes, n - 1, cur);
        let nm = procs[n - 1].0@;
        let p = procs[n - 1].1;
        if is_method_name(nm, classes) {
            rest
        } else {
            rest.push((nm, gen_proc_v(nm, nm, p, p.parameters@, cur)))
        }
    }
}

/// The methods claimed by one class among the first `n` procedures, in
/// order: each procedure whose name splits into this class's name and a
/// suffix, keyed by the suffix, with the receiver parameter discarded.
pub open spec fn class_methods_v(
    procs: Seq<(String, Procedure)>,
    cname: Seq<char>,
    n: int,
    cur: Seq<char>,
) -> Seq<(Seq<char>, GenProcedureV)>
    decreases n,
{
    if n <= 0 || n > procs.len() {
        Seq::empty()
    } else {
        let rest = class_methods_v(procs, cname, n - 1, cur);
        let nm = procs[n - 1].0@;
        let p = procs[n - 1].1;
        match split_pos(nm) {
            Some(pos) => if nm.take(pos) == cname {
                rest.push(
                    (
                        nm.skip(pos + 1),
                        gen_proc_v(nm, nm.skip(pos + 1), p, method_params(p.parameters@), cur),
                    ),
                )
            } else {
                rest
            },
            None => rest,
        }
    }
}

/// The partitioned classes among the first `n` of the class map, in order:
/// each declared class that owns at least one method, with its methods.
pub open spec fn classes_v(
    classes: Seq<(String, Class)>,
    procs: Seq<(String, Procedure)>,
    n: int,
    cur: Seq<char>,
) -> Seq<(Seq<char>, GenClassV)>
    decreases n,
{
    if n <= 0 || n > classes.len() {
        Seq::empty()
    } else {
        let rest = classes_v(classes, procs, n - 1, cur);
        let cname = classes[n - 1].0@;
        let c = classes[n - 1].1;
        let ms = class_methods_v(procs, cname, procs.len() as int, cur);
        if ms.len() > 0 {
            rest.push((cname, GenClassV { documentation: c.documentation@, methods: ms }))
        } else {
            rest
        }
    }
}

/// Classify one procedure name against the service's declared classes:
/// the split prefix and suffix when the convention marks it a method.
fn classify(service: &Service, nm: &String) -> (r: Option<(String, String)>)
    ensures
        match r {
            Some(parts) => {
                &&& is_method_name(nm@, service.classes@)
                &&& split_pos(nm@) matches Some(p) && parts.0@ == nm@.take(p) && parts.1@
                    == nm@.skip(p + 1)
            },
            None => !is_method_name(nm@, service.classes@),
        },
{
    match split_on_underscore(nm.as_str()) {
        None => None,
        Some(parts) => {
            let (prefix, suffix) = parts;
            match crate::entries::entries_get(&service.classes, prefix.as_str()) {
                Some(_) => Some((prefix, suffix)),
                None => None,
            }
        },
    }
}

/// Walk the procedure map once, in order: validate every signature (methods
/// with their receiver skipped) and collect the normalized free procedures.
fn scan_procedures(service: &Service, current_service: &str) -> (r: Result<
    Vec<(String, GenProcedure)>,
    TypeError,
>)
    ensures
        match r {
            Ok(v) => {
                &&& partition_error(*service) is None
                &&& entries_view(v@) == free_procs_v(
                    service.procedures@,
                    service.classes@,
                    service.procedures@.len() as int,
                    current_service@,
                )
            },
            Err(e) => partition_error(*service) == Some(e),
        },
{
    let ghost procs = service.procedures@;
    let ghost classes = service.classes@;
    let ghost cur = current_service@;
    let mut out: Vec<(String, GenProcedure)> = Vec::new();
    proof {
        assert(entries_view(out@) =~= free_procs_v(procs, classes, 0, cur));
    }
    let mut i: usize = 0;
    loop
        invariant
            i <= procs.len(),
            procs == service.procedures@,
            classes == service.classes@,
            cur == current_service@,
            procs_error_from(procs, classes, 0) == procs_error_from(procs, classes, i as int),
            entries_view(out@) == free_procs_v(procs, classes, i as int, cur),
        ensures
            i == procs.len(),
            procs_error_from(procs, classes, 0) is None,
            entries_view(out@) == free_procs_v(procs, classes, i as int, cur),
        decreases procs.len() - i,
    {
        if i >= service.procedures.len() {
            break ;
        }
        let nm = &service.procedures[i].0;
        let p = &service.procedures[i].1;
        match classify(service, nm) {
            Some(_) => {
                match build_signature(nm, "", p, true, current_service) {
                    Err(e) => {
                        return Err(e);
                    },
                    Ok(_) => {
                        proof {
                            assert(free_procs_v(procs, classes, i as int + 1, cur)
                                == free_procs_v(procs, classes, i as int, cur));
                        }
                    },
                }
            },
            None => {
                match build_signature(nm, nm.as_str(), p, false, current_service) {
                    Err(e) => {
                        return Err(e);
                    },
                    Ok(g) => {
                        let ghost before = out@;
                        let ghost gv = g@;
                        let key = nm.clone();
                        out.push((key, g));
                        proof {
                            crate::entries::lemma_entries_view_push_v(before, nm@, gv, out@);
                            assert(entries_view(out@) =~= free_procs_v(
                                procs,
                                classes,
                                i as int + 1,
                                cur,
                            ));
                        }
                    },
                }
            },
        }
        i += 1;
    }
    Ok(out)
}

/// Walk the class map, and for each declared class the procedure map, in
/// order: collect every class that owns at least one method, with its
/// methods normalized.  Callable once the service is known to be clean.
fn method_classes(service: &Service, current_service: &str) -> (r: Vec<(String, GenClass)>)
    requires
        partition_error(*service) is None,
    ensures
        entries_view(r@) == classes_v(
            service.classes@,
            service.procedures@,
            service.classes@.len() as int,
            current_service@,
        ),
{
    let ghost procs = service.procedures@;
    let ghost classes = service.classes@;
    let ghost cur = current_service@;
    let mut out: Vec<(String, GenClass)> = Vec::new();
    proof {
        assert(entries_view(out@) =~= classes_v(classes, procs, 0, cur));
    }
    let mut ci: usize = 0;
    loop
        invariant
            ci <= classes.len(),
            procs == service.procedures@,
            classes == service.classes@,
            cur == current_service@,
            partition_error(*service) is None,
            entries_view(out@) == classes_v(classes, procs, ci as int, cur),
        ensures
            ci == classes.len(),
            entries_view(out@) == classes_v(classes, procs, ci as int, cur),
        decreases classes.len() - ci,
    {
        if ci >= service.classes.len() {
            break ;
        }
        let cname = &service.classes[ci].0;
        let cls = &service.classes[ci].1;
        let mut methods: Vec<(String, GenProcedure)> = Vec::new();
        proof {
            assert(entries_view(methods@) =~= class_methods_v(procs, cname@, 0, cur));
        }
        let mut pi: usize = 0;
        loop
            invariant
                pi <= procs.len(),
                procs == service.procedures@,
                classes == service.classes@,
                cur == current_service@,
                0 <= (ci as int) < classes.len(),
                cname@ == classes[ci as int].0@,
                partition_error(*service) is None,
                entries_view(methods@) == class_methods_v(procs, cname@, pi as int, cur),
            ensures
                pi == procs.len(),
                entries_view(methods@) == class_methods_v(procs, cname@, pi as int, cur),
            decreases procs.len() - pi,
        {
            if pi >= service.procedures.len() {
                break ;
            }
            let nm = &service.procedures[pi].0;
            let p = &service.procedures[pi].1;
            match split_on_underscore(nm.as_str()) {
                None => {
                },
                Some(parts) => {
                    let (prefix, suffix) = parts;
                    if str_eq(prefix.as_str(), cname.as_str()) {
                        proof {
                            // The name splits at a declared class, so the
                            // clean service guarantees a clean signature.
                            crate::entries::lemma_index_implies_has_key(classes, ci as int);
                            assert(is_method_name(nm@, classes));
                            lemma_procs_error_none(procs, classes, pi as int);
                        }
                        match build_signature(nm, suffix.as_str(), p, true, current_service) {
                            Err(_) => {
                                proof {
                                    assert(false);
                                }
                            },
                            Ok(g) => {
                                let ghost before = methods@;
                                out_push_method(&mut methods, suffix, g);
                                proof {
                                    assert(entries_view(methods@) =~= class_methods_v(
                                        procs,
                                        cname@,
                                        pi as int + 1,
                                        cur,
                                    ));
                                }
                            },
                        }
                    }
                },
            }
            pi += 1;
        }
        if methods.len() > 0 {
            let ghost before = out@;
            let gc = GenClass { documentation: cls.documentation.clone(), methods };
            let ghost gcv = gc@;
            out.push((cname.clone(), gc));
            proof {
                crate::entries::lemma_entries_view_push_v(before, cname@, gcv, out@);
                assert(entries_view(out@) =~= classes_v(classes, procs, ci as int + 1, cur));
            }
        } else {
            proof {
                assert(classes_v(classes, procs, ci as int + 1, cur) == classes_v(
                    classes,
                    procs,
                    ci as int,
                    cur,
                ));
            }
        }
        ci += 1;
    }
    out
}

/// Append one normalized method under its suffix key.
fn out_push_method(methods: &mut Vec<(String, GenProcedure)>, suffix: String, g: GenProcedure)
    ensures
        entries_view(final(methods)@) == entries_view(old(methods)@).push((suffix@, g@)),
{
    let ghost before = methods@;
    let ghost skey = suffix@;
    let ghost gv = g@;
    methods.push((suffix, g));
    proof {
        crate::entries::lemma_entries_view_push_v(before, skey, gv, methods@);
    }
}

/// The keys of a view-level entry sequence, in order.
pub open spec fn pair_keys<V>(s: Seq<(Seq<char>, V)>) -> Seq<Seq<char>> {
    s.map_values(|p: (Seq<char>, V)| p.0)
}

/// A found split position carries the first underscore.
proof fn lemma_underscore_at_char(n: Seq<char>, i: int, p: int)
    requires
        0 <= i,
        underscore_at(n, i) == Some(p),
    ensures
        i <= p < n.len(),
        n[p] == '_',
    decreases n.len() - i,
{
    if i < n.len() && n[i] != '_' {
        lemma_underscore_at_char(n, i + 1, p);
    }
}

/// A method name is its class name, one underscore, then its suffix.
proof fn lemma_method_name_decompose(nm: Seq<char>, cname: Seq<char>, pos: int)
    requires
        split_pos(nm) == Some(pos),
        nm.take(pos) == cname,
    ensures
        pos == cname.len(),
        nm == cname.push('_') + nm.skip(pos + 1),
{
    lemma_underscore_at_char(nm, 0, pos);
    assert(cname.push('_') =~= nm.take(pos + 1)) by {
        assert(forall|i: int| 0 <= i < pos ==> nm.take(pos + 1)[i] == #[trigger] nm.take(pos)[i]);
    }
    assert(nm =~= nm.take(pos + 1) + nm.skip(pos + 1));
}

/// For a sorted procedure map, one class's methods come out sorted by
/// suffix, and every suffix names a procedure of the prefix form.
proof fn lemma_methods_sorted(
    procs: Seq<(String, Procedure)>,
    cname: Seq<char>,
    n: int,
    cur: Seq<char>,
)
    requires
        crate::entries::sorted_entries(procs),
        n <= procs.len(),
    ensures
        crate::strkit::strictly_sorted(pair_keys(class_methods_v(procs, cname, n, cur))),
        forall|x: Seq<char>|
            pair_keys(class_methods_v(procs, cname, n, cur)).contains(x) ==> exists|j: int|
                0 <= j < n && procs[j].0@ == cname.push('_') + x,
    decreases n,
{
    let ms1 = class_methods_v(procs, cname, n, cur);
    if n <= 0 {
        assert(pair_keys(ms1) =~= Seq::<Seq<char>>::empty());
    } else {
        lemma_methods_sorted(procs, cname, n - 1, cur);
        let ms0 = class_methods_v(procs, cname, n - 1, cur);
        let nm = procs[n - 1].0@;
        match split_pos(nm) {
            Some(pos) => {
                if nm.take(pos) == cname {
                    let sfx = nm.skip(pos + 1);
                    lemma_method_name_decompose(nm, cname, pos);
                    assert(pair_keys(ms1) =~= pair_keys(ms0).push(sfx));
                    assert forall|a: int, b: int|
                        0 <= a < b < pair_keys(ms1).len() implies crate::strkit::seq_lt(
                        pair_keys(ms1)[a],
                        pair_keys(ms1)[b],
                    ) by {
                        if b == pair_keys(ms1).len() - 1 {
                            let x = pair_keys(ms0)[a];
                            assert(pair_keys(ms0).contains(x));
                            let j = choose|j: int|
                                0 <= j < n - 1 && procs[j].0@ == cname.push('_') + x;
                            assert(crate::entries::entry_keys(procs)[j] == procs[j].0@);
                            assert(crate::entries::entry_keys(procs)[n - 1] == procs[n - 1].0@);
                            assert(crate::strkit::seq_lt(procs[j].0@, procs[n - 1].0@));
                            crate::strkit::lemma_seq_lt_common_prefix(cname.push('_'), x, sfx);
                        }
                    }
                    assert forall|x: Seq<char>| pair_keys(ms1).contains(x) implies exists|j: int|
                        0 <= j < n && procs[j].0@ == cname.push('_') + x by {
                        let k = choose|k: int| 0 <= k < pair_keys(ms1).len() && pair_keys(ms1)[k]
                            == x;
                        if k < pair_keys(ms0).len() {
                            assert(pair_keys(ms0).contains(x));
                            let j = choose|j: int|
                                0 <= j < n - 1 && procs[j].0@ == cname.push('_') + x;
                            assert(0 <= j < n && procs[j].0@ == cname.push('_') + x);
                        } else {
                            assert(x == sfx);
                            assert(procs[n - 1].0@ == cname.push('_') + x);
                        }
                    }
                } else {
                    assert(ms1 == ms0);
                }
            },
            None => {
                assert(ms1 == ms0);
            },
        }
    }
}

/// For a sorted procedure map, the free procedures come out sorted, and
/// every key names a procedure.
proof fn lemma_free_sorted(
    procs: Seq<(String, Procedure)>,
    classes: Seq<(String, Class)>,
    n: int,
    cur: Seq<char>,
)
    requires
        crate::entries::sorted_entries(procs),
        n <= procs.len(),
    ensures
        crate::strkit::strictly_sorted(pair_keys(free_procs_v(procs, classes, n, cur))),
        forall|x: Seq<char>|
            pair_keys(free_procs_v(procs, classes, n, cur)).contains(x) ==> exists|j: int|
                0 <= j < n && procs[j].0@ == x,
    decreases n,
{
    let fs1 = free_procs_v(procs, classes, n, cur);
    if n <= 0 {
        assert(pair_keys(fs1) =~= Seq::<Seq<char>>::empty());
    } else {
        lemma_free_sorted(procs, classes, n - 1, cur);
        let fs0 = free_procs_v(procs, classes, n - 1, cur);
        let nm = procs[n - 1].0@;
        if is_method_name(nm, classes) {
            assert(fs1 == fs0);
        } else {
            assert(pair_keys(fs1) =~= pair_keys(fs0).push(nm));
            assert forall|a: int, b: int|
                0 <= a < b < pair_keys(fs1).len() implies crate::strkit::seq_lt(
                pair_keys(fs1)[a],
                pair_keys(fs1)[b],
            ) by {
                if b == pair_keys(fs1).len() - 1 {
                    let x = pair_keys(fs0)[a];
                    assert(pair_keys(fs0).contains(x));
                    let j = choose|j: int| 0 <= j < n - 1 && procs[j].0@ == x;
                    assert(crate::entries::entry_keys(procs)[j] == procs[j].0@);
                    assert(crate::entries::entry_keys(procs)[n - 1] == procs[n - 1].0@);
                    assert(crate::strkit::seq_lt(procs[j].0@, procs[n - 1].0@));
                }
            }
            assert forall|x: Seq<char>| pair_keys(fs1).contains(x) implies exists|j: int|
                0 <= j < n && procs[j].0@ == x by {
                let k = choose|k: int| 0 <= k < pair_keys(fs1).len() && pair_keys(fs1)[k] == x;
                if k < pair_keys(fs0).len() {
                    assert(pair_keys(fs0).contains(x));
                    let j = choose|j: int| 0 <= j < n - 1 && procs[j].0@ == x;
                    assert(0 <= j < n && procs[j].0@ == x);
                } else {
                    assert(procs[n - 1].0@ == x);
                }
            }
        }
    }
}

/// For sorted class and procedure maps, the partitioned classes come out
/// sorted, each class's methods come out sorted, and every key names a
/// declared class.
proof fn lemma_classes_sorted(
    classes: Seq<(String, Class)>,
    procs: Seq<(String, Procedure)>,
    n: int,
    cur: Seq<char>,
)
    requires
        crate::entries::sorted_entries(procs),
        crate::entries::sorted_entries(classes),
        n <= classes.len(),
    ensures
        crate::strkit::strictly_sorted(pair_keys(classes_v(classes, procs, n, cur))),
        forall|k: int|
            0 <= k < classes_v(classes, procs, n, cur).len()
                ==> crate::strkit::strictly_sorted(
                pair_keys(#[trigger] classes_v(classes, procs, n, cur)[k].1.methods),
            ),
        forall|x: Seq<char>|
            pair_keys(classes_v(classes, procs, n, cur)).contains(x) ==> exists|j: int|
                0 <= j < n && classes[j].0@ == x,
    decreases n,
{
    let cs1 = classes_v(classes, procs, n, cur);
    if n <= 0 {
        assert(pair_keys(cs1) =~= Seq::<Seq<char>>::empty());
    } else {
        lemma_classes_sorted(classes, procs, n - 1, cur);
        let cs0 = classes_v(classes, procs, n - 1, cur);
        let cname = classes[n - 1].0@;
        let ms = class_methods_v(procs, cname, procs.len() as int, cur);
        if ms.len() > 0 {
            lemma_methods_sorted(procs, cname, procs.len() as int, cur);
            assert(pair_keys(cs1) =~= pair_keys(cs0).push(cname));
            assert forall|a: int, b: int|
                0 <= a < b < pair_keys(cs1).len() implies crate::strkit::seq_lt(
                pair_keys(cs1)[a],
                pair_keys(cs1)[b],
            ) by {
                if b == pair_keys(cs1).len() - 1 {
                    let x = pair_keys(cs0)[a];
                    assert(pair_keys(cs0).contains(x));
                    let j = choose|j: int| 0 <= j < n - 1 && classes[j].0@ == x;
                    assert(crate::entries::entry_keys(classes)[j] == classes[j].0@);
                    assert(crate::entries::entry_keys(classes)[n - 1] == classes[n - 1].0@);
                    assert(crate::strkit::seq_lt(classes[j].0@, classes[n - 1].0@));
                }
            }
            assert forall|k: int| 0 <= k < cs1.len() implies crate::strkit::strictly_sorted(
                pair_keys(#[trigger] cs1[k].1.methods),
            ) by {
                if k < cs0.len() {
                    assert(cs1[k] == cs0[k]);
                } else {
                    assert(cs1[k].1.methods == ms);
                }
            }
            assert forall|x: Seq<char>| pair_keys(cs1).contains(x) implies exists|j: int|
                0 <= j < n && classes[j].0@ == x by {
                let k = choose|k: int| 0 <= k < pair_keys(cs1).len() && pair_keys(cs1)[k] == x;
                if k < pair_keys(cs0).len() {
                    assert(pair_keys(cs0).contains(x));
                    let j = choose|j: int| 0 <= j < n - 1 && classes[j].0@ == x;
                    assert(0 <= j < n && classes[j].0@ == x);
                } else {
                    assert(classes[n - 1].0@ == x);
                }
            }
        } else {
            assert(cs1 == cs0);
        }
    }
}

/// Deterministic grouping order: for a well-formed service the partitioned
/// class map, every class's method map, and the free procedure map are all
/// strictly sorted by key — lexicographically, whatever order the input
/// document declared them in.
pub proof fn lemma_partition_ordering(s: Service, cur: Seq<char>)
    requires
        s.wf(),
    ensures
        crate::strkit::strictly_sorted(
            pair_keys(classes_v(s.classes@, s.procedures@, s.classes@.len() as int, cur)),
        ),
        forall|k: int|
            0 <= k < classes_v(s.classes@, s.procedures@, s.classes@.len() as int, cur).len()
                ==> crate::strkit::strictly_sorted(
                pair_keys(
                    #[trigger] classes_v(
                        s.classes@,
                        s.procedures@,
                        s.classes@.len() as int,
                        cur,
                    )[k].1.methods,
                ),
            ),
        crate::strkit::strictly_sorted(
            pair_keys(free_procs_v(s.procedures@, s.classes@, s.procedures@.len() as int, cur)),
        ),
{
    lemma_classes_sorted(s.classes@, s.procedures@, s.classes@.len() as int, cur);
    lemma_free_sorted(s.procedures@, s.classes@, s.procedures@.len() as int, cur);
}

/// A free procedure reaches the free map: for every later cut of the
/// procedure list, its entry sits at some index.
proof fn lemma_free_contains(
    procs: Seq<(String, Procedure)>,
    classes: Seq<(String, Class)>,
    i: int,
    n: int,
    cur: Seq<char>,
)
    requires
        0 <= i < n <= procs.len(),
        !is_method_name(procs[i].0@, classes),
    ensures
        exists|k: int|
            0 <= k < free_procs_v(procs, classes, n, cur).len() && free_procs_v(
                procs,
                classes,
                n,
                cur,
            )[k] == (
                procs[i].0@,
                gen_proc_v(procs[i].0@, procs[i].0@, procs[i].1, procs[i].1.parameters@, cur),
            ),
    decreases n,
{
    let fs1 = free_procs_v(procs, classes, n, cur);
    let fs0 = free_procs_v(procs, classes, n - 1, cur);
    if i == n - 1 {
        assert(fs1[fs1.len() - 1] == (
            procs[i].0@,
            gen_proc_v(procs[i].0@, procs[i].0@, procs[i].1, procs[i].1.parameters@, cur),
        ));
    } else {
        lemma_free_contains(procs, classes, i, n - 1, cur);
        let k = choose|k: int|
            0 <= k < fs0.len() && fs0[k] == (
                procs[i].0@,
                gen_proc_v(procs[i].0@, procs[i].0@, procs[i].1, procs[i].1.parameters@, cur),
            );
        assert(fs1[k] == fs0[k]);
    }
}

/// A method reaches its class's method map: for every later cut of the
/// procedure list, its entry sits at some index.
proof fn lemma_methods_contain(
    procs: Seq<(String, Procedure)>,
    cname: Seq<char>,
    i: int,
    n: int,
    pos: int,
    cur: Seq<char>,
)
    requires
        0 <= i < n <= procs.len(),
        split_pos(procs[i].0@) == Some(pos),
        procs[i].0@.take(pos) == cname,
    ensures
        exists|k: int|
            0 <= k < class_methods_v(procs, cname, n, cur).len() && class_methods_v(
                procs,
                cname,
                n,
                cur,
            )[k] == (
                procs[i].0@.skip(pos + 1),
                gen_proc_v(
                    procs[i].0@,
                    procs[i].0@.skip(pos + 1),
                    procs[i].1,
                    method_params(procs[i].1.parameters@),
                    cur,
                ),
            ),
    decreases n,
{
    let ms1 = class_methods_v(procs, cname, n, cur);
    let ms0 = class_methods_v(procs, cname, n - 1, cur);
    let entry = (
        procs[i].0@.skip(pos + 1),
        gen_proc_v(
            procs[i].0@,
            procs[i].0@.skip(pos + 1),
            procs[i].1,
            method_params(procs[i].1.parameters@),
            cur,
        ),
    );
    if i == n - 1 {
        assert(ms1[ms1.len() - 1] == entry);
    } else {
        lemma_methods_contain(procs, cname, i, n - 1, pos, cur);
        let k = choose|k: int| 0 <= k < ms0.len() && ms0[k] == entry;
        assert(ms1[k] == ms0[k]);
    }
}

/// A declared class with at least one method reaches the class map, carrying
/// exactly its method map.
proof fn lemma_classes_contain(
    classes: Seq<(String, Class)>,
    procs: Seq<(String, Procedure)>,
    ci: int,
    n: int,
    cur: Seq<char>,
)
    requires
        0 <= ci < n <= classes.len(),
        class_methods_v(procs, classes[ci].0@, procs.len() as int, cur).len() > 0,
    ensures
        exists|k: int|
            0 <= k < classes_v(classes, procs, n, cur).len() && classes_v(classes, procs, n, cur)[k]
                == (
                classes[ci].0@,
                GenClassV {
                    documentation: classes[ci].1.documentation@,
                    methods: class_methods_v(procs, classes[ci].0@, procs.len() as int, cur),
                },
            ),
    decreases n,
{
    let cs1 = classes_v(classes, procs, n, cur);
    let cs0 = classes_v(classes, procs, n - 1, cur);
    let entry = (
        classes[ci].0@,
        GenClassV {
            documentation: classes[ci].1.documentation@,
            methods: class_methods_v(procs, classes[ci].0@, procs.len() as int, cur),
        },
    );
    if ci == n - 1 {
        assert(cs1[cs1.len() - 1] == entry);
    } else {
        lemma_classes_contain(classes, procs, ci, n - 1, cur);
        let k = choose|k: int| 0 <= k < cs0.len() && cs0[k] == entry;
        assert(cs1[k] == cs0[k]);
    }
}

/// Completeness of the partition: every procedure of a service lands where
/// the naming convention says.  One whose name splits at its first
/// underscore into a declared class name and a suffix appears, under the
/// suffix, in that class's method map within the class map, with its
/// receiver dropped; any other procedure appears in the free map under its
/// full name with its full parameter list.
pub proof fn lemma_partition_complete(s: Service, cur: Seq<char>, i: int)
    requires
        0 <= i < s.procedures@.len(),
    ensures
        !is_method_name(s.procedures@[i].0@, s.classes@) ==> exists|k: int|
            0 <= k < free_procs_v(
                s.procedures@,
                s.classes@,
                s.procedures@.len() as int,
                cur,
            ).len() && #[trigger] free_procs_v(
                s.procedures@,
                s.classes@,
                s.procedures@.len() as int,
                cur,
            )[k] == (
                s.procedures@[i].0@,
                gen_proc_v(
                    s.procedures@[i].0@,
                    s.procedures@[i].0@,
                    s.procedures@[i].1,
                    s.procedures@[i].1.parameters@,
                    cur,
                ),
            ),
        is_method_name(s.procedures@[i].0@, s.classes@) ==> exists|k: int, m: int|
            0 <= k < classes_v(s.classes@, s.procedures@, s.classes@.len() as int, cur).len() && 0
                <= m < classes_v(
                s.classes@,
                s.procedures@,
                s.classes@.len() as int,
                cur,
            )[k].1.methods.len() && classes_v(
                s.classes@,
                s.procedures@,
                s.classes@.len() as int,
                cur,
            )[k].0 == s.procedures@[i].0@.take(split_pos(s.procedures@[i].0@)->0)
                && #[trigger] classes_v(
                s.classes@,
                s.procedures@,
                s.classes@.len() as int,
                cur,
            )[k].1.methods[m] == (
                s.procedures@[i].0@.skip(split_pos(s.procedures@[i].0@)->0 + 1),
                gen_proc_v(
                    s.procedures@[i].0@,
                    s.procedures@[i].0@.skip(split_pos(s.procedures@[i].0@)->0 + 1),
                    s.procedures@[i].1,
                    method_params(s.procedures@[i].1.parameters@),
                    cur,
                ),
            ),
{
    let procs = s.procedures@;
    let classes = s.classes@;
    let nm = procs[i].0@;
    if is_method_name(nm, classes) {
        let pos = split_pos(nm)->0;
        let cname = nm.take(pos);
        let ci = crate::entries::lemma_has_key_implies_index(classes, cname);
        lemma_methods_contain(procs, cname, i, procs.len() as int, pos, cur);
        let ms = class_methods_v(procs, cname, procs.len() as int, cur);
        assert(ms.len() > 0);
        lemma_classes_contain(classes, procs, ci, classes.len() as int, cur);
        let k = choose|k: int|
            0 <= k < classes_v(classes, procs, classes.len() as int, cur).len() && classes_v(
                classes,
                procs,
                classes.len() as int,
                cur,
            )[k] == (
                classes[ci].0@,
                GenClassV { documentation: classes[ci].1.documentation@, methods: ms },
            );
        let m = choose|m: int|
            0 <= m < ms.len() && ms[m] == (
                nm.skip(pos + 1),
                gen_proc_v(
                    nm,
                    nm.skip(pos + 1),
                    procs[i].1,
                    method_params(procs[i].1.parameters@),
                    cur,
                ),
            );
        assert(classes_v(classes, procs, classes.len() as int, cur)[k].0 == cname);
        assert(classes_v(classes, procs, classes.len() as int, cur)[k].1.methods[m] == (
            nm.skip(pos + 1),
            gen_proc_v(
                nm,
                nm.skip(pos + 1),
                procs[i].1,
                method_params(procs[i].1.parameters@),
                cur,
            ),
        ));
    } else {
        lemma_free_contains(procs, classes, i, procs.len() as int, cur);
    }
}

/// Partition one service's procedures: every procedure whose name splits at
/// its first underscore into a declared class name and a suffix becomes a
/// method of that class (keyed by the suffix, receiver parameter dropped);
/// everything else stays a free procedure under its full name.  The first
/// structural fault in any signature, scanning procedures in map order,
/// parameters before return type, aborts the partition instead.
pub fn separate_procedures_from_methods(service: &Service, service_name: &str) -> (r: Result<
    (Vec<(String, GenClass)>, Vec<(String, GenProcedure)>),
    TypeError,
>)
    ensures
        match r {
            Ok(out) => {
                &&& partition_error(*service) is None
                &&& entries_view(out.0@) == classes_v(
                    service.classes@,
                    service.procedures@,
                    service.classes@.len() as int,
                    service_name@,
                )
                &&& entries_view(out.1@) == free_procs_v(
                    service.procedures@,
                    service.classes@,
                    service.procedures@.len() as int,
                    service_name@,
                )
            },
            Err(e) => partition_error(*service) == Some(e),
        },
{
    match scan_procedures(service, service_name) {
        Err(e) => Err(e),
        Ok(procedures) => {
            let classes = method_classes(service, service_name);
            Ok((classes, procedures))
        },
    }
}

} // verus!
