//! The type resolver: turns one node of the type algebra into a Rust type
//! expression, reports the cross-service symbols the expression references,
//! and rejects malformed nodes.  Resolution never guesses: a List or Set node
//! must carry exactly one child type and a Dictionary exactly two, and any
//! violation, at any depth, is a structural error naming the construct.

use vstd::prelude::*;
use crate::model::Type;
use crate::strkit::{strictly_sorted, views_of};

verus! {

/// A structural fault in a type node: a container with the wrong number of
/// child types.  The count found is carried for diagnosis.
#[derive(Clone, Copy, Debug, PartialEq, Eq, Structural)]
pub enum TypeError {
    ListArity { found: usize },
    SetArity { found: usize },
    DictionaryArity { found: usize },
}

/// What the external case-conversion utility returns: the lowercase,
/// underscore-separated form of an identifier.  A pure function of the
/// characters of its input; no shorter description exists, so the result is
/// only named here and every contract speaks of it through this name.
pub uninterp spec fn snake_of(s: Seq<char>) -> Seq<char>;

/// Relies on heck's `ToSnakeCase for str`: `to_snake_case` computes a
/// snake-case form from the characters of its input alone.
#[verifier::external_body]
pub(crate) fn to_snake_case(s: &str) -> (r: String)
    ensures
        r@ == snake_of(s@),
{
    heck::ToSnakeCase::to_snake_case(s)
}

/// The qualified form of a symbol owned by another service: the module name
/// of that service (its case-converted name), then `::`, then the symbol.
pub open spec fn qualified_name(service: Seq<char>, name: Seq<char>) -> Seq<char> {
    snake_of(service) + "::"@ + name
}

/// The first structural fault in a type node, scanning depth first, children
/// in order; `None` when the node is well-formed.
pub open spec fn arity_error(t: Type) -> Option<TypeError>
    decreases t, 0int,
{
    match t {
        Type::List { types } => if types@.len() != 1 {
            Some(TypeError::ListArity { found: types@.len() as usize })
        } else {
            arity_error(types@[0])
        },
        Type::SetOf { types } => if types@.len() != 1 {
            Some(TypeError::SetArity { found: types@.len() as usize })
        } else {
            arity_error(types@[0])
        },
        Type::Dictionary { types } => if types@.len() != 2 {
            Some(TypeError::DictionaryArity { found: types@.len() as usize })
        } else if arity_error(types@[0]) is Some {
            arity_error(types@[0])
        } else {
            arity_error(types@[1])
        },
        Type::Tuple { types } => first_arity_error(types@, types@.len() as int),
        _ => None,
    }
}

/// The first structural fault among the first `n` elements of a child list.
pub open spec fn first_arity_error(ts: Seq<Type>, n: int) -> Option<TypeError>
    decreases ts, n,
{
    if n <= 0 || n > ts.len() {
        None
    } else if first_arity_error(ts, n - 1) is Some {
        first_arity_error(ts, n - 1)
    } else {
        arity_error(ts[n - 1])
    }
}

/// A node is well-formed when no structural fault hides in it.
pub open spec fn type_wf(t: Type) -> bool {
    arity_error(t) is None
}

/// The Rust type expression a node resolves to, relative to the service
/// currently being generated.  Meaningful for well-formed nodes; a container
/// reads its mandated children (List and Set the first, Dictionary the first
/// two), and a container too short for that resolves to nothing — the
/// resolver rejects such a node before this spec is consulted.
pub open spec fn type_expr(t: Type, cur: Seq<char>) -> Seq<char>
    decreases t, 0int,
{
    match t {
        Type::Bool => "bool"@,
        Type::SInt32 => "i32"@,
        Type::UInt32 => "u32"@,
        Type::Double => "f64"@,
        Type::Float => "f32"@,
        Type::String => "String"@,
        Type::List { types } => if types@.len() < 1 {
            Seq::empty()
        } else {
            "Vec<"@ + type_expr(types@[0], cur) + ">"@
        },
        Type::SetOf { types } => if types@.len() < 1 {
            Seq::empty()
        } else {
            "std::collections::HashSet<"@ + type_expr(types@[0], cur) + ">"@
        },
        Type::Dictionary { types } => if types@.len() < 2 {
            Seq::empty()
        } else {
            "std::collections::HashMap<"@ + type_expr(types@[0], cur) + ", "@ + type_expr(
                types@[1],
                cur,
            ) + ">"@
        },
        Type::Tuple { types } => "("@ + joined_exprs(types@, types@.len() as int, cur) + ")"@,
        Type::Class { service, name } => if service@ == cur {
            name@
        } else {
            qualified_name(service@, name@)
        },
        Type::Enumeration { service, name } => if service@ == cur {
            name@
        } else {
            qualified_name(service@, name@)
        },
    }
}

/// The expressions of the first `n` children, joined by `, `.
pub open spec fn joined_exprs(ts: Seq<Type>, n: int, cur: Seq<char>) -> Seq<char>
    decreases ts, n,
{
    if n <= 0 || n > ts.len() {
        Seq::empty()
    } else if n == 1 {
        type_expr(ts[0], cur)
    } else {
        joined_exprs(ts, n - 1, cur) + ", "@ + type_expr(ts[n - 1], cur)
    }
}

/// The set of qualified names a node references in services other than the
/// current one, at any depth.  Containers contribute all of their children,
/// whatever their arity, so the set is defined for malformed nodes too.
pub open spec fn type_deps(t: Type, cur: Seq<char>) -> Set<Seq<char>>
    decreases t, 0int,
{
    match t {
        Type::List { types } => seq_deps(types@, types@.len() as int, cur),
        Type::SetOf { types } => seq_deps(types@, types@.len() as int, cur),
        Type::Dictionary { types } => seq_deps(types@, types@.len() as int, cur),
        Type::Tuple { types } => seq_deps(types@, types@.len() as int, cur),
        Type::Class { service, name } => if service@ == cur {
            Set::empty()
        } else {
            set![qualified_name(service@, name@)]
        },
        Type::Enumeration { service, name } => if service@ == cur {
            Set::empty()
        } else {
            set![qualified_name(service@, name@)]
        },
        _ => Set::empty(),
    }
}

/// The union of the dependency sets of the first `n` children.
pub open spec fn seq_deps(ts: Seq<Type>, n: int, cur: Seq<char>) -> Set<Seq<char>>
    decreases ts, n,
{
    if n <= 0 || n > ts.len() {
        Set::empty()
    } else {
        seq_deps(ts, n - 1, cur).union(type_deps(ts[n - 1], cur))
    }
}

/// Whether a node is a reference to a class (as opposed to a primitive,
/// container or enumeration): generated code passes class values by
/// reference, so a resolved return type records this.
pub open spec fn is_class_ref(t: Type) -> bool {
    t is Class
}

/// What one type node resolves to: the Rust type expression, whether the node
/// is a class reference, and the sorted set of qualified cross-service names
/// the expression mentions.
#[derive(Debug, PartialEq, Eq)]
pub struct ResolvedType {
    pub name: String,
    pub is_class: bool,
    pub deps: Vec<String>,
}

impl ResolvedType {
    /// The shape every resolver result keeps: dependency names strictly
    /// sorted, hence unique.
    pub open spec fn wf(self) -> bool {
        strictly_sorted(views_of(self.deps@))
    }
}

/// A structural fault found in a prefix settles the first fault of every
/// longer prefix.
proof fn lemma_first_error_found(ts: Seq<Type>, i: int, m: int, e: TypeError)
    requires
        0 <= i < m <= ts.len(),
        first_arity_error(ts, i) is None,
        arity_error(ts[i]) == Some(e),
    ensures
        first_arity_error(ts, m) == Some(e),
    decreases m,
{
    if m == i + 1 {
    } else {
        lemma_first_error_found(ts, i, m - 1, e);
    }
}

impl Type {
    /// Resolve this node against the named current service: produce the Rust
    /// type expression, whether it is a class reference, and every qualified
    /// cross-service name it mentions, sorted and without duplicates — or the
    /// first structural fault in the node.
    pub fn to_rust_type(&self, current_service: &str) -> (r: Result<ResolvedType, TypeError>)
        ensures
            match r {
                Ok(res) => {
                    &&& arity_error(*self) is None
                    &&& res.name@ == type_expr(*self, current_service@)
                    &&& res.is_class == is_class_ref(*self)
                    &&& res.wf()
                    &&& views_of(res.deps@).to_set() == type_deps(*self, current_service@)
                },
                Err(e) => arity_error(*self) == Some(e),
            },
        decreases *self,
    {
        match self {
            Type::Bool => Ok(ResolvedType::primitive("bool")),
            Type::SInt32 => Ok(ResolvedType::primitive("i32")),
            Type::UInt32 => Ok(ResolvedType::primitive("u32")),
            Type::Double => Ok(ResolvedType::primitive("f64")),
            Type::Float => Ok(ResolvedType::primitive("f32")),
            Type::String => Ok(ResolvedType::primitive("String")),
            Type::List { types } => {
                if types.len() != 1 {
                    return Err(TypeError::ListArity { found: types.len() });
                }
                match types[0].to_rust_type(current_service) {
                    Err(e) => Err(e),
                    Ok(inner) => {
                        let mut name = String::from_str("Vec<");
                        name.append(inner.name.as_str());
                        name.append(">");
                        proof {
                            lemma_seq_deps_single(types@, current_service@);
                        }
                        Ok(ResolvedType { name, is_class: false, deps: inner.deps })
                    },
                }
            },
            Type::SetOf { types } => {
                if types.len() != 1 {
                    return Err(TypeError::SetArity { found: types.len() });
                }
                match types[0].to_rust_type(current_service) {
                    Err(e) => Err(e),
                    Ok(inner) => {
                        let mut name = String::from_str("std::collections::HashSet<");
                        name.append(inner.name.as_str());
                        name.append(">");
                        proof {
                            lemma_seq_deps_single(types@, current_service@);
                        }
                        Ok(ResolvedType { name, is_class: false, deps: inner.deps })
                    },
                }
            },
            Type::Dictionary { types } => {
                if types.len() != 2 {
                    return Err(TypeError::DictionaryArity { found: types.len() });
                }
                match types[0].to_rust_type(current_service) {
                    Err(e) => Err(e),
                    Ok(key_part) => match types[1].to_rust_type(current_service) {
                        Err(e) => Err(e),
                        Ok(val_part) => {
                            let mut name = String::from_str("std::collections::HashMap<");
                            name.append(key_part.name.as_str());
                            name.append(", ");
                            name.append(val_part.name.as_str());
                            name.append(">");
                            let mut deps = key_part.deps;
                            crate::strkit::sorted_merge(&mut deps, val_part.deps);
                            proof {
                                lemma_seq_deps_pair(types@, current_service@);
                            }
                            Ok(ResolvedType { name, is_class: false, deps })
                        },
                    },
                }
            },
            Type::Tuple { types } => {
                let ghost cur = current_service@;
                let mut name = String::from_str("(");
                let mut deps: Vec<String> = Vec::new();
                proof {
                    assert(views_of(deps@) =~= Seq::<Seq<char>>::empty());
                    assert(views_of(deps@).to_set() =~= Set::empty());
                }
                let mut i: usize = 0;
                loop
                    invariant
                        *self is Tuple,
                        types@ == (*self)->Tuple_types@,
                        i <= types.len(),
                        first_arity_error(types@, i as int) is None,
                        name@ == "("@ + joined_exprs(types@, i as int, cur),
                        strictly_sorted(views_of(deps@)),
                        views_of(deps@).to_set() == seq_deps(types@, i as int, cur),
                        cur == current_service@,
                    ensures
                        i == types.len(),
                        first_arity_error(types@, i as int) is None,
                        name@ == "("@ + joined_exprs(types@, i as int, cur),
                        strictly_sorted(views_of(deps@)),
                        views_of(deps@).to_set() == seq_deps(types@, i as int, cur),
                    decreases types.len() - i,
                {
                    if i >= types.len() {
                        break ;
                    }
                    proof {
                        assert(decreases_to!(*self => (*self)->Tuple_types@[i as int]));
                    }
                    match types[i].to_rust_type(current_service) {
                        Err(e) => {
                            proof {
                                lemma_first_error_found(
                                    types@,
                                    i as int,
                                    types@.len() as int,
                                    e,
                                );
                            }
                            return Err(e);
                        },
                        Ok(sub) => {
                            if i > 0 {
                                name.append(", ");
                            }
                            name.append(sub.name.as_str());
                            crate::strkit::sorted_merge(&mut deps, sub.deps);
                            proof {
                                if i == 0 {
                                    assert(name@ =~= "("@ + joined_exprs(
                                        types@,
                                        1int,
                                        cur,
                                    ));
                                } else {
                                    assert(name@ =~= "("@ + joined_exprs(
                                        types@,
                                        i as int + 1,
                                        cur,
                                    ));
                                }
                            }
                            i += 1;
                        },
                    }
                }
                name.append(")");
                proof {
                    assert(name@ =~= "("@ + joined_exprs(types@, types@.len() as int, cur)
                        + ")"@);
                }
                Ok(ResolvedType { name, is_class: false, deps })
            },
            Type::Class { service, name } => Ok(
                ResolvedType::reference(service, name, current_service, true),
            ),
            Type::Enumeration { service, name } => Ok(
                ResolvedType::reference(service, name, current_service, false),
            ),
        }
    }
}

impl ResolvedType {
    /// A primitive resolution: a fixed name, no dependencies.
    fn primitive(n: &str) -> (r: ResolvedType)
        ensures
            r.name@ == n@,
            r.is_class == false,
            r.wf(),
            views_of(r.deps@).to_set() == Set::<Seq<char>>::empty(),
    {
        let deps: Vec<String> = Vec::new();
        proof {
            assert(views_of(deps@) =~= Seq::<Seq<char>>::empty());
            assert(views_of(deps@).to_set() =~= Set::empty());
        }
        ResolvedType { name: String::from_str(n), is_class: false, deps }
    }

    /// A class or enumeration reference: the bare name within its own
    /// service, the qualified name (which is also a dependency) elsewhere.
    fn reference(service: &String, name: &String, current_service: &str, is_class: bool) -> (r:
        ResolvedType)
        ensures
            r.name@ == if service@ == current_service@ {
                name@
            } else {
                qualified_name(service@, name@)
            },
            r.is_class == is_class,
            r.wf(),
            views_of(r.deps@).to_set() == if service@ == current_service@ {
                Set::<Seq<char>>::empty()
            } else {
                set![qualified_name(service@, name@)]
            },
    {
        if crate::strkit::str_eq(service.as_str(), current_service) {
            let deps: Vec<String> = Vec::new();
            proof {
                assert(views_of(deps@) =~= Seq::<Seq<char>>::empty());
                assert(views_of(deps@).to_set() =~= Set::empty());
            }
            ResolvedType { name: name.clone(), is_class, deps }
        } else {
            let mut q = to_snake_case(service.as_str());
            q.append("::");
            q.append(name.as_str());
            let mut deps: Vec<String> = Vec::new();
            deps.push(q.clone());
            proof {
                assert(q@ =~= qualified_name(service@, name@));
                let vd = views_of(deps@);
                assert(vd =~= seq![q@]);
                assert(vd.to_set().contains(q@)) by {
                    assert(vd[0] == q@);
                }
                assert forall|x: Seq<char>| vd.to_set().contains(x) implies x == q@ by {
                    let k = choose|k: int| 0 <= k < vd.len() && vd[k] == x;
                }
                assert(vd.to_set() =~= set![qualified_name(service@, name@)]);
            }
            ResolvedType { name: q, is_class, deps }
        }
    }
}

/// For a single-child container the children's joint dependency set is the
/// child's.
proof fn lemma_seq_deps_single(ts: Seq<Type>, cur: Seq<char>)
    requires
        ts.len() == 1,
    ensures
        seq_deps(ts, 1, cur) == type_deps(ts[0], cur),
{
    assert(seq_deps(ts, 0, cur) =~= Set::empty());
    assert(seq_deps(ts, 1, cur) =~= type_deps(ts[0], cur));
}

/// For a two-child container it is the union of the two children's sets.
proof fn lemma_seq_deps_pair(ts: Seq<Type>, cur: Seq<char>)
    requires
        ts.len() == 2,
    ensures
        seq_deps(ts, 2, cur) == type_deps(ts[0], cur).union(type_deps(ts[1], cur)),
{
    assert(seq_deps(ts, 0, cur) =~= Set::empty());
    assert(seq_deps(ts, 1, cur) =~= type_deps(ts[0], cur));
    assert(seq_deps(ts, 2, cur) =~= type_deps(ts[0], cur).union(type_deps(ts[1], cur)));
}

} // verus!
