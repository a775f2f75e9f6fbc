//! The dependency extractor: for one service, the minimal set of qualified
//! cross-service names its generated code must reference because some
//! procedure signature mentions a class or enumeration owned by another
//! service.  Type nesting depth is caller-controlled, so the traversal runs
//! on an explicit work list rather than the call stack; the result is
//! reported sorted, each name exactly once.

use vstd::prelude::*;
use crate::model::{Procedure, ProcParameter, Service, Type};
use crate::resolve::{qualified_name, seq_deps, to_snake_case, type_deps};
use crate::strkit::{sorted_insert, strictly_sorted, views_of};

verus! {

/// The dependencies contributed by the first `n` parameters of a list.
pub open spec fn param_deps(ps: Seq<ProcParameter>, n: int, cur: Seq<char>) -> Set<Seq<char>>
    decreases n,
{
    if n <= 0 || n > ps.len() {
        Set::empty()
    } else {
        param_deps(ps, n - 1, cur).union(type_deps(ps[n - 1].ty, cur))
    }
}

/// The dependencies one procedure contributes: every parameter type and, when
/// present, the return type.
pub open spec fn proc_deps(p: Procedure, cur: Seq<char>) -> Set<Seq<char>> {
    param_deps(p.parameters@, p.parameters@.len() as int, cur).union(
        match p.return_type {
            Some(t) => type_deps(t, cur),
            None => Set::empty(),
        },
    )
}

/// The dependencies of the first `n` procedures of a service's list.
pub open spec fn procs_deps(procs: Seq<(String, Procedure)>, n: int, cur: Seq<char>) -> Set<
    Seq<char>,
>
    decreases n,
{
    if n <= 0 || n > procs.len() {
        Set::empty()
    } else {
        procs_deps(procs, n - 1, cur).union(proc_deps(procs[n - 1].1, cur))
    }
}

impl Service {
    /// The whole service's dependency set, relative to its own name.
    pub open spec fn deps(self, cur: Seq<char>) -> Set<Seq<char>> {
        procs_deps(self.procedures@, self.procedures@.len() as int, cur)
    }
}

/// The joint dependencies of the first `n` type nodes on the work list.
pub open spec fn work_deps(w: Seq<&Type>, n: int, cur: Seq<char>) -> Set<Seq<char>>
    decreases n,
{
    if n <= 0 || n > w.len() {
        Set::empty()
    } else {
        work_deps(w, n - 1, cur).union(type_deps(*w[n - 1], cur))
    }
}

/// The size of a type node: itself plus all children, at any depth.
pub open spec fn type_size(t: Type) -> nat
    decreases t, 0int,
{
    match t {
        Type::List { types } => 1 + sizes_upto(types@, types@.len() as int),
        Type::SetOf { types } => 1 + sizes_upto(types@, types@.len() as int),
        Type::Dictionary { types } => 1 + sizes_upto(types@, types@.len() as int),
        Type::Tuple { types } => 1 + sizes_upto(types@, types@.len() as int),
        _ => 1,
    }
}

/// The summed sizes of the first `n` nodes of a child list.
pub open spec fn sizes_upto(ts: Seq<Type>, n: int) -> nat
    decreases ts, n,
{
    if n <= 0 || n > ts.len() {
        0
    } else {
        sizes_upto(ts, n - 1) + type_size(ts[n - 1])
    }
}

/// The summed sizes of the first `n` nodes on the work list.
pub open spec fn work_size(w: Seq<&Type>, n: int) -> nat
    decreases n,
{
    if n <= 0 || n > w.len() {
        0
    } else {
        work_size(w, n - 1) + type_size(*w[n - 1])
    }
}

/// `work_deps` and `work_size` read only the first `n` entries.
proof fn lemma_work_prefix(w1: Seq<&Type>, w2: Seq<&Type>, n: int, cur: Seq<char>)
    requires
        n <= w1.len(),
        n <= w2.len(),
        forall|i: int| 0 <= i < n ==> w1[i] == w2[i],
    ensures
        work_deps(w1, n, cur) == work_deps(w2, n, cur),
        work_size(w1, n) == work_size(w2, n),
    decreases n,
{
    if n > 0 {
        lemma_work_prefix(w1, w2, n - 1, cur);
    }
}

impl Service {
    /// Extract the sorted listing of qualified names this service's generated
    /// code must reference: every class or enumeration mentioned, at any
    /// nesting depth, in a parameter or return type of any procedure, and
    /// owned by a service other than the named current one.  Each name
    /// appears exactly once, whatever the number of mentions.
    pub fn dependencies(&self, service_name: &str) -> (r: Vec<String>)
        ensures
            strictly_sorted(views_of(r@)),
            views_of(r@).to_set() == self.deps(service_name@),
    {
        let ghost cur = service_name@;
        let mut work: Vec<&Type> = Vec::new();
        proof {
            assert(work_deps(work@, work@.len() as int, cur) =~= Set::empty());
            assert(work_size(work@, work@.len() as int) == 0);
        }
        let mut pi: usize = 0;
        // Seed the work list with every parameter type and return type.
        while pi < self.procedures.len()
            invariant
                pi <= self.procedures.len(),
                work_deps(work@, work@.len() as int, cur) == procs_deps(
                    self.procedures@,
                    pi as int,
                    cur,
                ),
                cur == service_name@,
            decreases self.procedures.len() - pi,
        {
            let proc = &self.procedures[pi].1;
            let ghost base = work_deps(work@, work@.len() as int, cur);
            let mut pj: usize = 0;
            while pj < proc.parameters.len()
                invariant
                    pj <= proc.parameters.len(),
                    work_deps(work@, work@.len() as int, cur) == base.union(
                        param_deps(proc.parameters@, pj as int, cur),
                    ),
                    cur == service_name@,
                decreases proc.parameters.len() - pj,
            {
                let ghost w0 = work@;
                work.push(&proc.parameters[pj].ty);
                proof {
                    lemma_work_prefix(work@, w0, w0.len() as int, cur);
                    assert(work_deps(work@, work@.len() as int, cur) =~= base.union(
                        param_deps(proc.parameters@, pj as int + 1, cur),
                    ));
                }
                pj += 1;
            }
            match &proc.return_type {
                Some(rt) => {
                    let ghost w0 = work@;
                    work.push(rt);
                    proof {
                        lemma_work_prefix(work@, w0, w0.len() as int, cur);
                        assert(work_deps(work@, work@.len() as int, cur) =~= base.union(
                            proc_deps(*proc, cur),
                        ));
                    }
                },
                None => {
                    proof {
                        assert(work_deps(work@, work@.len() as int, cur) =~= base.union(
                            proc_deps(*proc, cur),
                        ));
                    }
                },
            }
            proof {
                assert(base.union(proc_deps(*proc, cur)) =~= procs_deps(
                    self.procedures@,
                    pi as int + 1,
                    cur,
                ));
            }
            pi += 1;
        }
        let ghost target = self.deps(cur);
        let mut result: Vec<String> = Vec::new();
        proof {
            assert(views_of(result@) =~= Seq::<Seq<char>>::empty());
            assert(views_of(result@).to_set() =~= Set::empty());
            assert(views_of(result@).to_set().union(work_deps(work@, work@.len() as int, cur))
                =~= target);
        }
        // Drain the work list: containers spread into their children, foreign
        // references are recorded, everything else is dropped.
        loop
            invariant
                strictly_sorted(views_of(result@)),
                views_of(result@).to_set().union(work_deps(work@, work@.len() as int, cur))
                    == target,
                cur == service_name@,
            ensures
                strictly_sorted(views_of(result@)),
                work@.len() == 0,
                views_of(result@).to_set().union(work_deps(work@, work@.len() as int, cur))
                    == target,
            decreases work_size(work@, work@.len() as int),
        {
            let ghost w0 = work@;
            let t = match work.pop() {
                None => {
                    break ;
                },
                Some(t) => t,
            };
            proof {
                lemma_work_prefix(work@, w0, work@.len() as int, cur);
                assert(work_deps(w0, w0.len() as int, cur) == work_deps(
                    work@,
                    work@.len() as int,
                    cur,
                ).union(type_deps(*t, cur)));
                assert(work_size(w0, w0.len() as int) == work_size(work@, work@.len() as int)
                    + type_size(*t));
            }
            match t {
                Type::List { types } => {
                    push_children(&mut work, types, Ghost(cur));
                },
                Type::SetOf { types } => {
                    push_children(&mut work, types, Ghost(cur));
                },
                Type::Dictionary { types } => {
                    push_children(&mut work, types, Ghost(cur));
                },
                Type::Tuple { types } => {
                    push_children(&mut work, types, Ghost(cur));
                },
                Type::Class { service, name } => {
                    record_reference(&mut result, service, name, service_name);
                },
                Type::Enumeration { service, name } => {
                    record_reference(&mut result, service, name, service_name);
                },
                _ => {
                    proof {
                        assert(type_deps(*t, cur) =~= Set::empty());
                    }
                },
            }
            proof {
                assert(views_of(result@).to_set().union(work_deps(work@, work@.len() as int, cur))
                    =~= target);
            }
        }
        proof {
            assert(views_of(result@).to_set() =~= target);
        }
        result
    }
}

/// Spread a popped container into its children on the work list.
fn push_children<'a>(work: &mut Vec<&'a Type>, types: &'a Vec<Type>, Ghost(cur): Ghost<Seq<char>>)
    ensures
        work_deps(final(work)@, final(work)@.len() as int, cur) == work_deps(
            old(work)@,
            old(work)@.len() as int,
            cur,
        ).union(seq_deps(types@, types@.len() as int, cur)),
        work_size(final(work)@, final(work)@.len() as int) == work_size(
            old(work)@,
            old(work)@.len() as int,
        ) + sizes_upto(types@, types@.len() as int),
{
    let mut j: usize = 0;
    proof {
        assert(work_deps(work@, work@.len() as int, cur).union(seq_deps(types@, 0, cur))
            =~= work_deps(work@, work@.len() as int, cur));
    }
    while j < types.len()
        invariant
            j <= types.len(),
            work_deps(work@, work@.len() as int, cur) == work_deps(
                old(work)@,
                old(work)@.len() as int,
                cur,
            ).union(seq_deps(types@, j as int, cur)),
            work_size(work@, work@.len() as int) == work_size(old(work)@, old(work)@.len() as int)
                + sizes_upto(types@, j as int),
        decreases types.len() - j,
    {
        let ghost w0 = work@;
        work.push(&types[j]);
        proof {
            lemma_work_prefix(work@, w0, w0.len() as int, cur);
            assert(work_deps(work@, work@.len() as int, cur) =~= work_deps(
                old(work)@,
                old(work)@.len() as int,
                cur,
            ).union(seq_deps(types@, j as int + 1, cur)));
        }
        j += 1;
    }
}

/// Record one class or enumeration reference: foreign services contribute
/// their qualified name, the current service nothing.
fn record_reference(
    result: &mut Vec<String>,
    service: &String,
    name: &String,
    current_service: &str,
)
    requires
        strictly_sorted(views_of(old(result)@)),
    ensures
        strictly_sorted(views_of(final(result)@)),
        views_of(final(result)@).to_set() == views_of(old(result)@).to_set().union(
            if service@ == current_service@ {
                Set::<Seq<char>>::empty()
            } else {
                set![qualified_name(service@, name@)]
            },
        ),
{
    if crate::strkit::str_eq(service.as_str(), current_service) {
        proof {
            assert(views_of(result@).to_set().union(Set::<Seq<char>>::empty()) =~= views_of(
                result@,
            ).to_set());
        }
    } else {
        let mut q = to_snake_case(service.as_str());
        q.append("::");
        q.append(name.as_str());
        proof {
            assert(q@ =~= qualified_name(service@, name@));
        }
        let ghost before = views_of(result@).to_set();
        sorted_insert(result, q);
        proof {
            assert(views_of(result@).to_set() =~= before.union(
                set![qualified_name(service@, name@)],
            ));
        }
    }
}

/// Whether a type node mentions, at any depth, the class or enumeration
/// `nm` owned by service `svc`.
pub open spec fn type_mentions(t: Type, svc: Seq<char>, nm: Seq<char>) -> bool
    decreases t, 0int,
{
    match t {
        Type::List { types } => seq_mentions(types@, types@.len() as int, svc, nm),
        Type::SetOf { types } => seq_mentions(types@, types@.len() as int, svc, nm),
        Type::Dictionary { types } => seq_mentions(types@, types@.len() as int, svc, nm),
        Type::Tuple { types } => seq_mentions(types@, types@.len() as int, svc, nm),
        Type::Class { service, name } => service@ == svc && name@ == nm,
        Type::Enumeration { service, name } => service@ == svc && name@ == nm,
        _ => false,
    }
}

/// Whether any of the first `n` nodes of a child list mentions the symbol.
pub open spec fn seq_mentions(ts: Seq<Type>, n: int, svc: Seq<char>, nm: Seq<char>) -> bool
    decreases ts, n,
{
    if n <= 0 || n > ts.len() {
        false
    } else {
        seq_mentions(ts, n - 1, svc, nm) || type_mentions(ts[n - 1], svc, nm)
    }
}

/// Whether any procedure signature of the service mentions the symbol, in a
/// parameter or in the return type.
pub open spec fn service_mentions(s: Service, svc: Seq<char>, nm: Seq<char>) -> bool {
    exists|i: int|
        0 <= i < s.procedures@.len() && proc_mentions(#[trigger] s.procedures@[i].1, svc, nm)
}

/// Whether one procedure's signature mentions the symbol.
pub open spec fn proc_mentions(p: Procedure, svc: Seq<char>, nm: Seq<char>) -> bool {
    ||| exists|j: int|
        0 <= j < p.parameters@.len() && type_mentions(#[trigger] p.parameters@[j].ty, svc, nm)
    ||| p.return_type matches Some(t) && type_mentions(t, svc, nm)
}

/// A mentioned foreign symbol reaches the node's dependency set.
proof fn lemma_type_deps_complete(t: Type, cur: Seq<char>, svc: Seq<char>, nm: Seq<char>)
    requires
        type_mentions(t, svc, nm),
        svc != cur,
    ensures
        type_deps(t, cur).contains(qualified_name(svc, nm)),
    decreases t, 0int,
{
    match t {
        Type::List { types } => {
            lemma_seq_deps_complete(types@, types@.len() as int, cur, svc, nm);
        },
        Type::SetOf { types } => {
            lemma_seq_deps_complete(types@, types@.len() as int, cur, svc, nm);
        },
        Type::Dictionary { types } => {
            lemma_seq_deps_complete(types@, types@.len() as int, cur, svc, nm);
        },
        Type::Tuple { types } => {
            lemma_seq_deps_complete(types@, types@.len() as int, cur, svc, nm);
        },
        _ => {
        },
    }
}

/// The same, lifted over the first `n` nodes of a child list.
proof fn lemma_seq_deps_complete(
    ts: Seq<Type>,
    n: int,
    cur: Seq<char>,
    svc: Seq<char>,
    nm: Seq<char>,
)
    requires
        seq_mentions(ts, n, svc, nm),
        svc != cur,
    ensures
        seq_deps(ts, n, cur).contains(qualified_name(svc, nm)),
    decreases ts, n,
{
    if seq_mentions(ts, n - 1, svc, nm) {
        lemma_seq_deps_complete(ts, n - 1, cur, svc, nm);
    } else {
        lemma_type_deps_complete(ts[n - 1], cur, svc, nm);
    }
}

/// A dependency of one of the first `j + 1` parameters stays in every longer
/// parameter prefix.
proof fn lemma_param_deps_mono(ps: Seq<ProcParameter>, j: int, n: int, cur: Seq<char>, q: Seq<char>)
    requires
        0 <= j < n <= ps.len(),
        type_deps(ps[j].ty, cur).contains(q),
    ensures
        param_deps(ps, n, cur).contains(q),
    decreases n,
{
    if j < n - 1 {
        lemma_param_deps_mono(ps, j, n - 1, cur, q);
    }
}

/// A dependency of one of the first `i + 1` procedures stays in every longer
/// procedure prefix.
proof fn lemma_procs_deps_mono(
    procs: Seq<(String, Procedure)>,
    i: int,
    n: int,
    cur: Seq<char>,
    q: Seq<char>,
)
    requires
        0 <= i < n <= procs.len(),
        proc_deps(procs[i].1, cur).contains(q),
    ensures
        procs_deps(procs, n, cur).contains(q),
    decreases n,
{
    if i < n - 1 {
        lemma_procs_deps_mono(procs, i, n - 1, cur, q);
    }
}

/// A symbol mentioned by one of the first `j + 1` nodes is mentioned by
/// every longer prefix.
proof fn lemma_seq_mentions_mono(ts: Seq<Type>, j: int, n: int, svc: Seq<char>, nm: Seq<char>)
    requires
        0 <= j < n <= ts.len(),
        type_mentions(ts[j], svc, nm),
    ensures
        seq_mentions(ts, n, svc, nm),
    decreases n,
{
    if j < n - 1 {
        lemma_seq_mentions_mono(ts, j, n - 1, svc, nm);
    }
}

/// Every name in a node's dependency set is the qualified name of some
/// foreign class or enumeration the node mentions.
proof fn lemma_type_deps_sound(t: Type, cur: Seq<char>, x: Seq<char>)
    requires
        type_deps(t, cur).contains(x),
    ensures
        exists|svc: Seq<char>, nm: Seq<char>|
            #[trigger] type_mentions(t, svc, nm) && svc != cur && x == qualified_name(svc, nm),
    decreases t, 0int,
{
    match t {
        Type::List { types } => {
            lemma_container_deps_sound(t, types@, cur, x);
        },
        Type::SetOf { types } => {
            lemma_container_deps_sound(t, types@, cur, x);
        },
        Type::Dictionary { types } => {
            lemma_container_deps_sound(t, types@, cur, x);
        },
        Type::Tuple { types } => {
            lemma_container_deps_sound(t, types@, cur, x);
        },
        Type::Class { service, name } => {
            assert(type_mentions(t, service@, name@));
        },
        Type::Enumeration { service, name } => {
            assert(type_mentions(t, service@, name@));
        },
        _ => {
        },
    }
}

/// Lifts the witnesses of a child list to its containing node.
proof fn lemma_container_deps_sound(t: Type, ts: Seq<Type>, cur: Seq<char>, x: Seq<char>)
    requires
        seq_deps(ts, ts.len() as int, cur).contains(x),
        forall|svc: Seq<char>, nm: Seq<char>|
            #[trigger] type_mentions(t, svc, nm) == seq_mentions(ts, ts.len() as int, svc, nm),
    ensures
        exists|svc: Seq<char>, nm: Seq<char>|
            #[trigger] type_mentions(t, svc, nm) && svc != cur && x == qualified_name(svc, nm),
    decreases ts, ts.len() as int + 1,
{
    lemma_seq_deps_sound(ts, ts.len() as int, cur, x);
    let (svc, nm) = choose|svc: Seq<char>, nm: Seq<char>|
        #[trigger] seq_mentions(ts, ts.len() as int, svc, nm) && svc != cur && x == qualified_name(
            svc,
            nm,
        );
    assert(type_mentions(t, svc, nm));
}

proof fn lemma_seq_deps_sound(ts: Seq<Type>, n: int, cur: Seq<char>, x: Seq<char>)
    requires
        seq_deps(ts, n, cur).contains(x),
        n <= ts.len(),
    ensures
        exists|svc: Seq<char>, nm: Seq<char>|
            #[trigger] seq_mentions(ts, n, svc, nm) && svc != cur && x == qualified_name(svc, nm),
    decreases ts, n,
{
    if seq_deps(ts, n - 1, cur).contains(x) {
        lemma_seq_deps_sound(ts, n - 1, cur, x);
        let (svc, nm) = choose|svc: Seq<char>, nm: Seq<char>|
            #[trigger] seq_mentions(ts, n - 1, svc, nm) && svc != cur && x == qualified_name(
                svc,
                nm,
            );
        assert(seq_mentions(ts, n, svc, nm));
    } else {
        lemma_type_deps_sound(ts[n - 1], cur, x);
        let (svc, nm) = choose|svc: Seq<char>, nm: Seq<char>|
            #[trigger] type_mentions(ts[n - 1], svc, nm) && svc != cur && x == qualified_name(
                svc,
                nm,
            );
        lemma_seq_mentions_mono(ts, n - 1, n, svc, nm);
    }
}

/// Minimality of the extracted set: every name in a service's dependency
/// set is the qualified name of a foreign class or enumeration that some
/// procedure signature actually mentions.  Nothing is ever reported that
/// the generated code would not reference.
pub proof fn lemma_dependency_soundness(s: Service, cur: Seq<char>, x: Seq<char>)
    requires
        s.deps(cur).contains(x),
    ensures
        exists|svc: Seq<char>, nm: Seq<char>|
            #[trigger] service_mentions(s, svc, nm) && svc != cur && x == qualified_name(svc, nm),
{
    lemma_procs_deps_sound(s.procedures@, s.procedures@.len() as int, cur, x);
    let (i, svc, nm) = choose|i: int, svc: Seq<char>, nm: Seq<char>|
        0 <= i < s.procedures@.len() && #[trigger] proc_mentions(s.procedures@[i].1, svc, nm)
            && svc != cur && x == qualified_name(svc, nm);
    assert(service_mentions(s, svc, nm));
}

proof fn lemma_procs_deps_sound(procs: Seq<(String, Procedure)>, n: int, cur: Seq<char>, x: Seq<
    char,
>)
    requires
        procs_deps(procs, n, cur).contains(x),
        n <= procs.len(),
    ensures
        exists|i: int, svc: Seq<char>, nm: Seq<char>|
            0 <= i < n && #[trigger] proc_mentions(procs[i].1, svc, nm) && svc != cur && x
                == qualified_name(svc, nm),
    decreases n,
{
    if procs_deps(procs, n - 1, cur).contains(x) {
        lemma_procs_deps_sound(procs, n - 1, cur, x);
        let (i, svc, nm) = choose|i: int, svc: Seq<char>, nm: Seq<char>|
            0 <= i < n - 1 && #[trigger] proc_mentions(procs[i].1, svc, nm) && svc != cur && x
                == qualified_name(svc, nm);
        assert(0 <= i < n && proc_mentions(procs[i].1, svc, nm));
    } else {
        let p = procs[n - 1].1;
        if param_deps(p.parameters@, p.parameters@.len() as int, cur).contains(x) {
            lemma_param_deps_sound(p.parameters@, p.parameters@.len() as int, cur, x);
            let (j, svc, nm) = choose|j: int, svc: Seq<char>, nm: Seq<char>|
                0 <= j < p.parameters@.len() && #[trigger] type_mentions(
                    p.parameters@[j].ty,
                    svc,
                    nm,
                ) && svc != cur && x == qualified_name(svc, nm);
            assert(proc_mentions(p, svc, nm));
        } else {
            let t = p.return_type->0;
            lemma_type_deps_sound(t, cur, x);
            let (svc, nm) = choose|svc: Seq<char>, nm: Seq<char>|
                #[trigger] type_mentions(t, svc, nm) && svc != cur && x == qualified_name(svc, nm);
            assert(proc_mentions(p, svc, nm));
        }
    }
}

proof fn lemma_param_deps_sound(ps: Seq<ProcParameter>, n: int, cur: Seq<char>, x: Seq<char>)
    requires
        param_deps(ps, n, cur).contains(x),
        n <= ps.len(),
    ensures
        exists|j: int, svc: Seq<char>, nm: Seq<char>|
            0 <= j < n && #[trigger] type_mentions(ps[j].ty, svc, nm) && svc != cur && x
                == qualified_name(svc, nm),
    decreases n,
{
    if param_deps(ps, n - 1, cur).contains(x) {
        lemma_param_deps_sound(ps, n - 1, cur, x);
        let (j, svc, nm) = choose|j: int, svc: Seq<char>, nm: Seq<char>|
            0 <= j < n - 1 && #[trigger] type_mentions(ps[j].ty, svc, nm) && svc != cur && x
                == qualified_name(svc, nm);
        assert(0 <= j < n && type_mentions(ps[j].ty, svc, nm));
    } else {
        lemma_type_deps_sound(ps[n - 1].ty, cur, x);
        let (svc, nm) = choose|svc: Seq<char>, nm: Seq<char>|
            #[trigger] type_mentions(ps[n - 1].ty, svc, nm) && svc != cur && x == qualified_name(
                svc,
                nm,
            );
    }
}

/// Dependency completeness: a class or enumeration owned by another service
/// and mentioned, at any nesting depth, in any parameter or return type of
/// any procedure appears in the extracted listing — and exactly once, however
/// many times it is referenced.  The listing is the view of what
/// `Service::dependencies` returns.
pub proof fn lemma_dependency_completeness(
    s: Service,
    cur: Seq<char>,
    svc: Seq<char>,
    nm: Seq<char>,
    listing: Seq<Seq<char>>,
)
    requires
        strictly_sorted(listing),
        listing.to_set() == s.deps(cur),
        service_mentions(s, svc, nm),
        svc != cur,
    ensures
        exists|k: int| 0 <= k < listing.len() && listing[k] == qualified_name(svc, nm),
        forall|k1: int, k2: int|
            0 <= k1 < listing.len() && 0 <= k2 < listing.len() && listing[k1] == qualified_name(
                svc,
                nm,
            ) && listing[k2] == qualified_name(svc, nm) ==> k1 == k2,
{
    let q = qualified_name(svc, nm);
    let i = choose|i: int|
        0 <= i < s.procedures@.len() && proc_mentions(#[trigger] s.procedures@[i].1, svc, nm);
    let p = s.procedures@[i].1;
    if exists|j: int|
        0 <= j < p.parameters@.len() && type_mentions(#[trigger] p.parameters@[j].ty, svc, nm) {
        let j = choose|j: int|
            0 <= j < p.parameters@.len() && type_mentions(#[trigger] p.parameters@[j].ty, svc, nm);
        lemma_type_deps_complete(p.parameters@[j].ty, cur, svc, nm);
        lemma_param_deps_mono(p.parameters@, j, p.parameters@.len() as int, cur, q);
        assert(proc_deps(p, cur).contains(q));
    } else {
        let t = p.return_type->0;
        lemma_type_deps_complete(t, cur, svc, nm);
        assert(proc_deps(p, cur).contains(q));
    }
    lemma_procs_deps_mono(s.procedures@, i, s.procedures@.len() as int, cur, q);
    assert(listing.to_set().contains(q));
    assert(listing.contains(q));
    assert forall|k1: int, k2: int|
        0 <= k1 < listing.len() && 0 <= k2 < listing.len() && listing[k1] == q && listing[k2]
            == q implies k1 == k2 by {
        if k1 < k2 {
            assert(crate::strkit::seq_lt(listing[k1], listing[k2]));
            crate::strkit::lemma_seq_lt_trichotomy(listing[k1], listing[k2]);
        }
        if k2 < k1 {
            assert(crate::strkit::seq_lt(listing[k2], listing[k1]));
            crate::strkit::lemma_seq_lt_trichotomy(listing[k2], listing[k1]);
        }
    }
}

} // verus!
