//! The per-file analysis pass.
//!
//! An [`Analyzer`] walks one module tree twice: a first pass gathers the
//! local names bound by import declarations, a second pass counts every
//! identifier occurrence whose name is import-bound. Matching is by bare
//! textual name only: an identifier that shadows an imported name is
//! deliberately counted like a genuine use, because the analysis keeps no
//! scope information.

use vstd::prelude::*;

use crate::ast::ImportDecl;
use crate::ast::Ident;
use crate::ast::ModuleAst;
use crate::ast::Node;
use crate::ast::decl_bindings;
use crate::ast::lemma_nodes_bindings_append;
use crate::ast::lemma_nodes_idents_append;
use crate::ast::lemma_nodes_no_imports;
use crate::ast::lemma_singleton_forest;
use crate::ast::node_bindings;
use crate::ast::node_idents;
use crate::ast::nodes_bindings;
use crate::ast::nodes_idents;
use crate::usage::UsageMap;
use crate::usage::count_in;

verus! {

/// The views of a sequence of strings.
pub open spec fn names_of(ss: Seq<String>) -> Seq<Seq<char>> {
    ss.map_values(|s: String| s@)
}

/// How often `name` occurs in a sequence of names.
pub open spec fn count_occ(names: Seq<Seq<char>>, name: Seq<char>) -> nat
    decreases names,
{
    if names.len() == 0 {
        0
    } else {
        count_occ(names.drop_last(), name) + (if names.last() == name {
            1nat
        } else {
            0nat
        })
    }
}

/// The usage mapping determined by a module's identifier occurrences and
/// its import-bound names: a bound name that occurs at least once is
/// mapped to its occurrence count; nothing else is mapped.
pub open spec fn usage_map(idents: Seq<Seq<char>>, bound: Seq<Seq<char>>) -> Map<Seq<char>, nat> {
    Map::new(
        |k: Seq<char>| bound.contains(k) && count_occ(idents, k) > 0,
        |k: Seq<char>| count_occ(idents, k),
    )
}

/// The per-file usage mapping of a module.
pub open spec fn file_usage(m: ModuleAst) -> Map<Seq<char>, nat> {
    usage_map(m.idents(), m.bindings())
}

/// Recording one identifier occurrence: a bound name's count grows by
/// one, any other name leaves the mapping unchanged.
pub open spec fn bump_map(m: Map<Seq<char>, nat>, name: Seq<char>, bound: Seq<Seq<char>>) -> Map<
    Seq<char>,
    nat,
> {
    if bound.contains(name) {
        m.insert(name, (count_in(m, name) + 1) as nat)
    } else {
        m
    }
}

/// Recording a sequence of identifier occurrences in order.
pub open spec fn bump_all(
    m: Map<Seq<char>, nat>,
    idents: Seq<Seq<char>>,
    bound: Seq<Seq<char>>,
) -> Map<Seq<char>, nat>
    decreases idents,
{
    if idents.len() == 0 {
        m
    } else {
        bump_map(bump_all(m, idents.drop_last(), bound), idents.last(), bound)
    }
}

/// The walking state of one per-file analysis: the import-bound names
/// gathered so far and the usage counts recorded so far.
pub struct Analyzer {
    pub imports: Vec<String>,
    pub usage: UsageMap,
}

/// Whether a name is among the gathered import-bound names.
fn contains_name(names: &Vec<String>, name: &String) -> (r: bool)
    ensures
        r <==> names_of(names@).contains(name@),
{
    let mut i: usize = 0;
    while i < names.len()
        invariant
            i <= names@.len(),
            forall|j: int| 0 <= j < i ==> names_of(names@)[j] != name@,
        decreases names@.len() - i,
    {
        if names[i] == *name {
            assert(names_of(names@)[i as int] == name@);
            return true;
        }
        i += 1;
    }
    false
}

impl Analyzer {
    /// A fresh analysis state: no bound names, no counts.
    pub fn new() -> (a: Analyzer)
        ensures
            a.imports@ == Seq::<String>::empty(),
            a.usage.wf(),
            a.usage@ == Map::<Seq<char>, nat>::empty(),
    {
        Analyzer { imports: Vec::new(), usage: UsageMap::new() }
    }

    /// Gather the local name of every specifier of one import declaration.
    pub fn visit_import_decl(&mut self, n: &ImportDecl)
        ensures
            names_of(final(self).imports@) == names_of(old(self).imports@) + decl_bindings(*n),
            final(self).usage == old(self).usage,
    {
        let mut i: usize = 0;
        while i < n.specifiers.len()
            invariant
                i <= n.specifiers@.len(),
                names_of(self.imports@) == names_of(old(self).imports@) + decl_bindings(
                    *n,
                ).take(i as int),
                self.usage == old(self).usage,
            decreases n.specifiers@.len() - i,
        {
            let ghost prev = self.imports@;
            let name = n.specifiers[i].local().clone();
            self.imports.push(name);
            proof {
                assert(names_of(prev.push(name)) =~= names_of(prev).push(name@));
                assert(name@ == decl_bindings(*n)[i as int]);
                assert(decl_bindings(*n).take(i as int + 1) =~= decl_bindings(*n).take(
                    i as int,
                ).push(decl_bindings(*n)[i as int]));
                assert(names_of(self.imports@) =~= names_of(old(self).imports@) + decl_bindings(
                    *n,
                ).take(i as int + 1));
            }
            i += 1;
        }
        proof {
            assert(decl_bindings(*n).take(n.specifiers@.len() as int) =~= decl_bindings(*n));
        }
    }

    /// Count one identifier occurrence, if its name is import-bound.
    pub fn visit_ident(&mut self, ident: &Ident)
        requires
            old(self).usage.wf(),
            count_in(old(self).usage@, ident.sym@) < usize::MAX,
        ensures
            final(self).usage.wf(),
            final(self).imports == old(self).imports,
            final(self).usage@ == bump_map(
                old(self).usage@,
                ident.sym@,
                names_of(old(self).imports@),
            ),
    {
        if contains_name(&self.imports, &ident.sym) {
            self.usage.bump(&ident.sym, 1);
        }
    }

    /// First pass, one node: gather the names bound by every import
    /// declaration in the subtree, in depth-first order.
    pub fn collect_node(&mut self, n: &Node)
        ensures
            names_of(final(self).imports@) == names_of(old(self).imports@) + node_bindings(*n),
            final(self).usage == old(self).usage,
        decreases *n,
    {
        match n {
            Node::Import(d) => {
                self.visit_import_decl(d);
            },
            Node::Ident(_) => {
                proof {
                    assert(names_of(self.imports@) =~= names_of(self.imports@) + node_bindings(
                        *n,
                    ));
                }
            },
            Node::Branch(children) => {
                proof {
                    assert(decreases_to!(*n => *children));
                }
                self.collect_nodes(children);
            },
        }
    }

    /// First pass, a forest: gather the names bound below every node.
    pub fn collect_nodes(&mut self, ns: &Vec<Node>)
        ensures
            names_of(final(self).imports@) == names_of(old(self).imports@) + nodes_bindings(ns@),
            final(self).usage == old(self).usage,
        decreases ns@,
    {
        proof {
            assert(ns@.take(0) =~= Seq::<Node>::empty());
            assert(names_of(self.imports@) =~= names_of(self.imports@) + nodes_bindings(
                Seq::<Node>::empty(),
            ));
        }
        let mut i: usize = 0;
        while i < ns.len()
            invariant
                i <= ns@.len(),
                names_of(self.imports@) == names_of(old(self).imports@) + nodes_bindings(
                    ns@.take(i as int),
                ),
                self.usage == old(self).usage,
            decreases ns@.len() - i,
        {
            proof {
                assert(decreases_to!(ns@ => ns@[i as int]));
            }
            self.collect_node(&ns[i]);
            proof {
                assert(ns@.take(i as int + 1) =~= ns@.take(i as int) + seq![ns@[i as int]]);
                lemma_nodes_bindings_append(ns@.take(i as int), seq![ns@[i as int]]);
                lemma_singleton_forest(ns@[i as int]);
                assert(names_of(self.imports@) =~= names_of(old(self).imports@) + nodes_bindings(
                    ns@.take(i as int + 1),
                ));
            }
            i += 1;
        }
        proof {
            assert(ns@.take(ns@.len() as int) =~= ns@);
        }
    }

    /// Second pass, one node: count every identifier occurrence in the
    /// subtree whose name is import-bound.
    pub fn count_node(&mut self, n: &Node)
        requires
            old(self).usage.wf(),
            forall|k: Seq<char>|
                count_in(old(self).usage@, k) + count_occ(node_idents(*n), k) <= usize::MAX,
        ensures
            final(self).usage.wf(),
            final(self).imports == old(self).imports,
            final(self).usage@ == bump_all(
                old(self).usage@,
                node_idents(*n),
                names_of(old(self).imports@),
            ),
        decreases *n,
    {
        match n {
            Node::Import(_) => {
                proof {
                    assert(node_idents(*n) =~= Seq::<Seq<char>>::empty());
                    assert(node_idents(*n).len() == 0);
                    assert(bump_all(
                        old(self).usage@,
                        node_idents(*n),
                        names_of(old(self).imports@),
                    ) == old(self).usage@);
                }
            },
            Node::Ident(id) => {
                proof {
                    let ids = node_idents(*n);
                    assert(ids == seq![id.sym@]);
                    assert(ids.drop_last() =~= Seq::<Seq<char>>::empty());
                    assert(count_occ(ids.drop_last(), id.sym@) == 0);
                    assert(count_occ(ids, id.sym@) == 1);
                    assert(count_in(old(self).usage@, id.sym@) + count_occ(ids, id.sym@)
                        <= usize::MAX);
                }
                self.visit_ident(id);
                proof {
                    let ids = node_idents(*n);
                    let bound = names_of(old(self).imports@);
                    assert(bump_all(old(self).usage@, ids.drop_last(), bound) == old(self).usage@);
                    assert(bump_all(old(self).usage@, ids, bound) == bump_map(
                        old(self).usage@,
                        id.sym@,
                        bound,
                    ));
                }
            },
            Node::Branch(children) => {
                proof {
                    assert(decreases_to!(*n => *children));
                    assert(node_idents(*n) == nodes_idents(children@));
                    assert forall|k: Seq<char>|
                        count_in(old(self).usage@, k) + count_occ(nodes_idents(children@), k)
                            <= usize::MAX by {
                        assert(count_in(old(self).usage@, k) + count_occ(node_idents(*n), k)
                            <= usize::MAX);
                    }
                }
                self.count_nodes(children);
            },
        }
    }

    /// Second pass, a forest: count the import-bound identifiers below
    /// every node.
    pub fn count_nodes(&mut self, ns: &Vec<Node>)
        requires
            old(self).usage.wf(),
            forall|k: Seq<char>|
                count_in(old(self).usage@, k) + count_occ(nodes_idents(ns@), k) <= usize::MAX,
        ensures
            final(self).usage.wf(),
            final(self).imports == old(self).imports,
            final(self).usage@ == bump_all(
                old(self).usage@,
                nodes_idents(ns@),
                names_of(old(self).imports@),
            ),
        decreases ns@,
    {
        let ghost bound = names_of(old(self).imports@);
        proof {
            assert(ns@.take(0) =~= Seq::<Node>::empty());
        }
        let mut i: usize = 0;
        while i < ns.len()
            invariant
                i <= ns@.len(),
                self.usage.wf(),
                self.imports == old(self).imports,
                self.usage@ == bump_all(old(self).usage@, nodes_idents(ns@.take(i as int)), bound),
                bound == names_of(old(self).imports@),
                forall|k: Seq<char>|
                    count_in(old(self).usage@, k) + count_occ(nodes_idents(ns@), k) <= usize::MAX,
            decreases ns@.len() - i,
        {
            let ghost prefix = nodes_idents(ns@.take(i as int));
            let ghost child = ns@[i as int];
            proof {
                assert(ns@.take(i as int + 1) =~= ns@.take(i as int) + seq![child]);
                lemma_nodes_idents_append(ns@.take(i as int), seq![child]);
                lemma_singleton_forest(child);
                assert(ns@ =~= ns@.take(i as int + 1) + ns@.skip(i as int + 1));
                lemma_nodes_idents_append(ns@.take(i as int + 1), ns@.skip(i as int + 1));
                assert forall|k: Seq<char>|
                    count_in(self.usage@, k) + count_occ(node_idents(child), k)
                        <= usize::MAX by {
                    lemma_bump_all_count(old(self).usage@, prefix, bound, k);
                    lemma_count_occ_append(prefix, node_idents(child), k);
                    lemma_count_occ_append(
                        nodes_idents(ns@.take(i as int + 1)),
                        nodes_idents(ns@.skip(i as int + 1)),
                        k,
                    );
                }
                assert(decreases_to!(ns@ => ns@[i as int]));
            }
            self.count_node(&ns[i]);
            proof {
                lemma_bump_all_append(old(self).usage@, prefix, node_idents(child), bound);
            }
            i += 1;
        }
        proof {
            assert(ns@.take(ns@.len() as int) =~= ns@);
        }
    }
}

/// Analyze one parsed module: the usage mapping of its import-bound
/// identifier occurrences, exactly as `file_usage` describes it.
pub fn analyze_module(m: &ModuleAst) -> (u: UsageMap)
    requires
        forall|k: Seq<char>| count_occ(m.idents(), k) <= usize::MAX,
    ensures
        u.wf(),
        u@ == file_usage(*m),
{
    let mut a = Analyzer::new();
    a.collect_nodes(&m.body);
    proof {
        assert(names_of(a.imports@) =~= m.bindings());
        assert forall|k: Seq<char>|
            count_in(a.usage@, k) + count_occ(nodes_idents(m.body@), k) <= usize::MAX by {
            assert(count_occ(m.idents(), k) <= usize::MAX);
        }
    }
    a.count_nodes(&m.body);
    proof {
        lemma_bump_all_from_empty(m.idents(), m.bindings());
    }
    a.usage
}

/// A module without import declarations has an empty usage mapping: no
/// name is bound, so no identifier occurrence is ever counted.
pub proof fn lemma_empty_imports(m: ModuleAst)
    requires
        !m.has_imports(),
    ensures
        file_usage(m) == Map::<Seq<char>, nat>::empty(),
{
    lemma_nodes_no_imports(m.body@);
    assert(file_usage(m) =~= Map::<Seq<char>, nat>::empty());
}

/// A name bound by some import of the module is reported with exactly
/// its number of identifier occurrences, whenever it occurs at all; a
/// bound name that never occurs stays out of the mapping.
pub proof fn lemma_bound_name_counted(m: ModuleAst, name: Seq<char>)
    requires
        m.bindings().contains(name),
    ensures
        count_occ(m.idents(), name) > 0 ==> file_usage(m).contains_key(name) && file_usage(m)[name]
            == count_occ(m.idents(), name),
        count_occ(m.idents(), name) == 0 ==> !file_usage(m).contains_key(name),
{
}

/// An identifier whose name no import of the module binds contributes
/// nothing: the name never appears in the module's usage mapping.
pub proof fn lemma_unbound_name_ignored(m: ModuleAst, name: Seq<char>)
    requires
        !m.bindings().contains(name),
    ensures
        !file_usage(m).contains_key(name),
{
}

/// Occurrence counts add over concatenation.
pub proof fn lemma_count_occ_append(a: Seq<Seq<char>>, b: Seq<Seq<char>>, name: Seq<char>)
    ensures
        count_occ(a + b, name) == count_occ(a, name) + count_occ(b, name),
    decreases b,
{
    if b.len() == 0 {
        assert(a + b =~= a);
    } else {
        lemma_count_occ_append(a, b.drop_last(), name);
        assert((a + b).drop_last() =~= a + b.drop_last());
        assert((a + b).last() == b.last());
    }
}

/// Recording occurrences one batch after another records them all.
pub proof fn lemma_bump_all_append(
    m: Map<Seq<char>, nat>,
    a: Seq<Seq<char>>,
    b: Seq<Seq<char>>,
    bound: Seq<Seq<char>>,
)
    ensures
        bump_all(m, a + b, bound) == bump_all(bump_all(m, a, bound), b, bound),
    decreases b,
{
    if b.len() == 0 {
        assert(a + b =~= a);
    } else {
        lemma_bump_all_append(m, a, b.drop_last(), bound);
        assert((a + b).drop_last() =~= a + b.drop_last());
        assert((a + b).last() == b.last());
    }
}

/// After recording a batch of occurrences, a name's count has grown by
/// its bound occurrence count, and no unbound name was added.
pub proof fn lemma_bump_all_count(
    m: Map<Seq<char>, nat>,
    idents: Seq<Seq<char>>,
    bound: Seq<Seq<char>>,
    k: Seq<char>,
)
    ensures
        count_in(bump_all(m, idents, bound), k) == count_in(m, k) + (if bound.contains(k) {
            count_occ(idents, k)
        } else {
            0nat
        }),
    decreases idents,
{
    if idents.len() > 0 {
        lemma_bump_all_count(m, idents.drop_last(), bound, k);
    }
}

/// Recording every identifier occurrence into an empty mapping yields
/// exactly the usage mapping of those occurrences.
pub proof fn lemma_bump_all_from_empty(idents: Seq<Seq<char>>, bound: Seq<Seq<char>>)
    ensures
        bump_all(Map::<Seq<char>, nat>::empty(), idents, bound) == usage_map(idents, bound),
    decreases idents,
{
    if idents.len() == 0 {
        assert(bump_all(Map::<Seq<char>, nat>::empty(), idents, bound) =~= usage_map(
            idents,
            bound,
        ));
    } else {
        let dl = idents.drop_last();
        let last = idents.last();
        lemma_bump_all_from_empty(dl, bound);
        assert forall|k: Seq<char>| true implies count_occ(idents, k) == count_occ(dl, k) + (
        if k == last {
            1nat
        } else {
            0nat
        }) by {}
        assert(bump_map(usage_map(dl, bound), last, bound) =~= usage_map(idents, bound));
    }
}

} // verus!
