//! The tree model of a parsed TypeScript/TSX module.
//!
//! The analysis only ever looks at two kinds of nodes: import declarations
//! (for the names they bind) and identifiers (for the references it counts).
//! Every other construct of the language is represented as an anonymous
//! branch that merely carries children, so a front end can translate any
//! parser's object model into this one without losing the information the
//! analysis needs.

use vstd::prelude::*;

verus! {

/// A single identifier occurrence, carrying its textual name.
pub struct Ident {
    pub sym: String,
}

/// One specifier of an import declaration. Each kind binds exactly one
/// local name: the (possibly aliased) named import, the local alias of the
/// default export, or the local namespace name of a `* as ns` import.
pub enum ImportSpecifier {
    Named(Ident),
    Default(Ident),
    Namespace(Ident),
}

/// An import declaration with its specifiers. Only the locally bound names
/// matter to the analysis, so the source module string is not modelled.
pub struct ImportDecl {
    pub specifiers: Vec<ImportSpecifier>,
}

/// A node of the module tree.
pub enum Node {
    /// An import declaration, contributing one binding per specifier.
    Import(ImportDecl),
    /// An identifier occurrence anywhere in the module.
    Ident(Ident),
    /// Any other construct, kept only for the nodes below it.
    Branch(Vec<Node>),
}

/// A parsed module: the sequence of its top-level nodes.
pub struct ModuleAst {
    pub body: Vec<Node>,
}

impl ImportSpecifier {
    /// The local name this specifier binds.
    pub open spec fn local_spec(self) -> Seq<char> {
        match self {
            ImportSpecifier::Named(id) => id.sym@,
            ImportSpecifier::Default(id) => id.sym@,
            ImportSpecifier::Namespace(id) => id.sym@,
        }
    }

    /// The local name this specifier binds.
    pub fn local(&self) -> (r: &String)
        ensures
            r@ == self.local_spec(),
    {
        match self {
            ImportSpecifier::Named(id) => &id.sym,
            ImportSpecifier::Default(id) => &id.sym,
            ImportSpecifier::Namespace(id) => &id.sym,
        }
    }
}

/// The names bound by one import declaration, in specifier order.
pub open spec fn decl_bindings(d: ImportDecl) -> Seq<Seq<char>> {
    d.specifiers@.map_values(|s: ImportSpecifier| s.local_spec())
}

/// The names bound by import declarations in a node's subtree, in
/// depth-first order.
pub open spec fn node_bindings(n: Node) -> Seq<Seq<char>>
    decreases n,
{
    match n {
        Node::Import(d) => decl_bindings(d),
        Node::Ident(_) => Seq::empty(),
        Node::Branch(children) => nodes_bindings(children@),
    }
}

/// The names bound by import declarations in a forest, in depth-first order.
pub open spec fn nodes_bindings(ns: Seq<Node>) -> Seq<Seq<char>>
    decreases ns,
{
    if ns.len() == 0 {
        Seq::empty()
    } else {
        node_bindings(ns.first()) + nodes_bindings(ns.drop_first())
    }
}

/// The identifier occurrences in a node's subtree, in depth-first order.
pub open spec fn node_idents(n: Node) -> Seq<Seq<char>>
    decreases n,
{
    match n {
        Node::Import(_) => Seq::empty(),
        Node::Ident(id) => seq![id.sym@],
        Node::Branch(children) => nodes_idents(children@),
    }
}

/// The identifier occurrences in a forest, in depth-first order.
pub open spec fn nodes_idents(ns: Seq<Node>) -> Seq<Seq<char>>
    decreases ns,
{
    if ns.len() == 0 {
        Seq::empty()
    } else {
        node_idents(ns.first()) + nodes_idents(ns.drop_first())
    }
}

/// Whether a node's subtree holds any import declaration at all.
pub open spec fn node_has_import(n: Node) -> bool
    decreases n,
{
    match n {
        Node::Import(_) => true,
        Node::Ident(_) => false,
        Node::Branch(children) => nodes_have_import(children@),
    }
}

/// Whether a forest holds any import declaration at all.
pub open spec fn nodes_have_import(ns: Seq<Node>) -> bool
    decreases ns,
{
    if ns.len() == 0 {
        false
    } else {
        node_has_import(ns.first()) || nodes_have_import(ns.drop_first())
    }
}

impl ModuleAst {
    /// The names bound by every import declaration of the module.
    pub open spec fn bindings(self) -> Seq<Seq<char>> {
        nodes_bindings(self.body@)
    }

    /// Every identifier occurrence of the module.
    pub open spec fn idents(self) -> Seq<Seq<char>> {
        nodes_idents(self.body@)
    }

    /// Whether the module holds any import declaration at all.
    pub open spec fn has_imports(self) -> bool {
        nodes_have_import(self.body@)
    }
}

/// Bindings of a concatenated forest are the concatenated bindings.
pub proof fn lemma_nodes_bindings_append(a: Seq<Node>, b: Seq<Node>)
    ensures
        nodes_bindings(a + b) == nodes_bindings(a) + nodes_bindings(b),
    decreases a,
{
    if a.len() == 0 {
        assert(a + b =~= b);
        assert(nodes_bindings(a) + nodes_bindings(b) =~= nodes_bindings(b));
    } else {
        lemma_nodes_bindings_append(a.drop_first(), b);
        assert((a + b).first() == a.first());
        assert((a + b).drop_first() =~= a.drop_first() + b);
        assert(node_bindings(a.first()) + (nodes_bindings(a.drop_first()) + nodes_bindings(b))
            =~= (node_bindings(a.first()) + nodes_bindings(a.drop_first())) + nodes_bindings(b));
    }
}

/// Identifiers of a concatenated forest are the concatenated identifiers.
pub proof fn lemma_nodes_idents_append(a: Seq<Node>, b: Seq<Node>)
    ensures
        nodes_idents(a + b) == nodes_idents(a) + nodes_idents(b),
    decreases a,
{
    if a.len() == 0 {
        assert(a + b =~= b);
        assert(nodes_idents(a) + nodes_idents(b) =~= nodes_idents(b));
    } else {
        lemma_nodes_idents_append(a.drop_first(), b);
        assert((a + b).first() == a.first());
        assert((a + b).drop_first() =~= a.drop_first() + b);
        assert(node_idents(a.first()) + (nodes_idents(a.drop_first()) + nodes_idents(b))
            =~= (node_idents(a.first()) + nodes_idents(a.drop_first())) + nodes_idents(b));
    }
}

/// A one-node forest binds what its node binds and holds its identifiers.
pub proof fn lemma_singleton_forest(n: Node)
    ensures
        nodes_bindings(seq![n]) == node_bindings(n),
        nodes_idents(seq![n]) == node_idents(n),
{
    assert(seq![n].drop_first() =~= Seq::<Node>::empty());
    assert(node_bindings(n) + nodes_bindings(Seq::empty()) =~= node_bindings(n));
    assert(node_idents(n) + nodes_idents(Seq::empty()) =~= node_idents(n));
}

/// A node without import declarations binds nothing.
pub proof fn lemma_node_no_imports(n: Node)
    requires
        !node_has_import(n),
    ensures
        node_bindings(n) == Seq::<Seq<char>>::empty(),
    decreases n,
{
    match n {
        Node::Import(_) => {},
        Node::Ident(_) => {},
        Node::Branch(children) => {
            lemma_nodes_no_imports(children@);
        },
    }
}

/// A forest without import declarations binds nothing.
pub proof fn lemma_nodes_no_imports(ns: Seq<Node>)
    requires
        !nodes_have_import(ns),
    ensures
        nodes_bindings(ns) == Seq::<Seq<char>>::empty(),
    decreases ns,
{
    if ns.len() > 0 {
        lemma_node_no_imports(ns.first());
        lemma_nodes_no_imports(ns.drop_first());
        assert(node_bindings(ns.first()) + nodes_bindings(ns.drop_first()) =~= Seq::<
            Seq<char>,
        >::empty());
    }
}

} // verus!
