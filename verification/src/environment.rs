//! The logical environment, as far as the string codec reads it: atoms with
//! their names, sorts, terms with their signatures and definitions, and the
//! recorded output statements.

use vstd::prelude::*;

verus! {

/// A handle to an interned name.
#[derive(Clone, Copy, Debug, PartialEq, Eq, Structural, Hash)]
pub struct AtomID(pub u32);

/// A handle to a sort.
#[derive(Clone, Copy, Debug, PartialEq, Eq, Structural, Hash)]
pub struct SortID(pub u8);

/// A handle to a term.
#[derive(Clone, Copy, Debug, PartialEq, Eq, Structural, Hash)]
pub struct TermID(pub u32);

/// A handle to a theorem.
#[derive(Clone, Copy, Debug, PartialEq, Eq, Structural, Hash)]
pub struct ThmID(pub u32);

/// What a name is declared as.
#[derive(Clone, Copy, Debug, PartialEq, Eq, Structural)]
pub enum DeclKey {
    /// The name of a term or definition.
    Term(TermID),
    /// The name of an axiom or theorem.
    Thm(ThmID),
}

/// The type of a binder.
#[derive(Clone, Copy, Debug, PartialEq, Eq, Structural)]
pub enum Type {
    /// A bound variable of the given sort.
    Bound(SortID),
    /// A regular variable of the given sort, with the set of bound variables
    /// it may depend on as a bit mask.
    Reg(SortID, u64),
}

/// A position in a source file, as a half-open range of byte offsets.
#[derive(Clone, Copy, Debug, PartialEq, Eq, Structural)]
pub struct Span {
    pub start: usize,
    pub end: usize,
}

/// A span together with the file it lies in.
#[derive(Debug)]
pub struct FileSpan {
    pub file: String,
    pub span: Span,
}

/// The model of a [`FileSpan`].
pub ghost struct FileSpanV {
    pub file: Seq<char>,
    pub span: Span,
}

impl View for FileSpan {
    type V = FileSpanV;

    open spec fn view(&self) -> FileSpanV {
        FileSpanV { file: self.file@, span: self.span }
    }
}

impl FileSpan {
    /// A copy of this file span.
    pub fn duplicate(&self) -> (r: FileSpan)
        ensures
            r@ == self@,
    {
        FileSpan { file: self.file.clone(), span: self.span }
    }
}

/// A node of an expression DAG.
#[derive(Debug)]
pub enum ExprNode {
    /// A reference to a bound parameter or to an earlier heap slot.
    Ref(usize),
    /// A dummy variable of the given name and sort.
    Dummy(AtomID, SortID),
    /// The application of a term to its arguments.
    App(TermID, Vec<ExprNode>),
}

/// The model of an [`ExprNode`]: the same tree over mathematical sequences.
pub ghost enum Node {
    Ref(nat),
    Dummy(AtomID, SortID),
    App(TermID, Seq<Node>),
}

/// The model of a node, by recursion over the tree.
pub open spec fn node_view(e: ExprNode) -> Node
    decreases e,
{
    match e {
        ExprNode::Ref(i) => Node::Ref(i as nat),
        ExprNode::Dummy(a, s) => Node::Dummy(a, s),
        ExprNode::App(t, ns) => Node::App(
            t,
            Seq::new(
                ns@.len(),
                |i: int|
                    if 0 <= i < ns@.len() {
                        node_view(ns@[i])
                    } else {
                        Node::Ref(0)
                    },
            ),
        ),
    }
}

impl View for ExprNode {
    type V = Node;

    open spec fn view(&self) -> Node {
        node_view(*self)
    }
}

/// The models of a sequence of nodes, one by one.
pub open spec fn nodes_view(ns: Seq<ExprNode>) -> Seq<Node> {
    Seq::new(ns.len(), |i: int| ns[i]@)
}

/// The model of an application is the application of the models.
pub proof fn lemma_view_app(t: TermID, ns: Vec<ExprNode>)
    ensures
        ExprNode::App(t, ns)@ == Node::App(t, nodes_view(ns@)),
{
    let e = ExprNode::App(t, ns);
    assert(node_view(e) is App);
    assert(node_view(e)->App_1 =~= nodes_view(ns@));
}

/// An expression with its sharing made explicit: `heap` begins with the
/// formal parameters, each later entry may refer to the entries before it,
/// and `head` may refer to all of them.
#[derive(Debug)]
pub struct Expr {
    pub heap: Vec<ExprNode>,
    pub head: ExprNode,
}

/// The model of an [`Expr`].
pub ghost struct ExprV {
    pub heap: Seq<Node>,
    pub head: Node,
}

impl View for Expr {
    type V = ExprV;

    open spec fn view(&self) -> ExprV {
        ExprV { heap: nodes_view(self.heap@), head: self.head@ }
    }
}

/// What the environment knows of a name.
#[derive(Debug)]
pub struct AtomData {
    pub name: String,
    /// The sort of this name, if there is one.
    pub sort: Option<SortID>,
    /// The term or theorem of this name, if there is one.
    pub decl: Option<DeclKey>,
}

/// The model of an [`AtomData`].
pub ghost struct AtomV {
    pub name: Seq<char>,
    pub sort: Option<SortID>,
    pub decl: Option<DeclKey>,
}

impl View for AtomData {
    type V = AtomV;

    open spec fn view(&self) -> AtomV {
        AtomV { name: self.name@, sort: self.sort, decl: self.decl }
    }
}

/// A sort.
#[derive(Debug)]
pub struct Sort {
    pub atom: AtomID,
    pub name: String,
}

/// The model of a [`Sort`].
pub ghost struct SortV {
    pub atom: AtomID,
    pub name: Seq<char>,
}

impl View for Sort {
    type V = SortV;

    open spec fn view(&self) -> SortV {
        SortV { atom: self.atom, name: self.name@ }
    }
}

/// A term: abstract where `val` is `None`, else a definition, whose body may
/// be withheld.
#[derive(Debug)]
pub struct Term {
    pub atom: AtomID,
    /// The binders: an optional name and the type of each.
    pub args: Vec<(Option<AtomID>, Type)>,
    /// The sort of the result and the bound variables it depends on.
    pub ret: (SortID, u64),
    pub val: Option<Option<Expr>>,
}

/// The model of a [`Term`]: binders are known by their types alone.
pub ghost struct TermV {
    pub atom: AtomID,
    pub args: Seq<Type>,
    pub ret: (SortID, u64),
    pub val: Option<Option<ExprV>>,
}

/// The types of a list of binders.
pub open spec fn binder_types(args: Seq<(Option<AtomID>, Type)>) -> Seq<Type> {
    Seq::new(args.len(), |i: int| args[i].1)
}

impl View for Term {
    type V = TermV;

    open spec fn view(&self) -> TermV {
        TermV {
            atom: self.atom,
            args: binder_types(self.args@),
            ret: self.ret,
            val: match self.val {
                None => None,
                Some(None) => Some(None),
                Some(Some(e)) => Some(Some(e@)),
            },
        }
    }
}

impl TermV {
    /// The body of a definition, where the term has one.
    pub open spec fn body(self) -> Option<ExprV> {
        match self.val {
            Some(Some(e)) => Some(e),
            _ => None,
        }
    }
}

/// One `output string` statement: the shared heap of its expressions and
/// the expressions themselves, in order.
#[derive(Debug)]
pub struct OutputString {
    pub span: FileSpan,
    pub heap: Vec<ExprNode>,
    pub exprs: Vec<ExprNode>,
}

/// The model of an [`OutputString`].
pub ghost struct OutputStringV {
    pub span: FileSpanV,
    pub heap: Seq<Node>,
    pub exprs: Seq<Node>,
}

impl View for OutputString {
    type V = OutputStringV;

    open spec fn view(&self) -> OutputStringV {
        OutputStringV {
            span: self.span@,
            heap: nodes_view(self.heap@),
            exprs: nodes_view(self.exprs@),
        }
    }
}

/// A statement of the source file, in the order of declaration.
#[derive(Debug)]
pub enum StmtTrace {
    /// A sort declaration.
    Sort(AtomID),
    /// A term, definition, axiom or theorem.
    Decl(AtomID),
    /// A global definition of the scripting language.
    Global(AtomID),
    /// An `output string` statement.
    OutputString(OutputString),
}

/// The model of a [`StmtTrace`].
pub ghost enum StmtV {
    Sort(AtomID),
    Decl(AtomID),
    Global(AtomID),
    OutputString(OutputStringV),
}

impl View for StmtTrace {
    type V = StmtV;

    open spec fn view(&self) -> StmtV {
        match self {
            StmtTrace::Sort(a) => StmtV::Sort(*a),
            StmtTrace::Decl(a) => StmtV::Decl(*a),
            StmtTrace::Global(a) => StmtV::Global(*a),
            StmtTrace::OutputString(os) => StmtV::OutputString(os@),
        }
    }
}

/// The models of a sequence of statements, one by one.
pub open spec fn stmts_view(ss: Seq<StmtTrace>) -> Seq<StmtV> {
    Seq::new(ss.len(), |i: int| ss[i]@)
}

/// The environment: every name, sort and term declared so far, and the
/// statements in their order.
#[derive(Debug)]
pub struct Environment {
    pub data: Vec<AtomData>,
    pub sorts: Vec<Sort>,
    pub terms: Vec<Term>,
    pub stmts: Vec<StmtTrace>,
}

/// The model of the declarations of an [`Environment`].  The statements are
/// not part of it: recording a statement declares nothing.
pub ghost struct EnvV {
    pub data: Seq<AtomV>,
    pub sorts: Seq<SortV>,
    pub terms: Seq<TermV>,
}

/// The models of a sequence of atoms, one by one.
pub open spec fn atoms_view(v: Seq<AtomData>) -> Seq<AtomV> {
    Seq::new(v.len(), |i: int| v[i]@)
}

/// The models of a sequence of sorts, one by one.
pub open spec fn sorts_view(v: Seq<Sort>) -> Seq<SortV> {
    Seq::new(v.len(), |i: int| v[i]@)
}

/// The models of a sequence of terms, one by one.
pub open spec fn terms_view(v: Seq<Term>) -> Seq<TermV> {
    Seq::new(v.len(), |i: int| v[i]@)
}

impl View for Environment {
    type V = EnvV;

    open spec fn view(&self) -> EnvV {
        EnvV {
            data: atoms_view(self.data@),
            sorts: sorts_view(self.sorts@),
            terms: terms_view(self.terms@),
        }
    }
}

/// Whether every reference in `e` is below `nrefs`, every term applied in it
/// is below `bound` and declared in `terms`, and every application has as
/// many arguments as the term has binders.
pub open spec fn node_ok(terms: Seq<TermV>, e: Node, nrefs: nat, bound: nat) -> bool
    decreases e,
{
    match e {
        Node::Ref(i) => i < nrefs,
        Node::Dummy(_, _) => true,
        Node::App(t, ns) => {
            &&& t.0 < bound
            &&& t.0 < terms.len()
            &&& ns.len() == terms[t.0 as int].args.len()
            &&& forall|i: int| 0 <= i < ns.len() ==> node_ok(terms, #[trigger] ns[i], nrefs, bound)
        },
    }
}

/// Whether `heap` is a heap over `nargs` parameters: entry `i` from `nargs`
/// on refers only to entries before `i`.  (The entries below `nargs` stand
/// for the parameters and are never evaluated.)
pub open spec fn heap_ok(terms: Seq<TermV>, heap: Seq<Node>, nargs: nat, bound: nat) -> bool {
    &&& nargs <= heap.len()
    &&& forall|i: int|
        nargs <= i < heap.len() ==> node_ok(terms, #[trigger] heap[i], i as nat, bound)
}

/// Whether every root refers only to the first `nrefs` heap entries.
pub open spec fn roots_ok(terms: Seq<TermV>, roots: Seq<Node>, nrefs: nat, bound: nat) -> bool {
    forall|i: int| 0 <= i < roots.len() ==> node_ok(terms, #[trigger] roots[i], nrefs, bound)
}

/// Whether `heap` and `exprs` form a DAG over the terms of `terms`.
pub open spec fn dag_ok(terms: Seq<TermV>, heap: Seq<Node>, exprs: Seq<Node>) -> bool {
    &&& heap_ok(terms, heap, 0, terms.len())
    &&& roots_ok(terms, exprs, heap.len(), terms.len())
}

impl EnvV {
    /// Whether the definition of term `t`, if it has a body, is a heap over
    /// the term's binders that mentions only terms declared before `t`.
    pub open spec fn term_ok(self, t: int) -> bool {
        match self.terms[t].body() {
            Some(e) => {
                &&& heap_ok(self.terms, e.heap, self.terms[t].args.len(), t as nat)
                &&& node_ok(self.terms, e.head, e.heap.len(), t as nat)
            },
            None => true,
        }
    }

    /// Whether the sort and the term that atom `a` names exist and name
    /// `a` in their turn.
    pub open spec fn atom_ok(self, a: int) -> bool {
        &&& match self.data[a].sort {
            Some(s) => s.0 < self.sorts.len() && self.sorts[s.0 as int].atom.0 == a,
            None => true,
        }
        &&& match self.data[a].decl {
            Some(DeclKey::Term(t)) => t.0 < self.terms.len() && self.terms[t.0 as int].atom.0 == a,
            _ => true,
        }
    }

    /// The environment's invariant: handles fit their integer types and
    /// point into the tables, a sort or a term belongs to the one atom
    /// that names it, and definitions are well-founded.
    pub open spec fn wf(self) -> bool {
        &&& self.data.len() <= 0x1_0000_0000
        &&& self.sorts.len() <= 0x100
        &&& self.terms.len() <= 0x1_0000_0000
        &&& forall|a: int| 0 <= a < self.data.len() ==> #[trigger] self.atom_ok(a)
        &&& forall|s: int|
            0 <= s < self.sorts.len() ==> (#[trigger] self.sorts[s]).atom.0 < self.data.len()
        &&& forall|t: int| 0 <= t < self.terms.len() ==> #[trigger] self.term_ok(t)
    }

    /// The first atom of the given name among the first `n`.
    pub open spec fn atom_below(self, name: Seq<char>, n: nat) -> Option<AtomID>
        decreases n,
    {
        if n == 0 || n > self.data.len() {
            None
        } else {
            match self.atom_below(name, (n - 1) as nat) {
                Some(a) => Some(a),
                None => if self.data[n - 1].name == name {
                    Some(AtomID((n - 1) as u32))
                } else {
                    None
                },
            }
        }
    }

    /// The atom of the given name: the first, should several carry it.
    pub open spec fn atom(self, name: Seq<char>) -> Option<AtomID> {
        self.atom_below(name, self.data.len())
    }

    /// The sort of the given name.
    pub open spec fn sort_named(self, name: Seq<char>) -> Option<SortID> {
        match self.atom(name) {
            Some(a) => self.data[a.0 as int].sort,
            None => None,
        }
    }

    /// The term of the given name.
    pub open spec fn term_named(self, name: Seq<char>) -> Option<TermID> {
        match self.atom(name) {
            Some(a) => match self.data[a.0 as int].decl {
                Some(DeclKey::Term(t)) => Some(t),
                _ => None,
            },
            None => None,
        }
    }

    /// The name of sort `s`, read through its atom.
    pub open spec fn sort_name(self, s: SortID) -> Seq<char> {
        self.data[self.sorts[s.0 as int].atom.0 as int].name
    }
}

/// What `atom_below` finds: an atom of that name with none before it, or
/// nothing where no atom below `n` has the name.
pub proof fn lemma_atom_below(env: EnvV, name: Seq<char>, n: nat)
    requires
        n <= env.data.len(),
        env.data.len() <= 0x1_0000_0000,
    ensures
        match env.atom_below(name, n) {
            Some(a) => {
                &&& a.0 < n
                &&& env.data[a.0 as int].name == name
                &&& forall|j: int| 0 <= j < a.0 ==> (#[trigger] env.data[j]).name != name
            },
            None => forall|j: int| 0 <= j < n ==> (#[trigger] env.data[j]).name != name,
        },
    decreases n,
{
    if n > 0 {
        lemma_atom_below(env, name, (n - 1) as nat);
    }
}

impl Environment {
    /// The invariant of the declarations and of the recorded statements:
    /// every output statement is a DAG over the environment's terms.
    pub open spec fn wf(&self) -> bool {
        &&& self@.wf()
        &&& forall|i: int|
            0 <= i < self.stmts@.len() ==> match (#[trigger] self.stmts@[i])@ {
                StmtV::OutputString(os) => dag_ok(self@.terms, os.heap, os.exprs),
                _ => true,
            }
    }

    /// Looks a name up.
    pub fn get_atom(&self, name: &str) -> (r: Option<AtomID>)
        requires
            self@.data.len() <= 0x1_0000_0000,
        ensures
            r == self@.atom(name@),
            r matches Some(a) ==> a.0 < self@.data.len(),
    {
        let key = String::from_str(name);
        let mut i: usize = 0;
        while i < self.data.len()
            invariant
                i <= self.data.len(),
                self@.data.len() == self.data@.len(),
                self@.data.len() <= 0x1_0000_0000,
                key@ == name@,
                self@.atom_below(name@, i as nat) is None,
            decreases self.data.len() - i,
        {
            if self.data[i].name == key {
                assert(self@.data[i as int].name == name@);
                assert(self@.atom_below(name@, (i + 1) as nat) == Some(AtomID(i as u32)));
                proof {
                    lemma_atom_found(self@, name@, (i + 1) as nat, self@.data.len());
                }
                return Some(AtomID(i as u32));
            }
            assert(self@.data[i as int].name != name@);
            i += 1;
        }
        None
    }
}

/// Once an atom is found among the first `n`, it is found among any more.
pub proof fn lemma_atom_found(env: EnvV, name: Seq<char>, n: nat, m: nat)
    requires
        n <= m <= env.data.len(),
        env.atom_below(name, n) is Some,
    ensures
        env.atom_below(name, m) == env.atom_below(name, n),
    decreases m,
{
    if m > n {
        lemma_atom_found(env, name, n, (m - 1) as nat);
    }
}

} // verus!
