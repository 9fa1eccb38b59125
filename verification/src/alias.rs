//! Evaluation of an expression with open parameters into a canonical
//! segment sequence.  It decides whether a definition is a built-in
//! operation under another name.

use std::collections::HashMap;
use vstd::prelude::*;
use vstd::std_specs::hash::*;
use crate::environment::{
    binder_types, heap_ok, lemma_view_app, node_ok, nodes_view, AtomID, Environment, ExprNode,
    Node, SortID, TermID, TermV, Type,
};
use crate::handlers::{should_be_def, InoutStringType};
use crate::segment::{
    canonical, lemma_finish_canonical, lemma_push_hex_wf, lemma_push_seg_wf, lemma_push_segs_wf,
    lemma_view_term, seg_canonical, seg_lists_view, segs_view, BuilderV, SegV, StringSeg,
    StringSegBuilder,
};

verus! {

/// The operation that a registry gives to a term, if any.
pub open spec fn tag_of(terms: Map<u32, InoutStringType>, t: TermID) -> Option<InoutStringType> {
    if terms.dom().contains(t.0) {
        Some(terms[t.0])
    } else {
        None
    }
}

/// Whether every term of the registry is declared and takes as many
/// arguments as its operation reads.
pub open spec fn registry_ok(terms: Seq<TermV>, reg: Map<u32, InoutStringType>) -> bool {
    forall|t: u32| #[trigger]
        reg.dom().contains(t) ==> t < terms.len() && match reg[t] {
            InoutStringType::S0 => true,
            InoutStringType::S1 => terms[t as int].args.len() >= 1,
            InoutStringType::SAdd => terms[t as int].args.len() >= 2,
            InoutStringType::SCons => terms[t as int].args.len() >= 2,
            InoutStringType::Ch => terms[t as int].args.len() >= 2,
            InoutStringType::Hex(_) => true,
        }
}

/// The sort of a binder.
pub open spec fn binder_sort(ty: Type) -> SortID {
    match ty {
        Type::Bound(s) => s,
        Type::Reg(s, _) => s,
    }
}

/// The text that reports a dummy variable in a definition under test.
pub open spec fn dummy_not_permitted() -> Seq<char> {
    "dummy not permitted"@
}

/// A builder after the evaluation of a node, and whether the evaluation
/// went through.
pub ghost struct SegOutcome {
    pub b: BuilderV,
    pub ok: bool,
}

/// What the evaluation of `e` makes of the builder `b`.
///
/// `args` are the binders of the definition at hand and `heap` the
/// sequences of its heap entries past the binders.  A reference to a binder
/// becomes a segment of its own; one to a heap entry splices that entry's
/// sequence in.  The built-in operations write their arguments in order, a
/// hex digit is pushed, and the application of any other term becomes an
/// opaque segment that holds the sequence of each argument.  A dummy
/// variable stops the evaluation, and so does one in an argument.
pub open spec fn seg_node(
    reg: Map<u32, InoutStringType>,
    args: Seq<Type>,
    heap: Seq<Seq<SegV>>,
    e: Node,
    b: BuilderV,
) -> SegOutcome
    decreases e, 0nat,
{
    match e {
        Node::Dummy(_, _) => SegOutcome { b, ok: false },
        Node::Ref(i) => if i < args.len() {
            SegOutcome { b: b.push_seg(SegV::Var(binder_sort(args[i as int]), i as u32)), ok: true }
        } else if i - args.len() < heap.len() {
            SegOutcome { b: b.splice(heap[i - args.len()]), ok: true }
        } else {
            SegOutcome { b, ok: true }
        },
        Node::App(t, ns) => match tag_of(reg, t) {
            Some(InoutStringType::S0) => SegOutcome { b, ok: true },
            Some(InoutStringType::S1) => if ns.len() >= 1 {
                seg_node(reg, args, heap, ns[0], b)
            } else {
                SegOutcome { b, ok: true }
            },
            Some(InoutStringType::Hex(h)) => SegOutcome { b: b.push_hex(h), ok: true },
            Some(_) => if ns.len() >= 2 {
                let first = seg_node(reg, args, heap, ns[0], b);
                if first.ok {
                    seg_node(reg, args, heap, ns[1], first.b)
                } else {
                    first
                }
            } else {
                SegOutcome { b, ok: true }
            },
            None => match seg_args(reg, args, heap, ns, ns.len()) {
                Some(parts) => SegOutcome { b: b.push_seg(SegV::Term(t, parts)), ok: true },
                None => SegOutcome { b, ok: false },
            },
        },
    }
}

/// The finished sequences of the first `n` nodes of `ns`, each evaluated
/// by itself; nothing where one of them fails.
pub open spec fn seg_args(
    reg: Map<u32, InoutStringType>,
    args: Seq<Type>,
    heap: Seq<Seq<SegV>>,
    ns: Seq<Node>,
    n: nat,
) -> Option<Seq<Seq<SegV>>>
    decreases ns, n,
{
    if n == 0 || n > ns.len() {
        Some(Seq::empty())
    } else {
        match seg_args(reg, args, heap, ns, (n - 1) as nat) {
            None => None,
            Some(parts) => {
                let one = seg_node(reg, args, heap, ns[n - 1], BuilderV::empty());
                if one.ok {
                    Some(parts.push(one.b.finish()))
                } else {
                    None
                }
            },
        }
    }
}

/// The finished sequence of one node evaluated by itself.
pub open spec fn seg_alone(
    reg: Map<u32, InoutStringType>,
    args: Seq<Type>,
    heap: Seq<Seq<SegV>>,
    e: Node,
) -> Option<Seq<SegV>> {
    let one = seg_node(reg, args, heap, e, BuilderV::empty());
    if one.ok {
        Some(one.b.finish())
    } else {
        None
    }
}

/// The sequences of the heap entries of a definition from its binders up
/// to entry `n`, each evaluated over those before it; nothing where one of
/// them fails.
pub open spec fn seg_heap(
    reg: Map<u32, InoutStringType>,
    args: Seq<Type>,
    heap: Seq<Node>,
    n: nat,
) -> Option<Seq<Seq<SegV>>>
    decreases n,
{
    if n <= args.len() || n > heap.len() {
        Some(Seq::empty())
    } else {
        match seg_heap(reg, args, heap, (n - 1) as nat) {
            None => None,
            Some(refs) => match seg_alone(reg, args, refs, heap[n - 1]) {
                Some(s) => Some(refs.push(s)),
                None => None,
            },
        }
    }
}

/// The canonical sequence of a definition's body: its heap is evaluated
/// entry by entry, then its head over all of them.  A term without a body
/// gives the text that asks for a definition; a dummy variable gives the
/// text that reports it.
pub open spec fn process_def_spec(
    reg: Map<u32, InoutStringType>,
    td: TermV,
    name: Seq<char>,
) -> Result<Seq<SegV>, Seq<char>> {
    match td.body() {
        None => Err(should_be_def(name)),
        Some(e) => match seg_heap(reg, td.args, e.heap, e.heap.len()) {
            None => Err(dummy_not_permitted()),
            Some(refs) => match seg_alone(reg, td.args, refs, e.head) {
                None => Err(dummy_not_permitted()),
                Some(s) => Ok(s),
            },
        },
    }
}

/// Once an argument has failed, the arguments as a whole have.
pub proof fn lemma_seg_args_fail(
    reg: Map<u32, InoutStringType>,
    args: Seq<Type>,
    heap: Seq<Seq<SegV>>,
    ns: Seq<Node>,
    n: nat,
    m: nat,
)
    requires
        n <= m <= ns.len(),
        seg_args(reg, args, heap, ns, n) is None,
    ensures
        seg_args(reg, args, heap, ns, m) is None,
    decreases m,
{
    if m > n {
        lemma_seg_args_fail(reg, args, heap, ns, n, (m - 1) as nat);
    }
}

/// Once a heap entry has failed, the heap as a whole has.
pub proof fn lemma_seg_heap_fail(
    reg: Map<u32, InoutStringType>,
    args: Seq<Type>,
    heap: Seq<Node>,
    n: nat,
    m: nat,
)
    requires
        n <= m <= heap.len(),
        seg_heap(reg, args, heap, n) is None,
    ensures
        seg_heap(reg, args, heap, m) is None,
    decreases m,
{
    if m > n {
        lemma_seg_heap_fail(reg, args, heap, n, (m - 1) as nat);
    }
}

/// Whether every sequence of `heap` is canonical.
pub open spec fn all_canonical(heap: Seq<Seq<SegV>>) -> bool {
    forall|i: int| 0 <= i < heap.len() ==> canonical(#[trigger] heap[i])
}

/// Evaluation over canonical sequences keeps the builder's invariant,
/// whether or not it goes through.
pub proof fn lemma_seg_node_wf(
    reg: Map<u32, InoutStringType>,
    args: Seq<Type>,
    heap: Seq<Seq<SegV>>,
    e: Node,
    b: BuilderV,
)
    requires
        b.wf(),
        all_canonical(heap),
    ensures
        seg_node(reg, args, heap, e, b).b.wf(),
    decreases e, 0nat,
{
    match e {
        Node::Dummy(_, _) => {},
        Node::Ref(i) => {
            if i < args.len() {
                lemma_push_seg_wf(b, SegV::Var(binder_sort(args[i as int]), i as u32));
            } else if i - args.len() < heap.len() {
                let slot = heap[i - args.len()];
                lemma_push_segs_wf(b, slot, slot.len());
            }
        },
        Node::App(t, ns) => match tag_of(reg, t) {
            Some(InoutStringType::S0) => {},
            Some(InoutStringType::S1) => {
                if ns.len() >= 1 {
                    lemma_seg_node_wf(reg, args, heap, ns[0], b);
                }
            },
            Some(InoutStringType::Hex(h)) => {
                lemma_push_hex_wf(b, h);
            },
            Some(_) => {
                if ns.len() >= 2 {
                    lemma_seg_node_wf(reg, args, heap, ns[0], b);
                    let first = seg_node(reg, args, heap, ns[0], b);
                    lemma_seg_node_wf(reg, args, heap, ns[1], first.b);
                }
            },
            None => {
                lemma_seg_args_canonical(reg, args, heap, ns, ns.len());
                match seg_args(reg, args, heap, ns, ns.len()) {
                    Some(parts) => {
                        assert(seg_canonical(SegV::Term(t, parts))) by {
                            assert forall|i: int| 0 <= i < parts.len() implies canonical(
                                #[trigger] parts[i],
                            ) by {}
                        }
                        lemma_push_seg_wf(b, SegV::Term(t, parts));
                    },
                    None => {},
                }
            },
        },
    }
}

/// The sequences of arguments evaluated over canonical sequences are
/// canonical.
pub proof fn lemma_seg_args_canonical(
    reg: Map<u32, InoutStringType>,
    args: Seq<Type>,
    heap: Seq<Seq<SegV>>,
    ns: Seq<Node>,
    n: nat,
)
    requires
        all_canonical(heap),
    ensures
        seg_args(reg, args, heap, ns, n) matches Some(parts) ==> all_canonical(parts),
    decreases ns, n,
{
    if n > 0 && n <= ns.len() {
        lemma_seg_args_canonical(reg, args, heap, ns, (n - 1) as nat);
        lemma_seg_node_wf(reg, args, heap, ns[n - 1], BuilderV::empty());
        lemma_finish_canonical(seg_node(reg, args, heap, ns[n - 1], BuilderV::empty()).b);
    }
}

/// The sequences of a definition's heap entries are canonical.
pub proof fn lemma_seg_heap_canonical(
    reg: Map<u32, InoutStringType>,
    args: Seq<Type>,
    heap: Seq<Node>,
    n: nat,
)
    ensures
        seg_heap(reg, args, heap, n) matches Some(refs) ==> all_canonical(refs),
    decreases n,
{
    if n > args.len() && n <= heap.len() {
        lemma_seg_heap_canonical(reg, args, heap, (n - 1) as nat);
        match seg_heap(reg, args, heap, (n - 1) as nat) {
            Some(refs) => {
                lemma_seg_node_wf(reg, args, refs, heap[n - 1], BuilderV::empty());
                lemma_finish_canonical(seg_node(reg, args, refs, heap[n - 1], BuilderV::empty()).b);
            },
            None => {},
        }
    }
}

/// The sequence that a definition's body comes to is canonical: no two
/// literal runs are neighbours, and no literal run is empty.
pub proof fn lemma_process_def_canonical(
    reg: Map<u32, InoutStringType>,
    td: TermV,
    name: Seq<char>,
)
    ensures
        process_def_spec(reg, td, name) matches Ok(s) ==> canonical(s),
{
    match td.body() {
        Some(e) => {
            lemma_seg_heap_canonical(reg, td.args, e.heap, e.heap.len());
            match seg_heap(reg, td.args, e.heap, e.heap.len()) {
                Some(refs) => {
                    lemma_seg_node_wf(reg, td.args, refs, e.head, BuilderV::empty());
                    lemma_finish_canonical(
                        seg_node(reg, td.args, refs, e.head, BuilderV::empty()).b,
                    );
                },
                None => {},
            }
        },
        None => {},
    }
}

impl Environment {
    /// Evaluates one node into the builder `out`.
    pub fn process_node(
        &self,
        terms: &HashMap<u32, InoutStringType>,
        args: &[(Option<AtomID>, Type)],
        e: &ExprNode,
        heap: &Vec<Vec<StringSeg>>,
        out: &mut StringSegBuilder,
    ) -> (r: Result<(), String>)
        requires
            node_ok(self@.terms, e@, (args@.len() + heap@.len()) as nat, self@.terms.len()),
            registry_ok(self@.terms, terms@),
        ensures
            final(out)@ == seg_node(
                terms@,
                binder_types(args@),
                seg_lists_view(heap@),
                e@,
                old(out)@,
            ).b,
            r is Ok <==> seg_node(
                terms@,
                binder_types(args@),
                seg_lists_view(heap@),
                e@,
                old(out)@,
            ).ok,
            r matches Err(m) ==> m@ == dummy_not_permitted(),
            old(out)@.wf() && all_canonical(seg_lists_view(heap@)) ==> final(out)@.wf(),
        decreases e,
    {
        broadcast use group_hash_axioms;

        proof {
            if old(out)@.wf() && all_canonical(seg_lists_view(heap@)) {
                lemma_seg_node_wf(
                    terms@,
                    binder_types(args@),
                    seg_lists_view(heap@),
                    e@,
                    old(out)@,
                );
            }
        }

        match e {
            ExprNode::Dummy(_, _) => Err(String::from_str("dummy not permitted")),
            ExprNode::Ref(i) => {
                if *i < args.len() {
                    let sort = match args[*i].1 {
                        Type::Bound(s) => s,
                        Type::Reg(s, _) => s,
                    };
                    let pos =
                    #[verifier::truncate]
                    (*i as u32);
                    out.push_seg(StringSeg::Var(sort, pos));
                } else {
                    out.splice(&heap[*i - args.len()]);
                }
                Ok(())
            },
            ExprNode::App(t, ns) => {
                proof {
                    lemma_view_app(*t, *ns);
                }
                assert(*ns == e->App_1);
                assert(decreases_to!(*e => e->App_1));
                match terms.get(&t.0) {
                    Some(InoutStringType::S0) => Ok(()),
                    Some(InoutStringType::S1) => {
                        assert(decreases_to!(*ns => ns[0]));
                        self.process_node(terms, args, &ns[0], heap, out)
                    },
                    Some(InoutStringType::SAdd) | Some(InoutStringType::SCons) | Some(
                        InoutStringType::Ch,
                    ) => {
                        assert(decreases_to!(*ns => ns[0]));
                        assert(decreases_to!(*ns => ns[1]));
                        match self.process_node(terms, args, &ns[0], heap, out) {
                            Ok(()) => self.process_node(terms, args, &ns[1], heap, out),
                            Err(m) => Err(m),
                        }
                    },
                    Some(InoutStringType::Hex(h)) => {
                        out.push_hex(*h);
                        Ok(())
                    },
                    None => {
                        let ghost nodes = nodes_view(ns@);
                        let mut parts: Vec<Vec<StringSeg>> = Vec::new();
                        let mut i: usize = 0;
                        while i < ns.len()
                            invariant
                                i <= ns.len(),
                                *e == ExprNode::App(*t, *ns),
                                e@ == Node::App(*t, nodes),
                                tag_of(terms@, *t) is None,
                                out@ == old(out)@,
                                nodes == nodes_view(ns@),
                                registry_ok(self@.terms, terms@),
                                forall|j: int|
                                    0 <= j < nodes.len() ==> node_ok(
                                        self@.terms,
                                        #[trigger] nodes[j],
                                        (args@.len() + heap@.len()) as nat,
                                        self@.terms.len(),
                                    ),
                                seg_args(
                                    terms@,
                                    binder_types(args@),
                                    seg_lists_view(heap@),
                                    nodes,
                                    i as nat,
                                ) == Some(seg_lists_view(parts@)),
                            decreases ns.len() - i,
                        {
                            assert(decreases_to!(*e => e->App_1));
                            assert(decreases_to!(*ns => ns[i as int]));
                            assert(nodes[i as int] == ns[i as int]@);
                            let mut arg = StringSegBuilder::default();
                            match self.process_node(terms, args, &ns[i], heap, &mut arg) {
                                Ok(()) => {},
                                Err(m) => {
                                    proof {
                                        lemma_seg_args_fail(
                                            terms@,
                                            binder_types(args@),
                                            seg_lists_view(heap@),
                                            nodes,
                                            (i + 1) as nat,
                                            nodes.len(),
                                        );
                                    }
                                    return Err(m);
                                },
                            }
                            let ghost before = seg_lists_view(parts@);
                            let done = arg.finish();
                            parts.push(done);
                            assert(seg_lists_view(parts@) =~= before.push(segs_view(done@)));
                            i += 1;
                        }
                        proof {
                            lemma_view_term(*t, parts);
                        }
                        out.push_seg(StringSeg::Term(*t, parts));
                        Ok(())
                    },
                }
            },
        }
    }

    /// Evaluates the body of the definition `t`, called `name` in messages.
    pub fn process_def(&self, terms: &HashMap<u32, InoutStringType>, t: TermID, name: &str) -> (r:
        Result<Vec<StringSeg>, String>)
        requires
            self@.wf(),
            t.0 < self@.terms.len(),
            registry_ok(self@.terms, terms@),
        ensures
            match (r, process_def_spec(terms@, self@.terms[t.0 as int], name@)) {
                (Ok(v), Ok(s)) => segs_view(v@) == s,
                (Err(m), Err(e)) => m@ == e,
                _ => false,
            },
            r matches Ok(v) ==> canonical(segs_view(v@)),
    {
        proof {
            lemma_process_def_canonical(terms@, self@.terms[t.0 as int], name@);
        }
        let td = &self.terms[t.0 as usize];
        assert(td@ == self@.terms[t.0 as int]);
        assert(self@.term_ok(t.0 as int));
        match &td.val {
            Some(Some(expr)) => {
                let ghost tys = binder_types(td.args@);
                let ghost nodes = nodes_view(expr.heap@);
                let nargs = td.args.len();
                let mut refs: Vec<Vec<StringSeg>> = Vec::new();
                let mut i: usize = nargs;
                proof {
                    assert(seg_lists_view(refs@) =~= Seq::empty());
                }
                while i < expr.heap.len()
                    invariant
                        nargs == td.args@.len(),
                        nargs <= i <= expr.heap.len(),
                        tys == binder_types(td.args@),
                        nodes == nodes_view(expr.heap@),
                        self@.terms[t.0 as int].body() == Some(expr@),
                        self@.terms[t.0 as int].args == tys,
                        refs@.len() == i - nargs,
                        registry_ok(self@.terms, terms@),
                        heap_ok(self@.terms, nodes, nargs as nat, t.0 as nat),
                        t.0 < self@.terms.len(),
                        seg_heap(terms@, tys, nodes, i as nat) == Some(seg_lists_view(refs@)),
                    decreases expr.heap.len() - i,
                {
                    assert(nodes[i as int] == expr.heap[i as int]@);
                    proof {
                        lemma_node_ok_wider(
                            self@.terms,
                            nodes[i as int],
                            i as nat,
                            t.0 as nat,
                            self@.terms.len(),
                        );
                    }
                    let mut out = StringSegBuilder::default();
                    match self.process_node(
                        terms,
                        td.args.as_slice(),
                        &expr.heap[i],
                        &refs,
                        &mut out,
                    ) {
                        Ok(()) => {},
                        Err(m) => {
                            proof {
                                lemma_seg_heap_fail(
                                    terms@,
                                    tys,
                                    nodes,
                                    (i + 1) as nat,
                                    nodes.len(),
                                );
                            }
                            return Err(m);
                        },
                    }
                    let ghost before = seg_lists_view(refs@);
                    let done = out.finish();
                    refs.push(done);
                    assert(seg_lists_view(refs@) =~= before.push(segs_view(done@)));
                    i += 1;
                }
                proof {
                    lemma_node_ok_wider(
                        self@.terms,
                        expr.head@,
                        nodes.len(),
                        t.0 as nat,
                        self@.terms.len(),
                    );
                }
                let mut out = StringSegBuilder::default();
                match self.process_node(terms, td.args.as_slice(), &expr.head, &refs, &mut out) {
                    Ok(()) => Ok(out.finish()),
                    Err(m) => Err(m),
                }
            },
            _ => {
                let mut m = String::from_str("term '");
                m.append(name);
                m.append("' should be a def");
                Err(m)
            },
        }
    }
}

/// A node that is in order below a bound is in order below any greater.
pub proof fn lemma_node_ok_wider(terms: Seq<TermV>, e: Node, nrefs: nat, bound: nat, wider: nat)
    requires
        node_ok(terms, e, nrefs, bound),
        bound <= wider,
    ensures
        node_ok(terms, e, nrefs, wider),
    decreases e,
{
    match e {
        Node::App(t, ns) => {
            assert forall|i: int| 0 <= i < ns.len() implies node_ok(
                terms,
                #[trigger] ns[i],
                nrefs,
                wider,
            ) by {
                lemma_node_ok_wider(terms, ns[i], nrefs, bound, wider);
            }
        },
        _ => {},
    }
}

} // verus!
