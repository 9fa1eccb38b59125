//! Writing expressions of sort `string` as bytes.

use std::collections::HashMap;
use vstd::prelude::*;
use vstd::std_specs::hash::*;
use crate::alias::{registry_ok, tag_of};
use crate::environment::{
    heap_ok, lemma_view_app, node_ok, nodes_view, roots_ok, Environment, ExprNode, Node, TermV,
};
use crate::handlers::InoutStringType;
use crate::writer::{
    lemma_from_writer, parts_view, OutputError, PartV, StringPart, StringWriter, WriterV,
};

verus! {

/// Why an expression cannot be written.
pub ghost enum EvalError {
    /// It holds a dummy variable.
    DummyNotAllowed,
    /// It applies a term that is neither built in nor a definition with a
    /// body.
    UnknownDefinition,
}

impl EvalError {
    /// The text that reports the error.
    pub open spec fn text(self) -> Seq<char> {
        match self {
            EvalError::DummyNotAllowed => "Found dummy variable in string definition"@,
            EvalError::UnknownDefinition => "Unknown definition"@,
        }
    }
}

/// A writer after an expression was written to it, and the error that
/// stopped the writing, if one did.  What was written before the error
/// stays written.
pub ghost struct WriteOutcome {
    pub w: WriterV,
    pub err: Option<EvalError>,
}

/// What writing `e` makes of the writer `w`.
///
/// `heap` holds what the nodes that `e` may refer to came to.  A reference
/// replays its part.  The built-in operations write their arguments in
/// order, and a hex digit is written as such.  Any other term must be a
/// definition with a body, declared below `bound`: its arguments are each
/// written by themselves, then its heap entries past the parameters, each
/// over the arguments and the entries before it, and at last its head is
/// written to `w` over all of them.
pub open spec fn write_node_spec(
    terms: Seq<TermV>,
    reg: Map<u32, InoutStringType>,
    bound: nat,
    heap: Seq<PartV>,
    e: Node,
    w: WriterV,
) -> WriteOutcome
    decreases bound, e, 0nat,
{
    match e {
        Node::Dummy(_, _) => WriteOutcome { w, err: Some(EvalError::DummyNotAllowed) },
        Node::Ref(i) => if i < heap.len() {
            WriteOutcome { w: w.write_part(heap[i as int]), err: None }
        } else {
            WriteOutcome { w, err: None }
        },
        Node::App(t, ns) => match tag_of(reg, t) {
            Some(InoutStringType::S0) => WriteOutcome { w, err: None },
            Some(InoutStringType::S1) => if ns.len() >= 1 {
                write_node_spec(terms, reg, bound, heap, ns[0], w)
            } else {
                WriteOutcome { w, err: None }
            },
            Some(InoutStringType::Hex(h)) => WriteOutcome { w: w.write_hex(h), err: None },
            Some(_) => if ns.len() >= 2 {
                let first = write_node_spec(terms, reg, bound, heap, ns[0], w);
                if first.err is None {
                    write_node_spec(terms, reg, bound, heap, ns[1], first.w)
                } else {
                    first
                }
            } else {
                WriteOutcome { w, err: None }
            },
            None => if t.0 < bound && t.0 < terms.len() {
                match terms[t.0 as int].body() {
                    None => WriteOutcome { w, err: Some(EvalError::UnknownDefinition) },
                    Some(body) => match eval_args(terms, reg, bound, heap, ns, ns.len()) {
                        Err(x) => WriteOutcome { w, err: Some(x) },
                        Ok(args) => match eval_heap(
                            terms,
                            reg,
                            t.0 as nat,
                            args,
                            body.heap,
                            body.heap.len(),
                        ) {
                            Err(x) => WriteOutcome { w, err: Some(x) },
                            Ok(frame) => write_node_spec(
                                terms,
                                reg,
                                t.0 as nat,
                                frame,
                                body.head,
                                w,
                            ),
                        },
                    },
                }
            } else {
                WriteOutcome { w, err: Some(EvalError::UnknownDefinition) }
            },
        },
    }
}

/// What `e` comes to when it is written by itself, to a writer that has
/// written nothing.
pub open spec fn eval_part(
    terms: Seq<TermV>,
    reg: Map<u32, InoutStringType>,
    bound: nat,
    heap: Seq<PartV>,
    e: Node,
) -> Result<PartV, EvalError>
    decreases bound, e, 1nat,
{
    let o = write_node_spec(terms, reg, bound, heap, e, WriterV::empty());
    match o.err {
        Some(x) => Err(x),
        None => Ok(o.w.into_part()),
    }
}

/// The parts of the first `n` nodes of `ns`, each written by itself over
/// `heap`; or the first error.
pub open spec fn eval_args(
    terms: Seq<TermV>,
    reg: Map<u32, InoutStringType>,
    bound: nat,
    heap: Seq<PartV>,
    ns: Seq<Node>,
    n: nat,
) -> Result<Seq<PartV>, EvalError>
    decreases bound, ns, n,
{
    if n == 0 || n > ns.len() {
        Ok(Seq::empty())
    } else {
        match eval_args(terms, reg, bound, heap, ns, (n - 1) as nat) {
            Err(x) => Err(x),
            Ok(parts) => match eval_part(terms, reg, bound, heap, ns[n - 1]) {
                Err(x) => Err(x),
                Ok(p) => Ok(parts.push(p)),
            },
        }
    }
}

/// The parts `parts`, followed by those of the nodes of `nodes` from
/// position `parts.len()` up to `n`, each written by itself over all the
/// parts before it; or the first error.
pub open spec fn eval_heap(
    terms: Seq<TermV>,
    reg: Map<u32, InoutStringType>,
    bound: nat,
    parts: Seq<PartV>,
    nodes: Seq<Node>,
    n: nat,
) -> Result<Seq<PartV>, EvalError>
    decreases bound, nodes, n,
{
    if n <= parts.len() || n > nodes.len() {
        Ok(parts)
    } else {
        match eval_heap(terms, reg, bound, parts, nodes, (n - 1) as nat) {
            Err(x) => Err(x),
            Ok(before) => match eval_part(terms, reg, bound, before, nodes[n - 1]) {
                Err(x) => Err(x),
                Ok(p) => Ok(before.push(p)),
            },
        }
    }
}

/// What writing the first `n` of the expressions `exprs`, in order, makes
/// of the writer `w`.
pub open spec fn write_roots(
    terms: Seq<TermV>,
    reg: Map<u32, InoutStringType>,
    heap: Seq<PartV>,
    exprs: Seq<Node>,
    n: nat,
    w: WriterV,
) -> WriteOutcome
    decreases n,
{
    if n == 0 || n > exprs.len() {
        WriteOutcome { w, err: None }
    } else {
        let before = write_roots(terms, reg, heap, exprs, (n - 1) as nat, w);
        if before.err is None {
            write_node_spec(terms, reg, terms.len(), heap, exprs[n - 1], before.w)
        } else {
            before
        }
    }
}

/// What writing an output statement makes of the writer `w`: the heap is
/// resolved entry by entry, then the expressions are written in order.
pub open spec fn write_output_spec(
    terms: Seq<TermV>,
    reg: Map<u32, InoutStringType>,
    heap: Seq<Node>,
    exprs: Seq<Node>,
    w: WriterV,
) -> WriteOutcome {
    match eval_heap(terms, reg, terms.len(), Seq::empty(), heap, heap.len()) {
        Err(x) => WriteOutcome { w, err: Some(x) },
        Ok(parts) => write_roots(terms, reg, parts, exprs, exprs.len(), w),
    }
}

/// Whether the result of a write is the one that the outcome names.
pub open spec fn reports(r: Result<(), OutputError>, o: WriteOutcome) -> bool {
    match r {
        Ok(()) => o.err is None,
        Err(e) => o.err matches Some(x) && e.is_msg(x.text()),
    }
}

/// A node resolves to a part exactly where writing it by itself succeeds.
pub proof fn lemma_eval_part(
    terms: Seq<TermV>,
    reg: Map<u32, InoutStringType>,
    bound: nat,
    heap: Seq<PartV>,
    e: Node,
)
    ensures
        eval_part(terms, reg, bound, heap, e) == (match write_node_spec(
            terms,
            reg,
            bound,
            heap,
            e,
            WriterV::empty(),
        ).err {
            Some(x) => Err::<PartV, _>(x),
            None => Ok(
                write_node_spec(terms, reg, bound, heap, e, WriterV::empty()).w.into_part(),
            ),
        }),
{
    reveal_with_fuel(eval_part, 2);
}

/// The heap up to entry `n` is the heap up to the entry before, followed
/// by the part of that entry.
pub proof fn lemma_eval_heap_step(
    terms: Seq<TermV>,
    reg: Map<u32, InoutStringType>,
    bound: nat,
    parts: Seq<PartV>,
    nodes: Seq<Node>,
    n: nat,
)
    requires
        parts.len() < n <= nodes.len(),
    ensures
        eval_heap(terms, reg, bound, parts, nodes, n) == (match eval_heap(
            terms,
            reg,
            bound,
            parts,
            nodes,
            (n - 1) as nat,
        ) {
            Err(x) => Err::<Seq<PartV>, _>(x),
            Ok(before) => match eval_part(terms, reg, bound, before, nodes[n - 1]) {
                Err(x) => Err(x),
                Ok(p) => Ok(before.push(p)),
            },
        }),
{
}

/// Arguments that resolve give one part each.
pub proof fn lemma_eval_args_len(
    terms: Seq<TermV>,
    reg: Map<u32, InoutStringType>,
    bound: nat,
    heap: Seq<PartV>,
    ns: Seq<Node>,
    n: nat,
)
    requires
        n <= ns.len(),
    ensures
        eval_args(terms, reg, bound, heap, ns, n) matches Ok(parts) ==> parts.len() == n,
    decreases n,
{
    if n > 0 {
        lemma_eval_args_len(terms, reg, bound, heap, ns, (n - 1) as nat);
    }
}

/// The first error among the arguments is the error of all of them.
pub proof fn lemma_eval_args_fail(
    terms: Seq<TermV>,
    reg: Map<u32, InoutStringType>,
    bound: nat,
    heap: Seq<PartV>,
    ns: Seq<Node>,
    n: nat,
    m: nat,
)
    requires
        n <= m <= ns.len(),
        eval_args(terms, reg, bound, heap, ns, n) is Err,
    ensures
        eval_args(terms, reg, bound, heap, ns, m) == eval_args(terms, reg, bound, heap, ns, n),
    decreases m,
{
    if m > n {
        lemma_eval_args_fail(terms, reg, bound, heap, ns, n, (m - 1) as nat);
    }
}

/// The first error in a heap is the error of the whole heap.
pub proof fn lemma_eval_heap_fail(
    terms: Seq<TermV>,
    reg: Map<u32, InoutStringType>,
    bound: nat,
    parts: Seq<PartV>,
    nodes: Seq<Node>,
    n: nat,
    m: nat,
)
    requires
        n <= m <= nodes.len(),
        eval_heap(terms, reg, bound, parts, nodes, n) is Err,
    ensures
        eval_heap(terms, reg, bound, parts, nodes, m) == eval_heap(
            terms,
            reg,
            bound,
            parts,
            nodes,
            n,
        ),
    decreases m,
{
    if m > n {
        lemma_eval_heap_fail(terms, reg, bound, parts, nodes, n, (m - 1) as nat);
    }
}

/// Once an expression has failed, those after it are not written.
pub proof fn lemma_write_roots_fail(
    terms: Seq<TermV>,
    reg: Map<u32, InoutStringType>,
    heap: Seq<PartV>,
    exprs: Seq<Node>,
    n: nat,
    m: nat,
    w: WriterV,
)
    requires
        n <= m <= exprs.len(),
        write_roots(terms, reg, heap, exprs, n, w).err is Some,
    ensures
        write_roots(terms, reg, heap, exprs, m, w) == write_roots(terms, reg, heap, exprs, n, w),
    decreases m,
{
    if m > n {
        lemma_write_roots_fail(terms, reg, heap, exprs, n, (m - 1) as nat, w);
    }
}

impl Environment {
    /// Writes one node by itself and hands back what it came to.
    fn eval_node(
        &self,
        terms: &HashMap<u32, InoutStringType>,
        heap: &Vec<StringPart>,
        e: &ExprNode,
        Ghost(bound): Ghost<nat>,
    ) -> (r: Result<StringPart, OutputError>)
        requires
            self@.wf(),
            registry_ok(self@.terms, terms@),
            bound <= self@.terms.len(),
            node_ok(self@.terms, e@, heap@.len() as nat, bound),
        ensures
            match (r, eval_part(self@.terms, terms@, bound, parts_view(heap@), e@)) {
                (Ok(p), Ok(q)) => p@ == q,
                (Err(m), Err(x)) => m.is_msg(x.text()),
                _ => false,
            },
        decreases bound, e, 1nat,
    {
        let mut w = StringWriter::default();
        match self.write_node_below(terms, heap, e, &mut w, Ghost(bound)) {
            Ok(()) => {
                proof {
                    lemma_from_writer(w);
                }
                Ok(StringPart::from(w))
            },
            Err(m) => Err(m),
        }
    }

    /// Writes one node whose terms are declared below `bound`.
    fn write_node_below(
        &self,
        terms: &HashMap<u32, InoutStringType>,
        heap: &Vec<StringPart>,
        e: &ExprNode,
        w: &mut StringWriter,
        Ghost(bound): Ghost<nat>,
    ) -> (r: Result<(), OutputError>)
        requires
            self@.wf(),
            registry_ok(self@.terms, terms@),
            bound <= self@.terms.len(),
            node_ok(self@.terms, e@, heap@.len() as nat, bound),
        ensures
            final(w)@ == write_node_spec(
                self@.terms,
                terms@,
                bound,
                parts_view(heap@),
                e@,
                old(w)@,
            ).w,
            reports(
                r,
                write_node_spec(self@.terms, terms@, bound, parts_view(heap@), e@, old(w)@),
            ),
        decreases bound, e, 0nat,
    {
        broadcast use group_hash_axioms;

        match e {
            ExprNode::Dummy(_, _) => Err(
                OutputError::msg("Found dummy variable in string definition"),
            ),
            ExprNode::Ref(i) => {
                assert(parts_view(heap@)[*i as int] == heap@[*i as int]@);
                w.write_part(&heap[*i]);
                Ok(())
            },
            ExprNode::App(t, ns) => {
                proof {
                    lemma_view_app(*t, *ns);
                }
                assert(*ns == e->App_1);
                assert(decreases_to!(*e => e->App_1));
                match terms.get(&t.0) {
                    Some(InoutStringType::S0) => Ok(()),
                    Some(InoutStringType::S1) => {
                        assert(decreases_to!(*ns => ns[0]));
                        self.write_node_below(terms, heap, &ns[0], w, Ghost(bound))
                    },
                    Some(InoutStringType::SAdd) | Some(InoutStringType::SCons) | Some(
                        InoutStringType::Ch,
                    ) => {
                        assert(decreases_to!(*ns => ns[0]));
                        assert(decreases_to!(*ns => ns[1]));
                        match self.write_node_below(terms, heap, &ns[0], w, Ghost(bound)) {
                            Ok(()) => self.write_node_below(terms, heap, &ns[1], w, Ghost(bound)),
                            Err(m) => Err(m),
                        }
                    },
                    Some(InoutStringType::Hex(h)) => {
                        w.write_hex(*h);
                        Ok(())
                    },
                    None => {
                        let td = &self.terms[t.0 as usize];
                        assert(td@ == self@.terms[t.0 as int]);
                        assert(self@.term_ok(t.0 as int));
                        match &td.val {
                            Some(Some(body)) => {
                                let ghost nodes = nodes_view(ns@);
                                let ghost inner = nodes_view(body.heap@);
                                let ghost below = t.0 as nat;
                                let mut args: Vec<StringPart> = Vec::new();
                                proof {
                                    assert(parts_view(args@) =~= Seq::empty());
                                }
                                let mut i: usize = 0;
                                while i < ns.len()
                                    invariant
                                        i <= ns.len(),
                                        args@.len() == i,
                                        *e == ExprNode::App(*t, *ns),
                                        e@ == Node::App(*t, nodes),
                                        tag_of(terms@, *t) is None,
                                        t.0 < bound,
                                        self@.terms[t.0 as int].body() is Some,
                                        nodes == nodes_view(ns@),
                                        self@.wf(),
                                        registry_ok(self@.terms, terms@),
                                        bound <= self@.terms.len(),
                                        forall|j: int|
                                            0 <= j < nodes.len() ==> node_ok(
                                                self@.terms,
                                                #[trigger] nodes[j],
                                                heap@.len() as nat,
                                                bound,
                                            ),
                                        eval_args(
                                            self@.terms,
                                            terms@,
                                            bound,
                                            parts_view(heap@),
                                            nodes,
                                            i as nat,
                                        ) == Ok::<_, EvalError>(parts_view(args@)),
                                        w@ == old(w)@,
                                    decreases ns.len() - i,
                                {
                                    assert(*ns == e->App_1);
                                    assert(decreases_to!(*e => e->App_1));
                                    assert(decreases_to!(*ns => ns[i as int]));
                                    assert(nodes[i as int] == ns[i as int]@);
                                    match self.eval_node(terms, heap, &ns[i], Ghost(bound)) {
                                        Ok(p) => {
                                            let ghost before = parts_view(args@);
                                            args.push(p);
                                            assert(parts_view(args@) =~= before.push(p@));
                                        },
                                        Err(m) => {
                                            proof {
                                                lemma_eval_args_fail(
                                                    self@.terms,
                                                    terms@,
                                                    bound,
                                                    parts_view(heap@),
                                                    nodes,
                                                    (i + 1) as nat,
                                                    nodes.len(),
                                                );
                                            }
                                            return Err(m);
                                        },
                                    }
                                    i += 1;
                                }
                                let ghost actual = parts_view(args@);
                                let mut j: usize = ns.len();
                                while j < body.heap.len()
                                    invariant
                                        ns@.len() <= j <= body.heap.len(),
                                        args@.len() == j,
                                        actual.len() == ns@.len(),
                                        e@ == Node::App(*t, nodes),
                                        tag_of(terms@, *t) is None,
                                        self@.terms[t.0 as int].body() == Some(body@),
                                        eval_args(
                                            self@.terms,
                                            terms@,
                                            bound,
                                            parts_view(heap@),
                                            nodes,
                                            nodes.len(),
                                        ) == Ok::<_, EvalError>(actual),
                                        inner == nodes_view(body.heap@),
                                        below == t.0 as nat,
                                        below < bound,
                                        self@.wf(),
                                        registry_ok(self@.terms, terms@),
                                        bound <= self@.terms.len(),
                                        heap_ok(self@.terms, inner, ns@.len() as nat, below),
                                        eval_heap(
                                            self@.terms,
                                            terms@,
                                            below,
                                            actual,
                                            inner,
                                            j as nat,
                                        ) == Ok::<_, EvalError>(parts_view(args@)),
                                        w@ == old(w)@,
                                    decreases body.heap.len() - j,
                                {
                                    assert(inner[j as int] == body.heap[j as int]@);
                                    match self.eval_node(
                                        terms,
                                        &args,
                                        &body.heap[j],
                                        Ghost(below),
                                    ) {
                                        Ok(p) => {
                                            let ghost before = parts_view(args@);
                                            args.push(p);
                                            assert(parts_view(args@) =~= before.push(p@));
                                        },
                                        Err(m) => {
                                            proof {
                                                lemma_eval_heap_fail(
                                                    self@.terms,
                                                    terms@,
                                                    below,
                                                    actual,
                                                    inner,
                                                    (j + 1) as nat,
                                                    inner.len(),
                                                );
                                            }
                                            return Err(m);
                                        },
                                    }
                                    j += 1;
                                }
                                self.write_node_below(terms, &args, &body.head, w, Ghost(below))
                            },
                            _ => Err(OutputError::msg("Unknown definition")),
                        }
                    },
                }
            },
        }
    }

    /// Writes one node to `w`.  `heap` holds what the nodes that it may
    /// refer to came to.
    pub fn write_node(
        &self,
        terms: &HashMap<u32, InoutStringType>,
        heap: &Vec<StringPart>,
        e: &ExprNode,
        w: &mut StringWriter,
    ) -> (r: Result<(), OutputError>)
        requires
            self@.wf(),
            registry_ok(self@.terms, terms@),
            node_ok(self@.terms, e@, heap@.len() as nat, self@.terms.len()),
        ensures
            final(w)@ == write_node_spec(
                self@.terms,
                terms@,
                self@.terms.len(),
                parts_view(heap@),
                e@,
                old(w)@,
            ).w,
            reports(
                r,
                write_node_spec(
                    self@.terms,
                    terms@,
                    self@.terms.len(),
                    parts_view(heap@),
                    e@,
                    old(w)@,
                ),
            ),
    {
        self.write_node_below(terms, heap, e, w, Ghost(self@.terms.len()))
    }

    /// Writes one node by itself, to a writer that has written nothing,
    /// and hands back what it came to: the bytes, or the hex digit left
    /// waiting.
    pub fn evaluate_to_part(
        &self,
        terms: &HashMap<u32, InoutStringType>,
        heap: &Vec<StringPart>,
        e: &ExprNode,
    ) -> (r: Result<StringPart, OutputError>)
        requires
            self@.wf(),
            registry_ok(self@.terms, terms@),
            node_ok(self@.terms, e@, heap@.len() as nat, self@.terms.len()),
        ensures
            match (r, eval_part(self@.terms, terms@, self@.terms.len(), parts_view(heap@), e@)) {
                (Ok(p), Ok(q)) => p@ == q,
                (Err(m), Err(x)) => m.is_msg(x.text()),
                _ => false,
            },
    {
        self.eval_node(terms, heap, e, Ghost(self@.terms.len()))
    }

    /// Writes an output statement to `w`: resolves `heap` entry by entry,
    /// then writes the expressions `exprs` in order.
    pub fn write_output_string(
        &self,
        terms: &HashMap<u32, InoutStringType>,
        w: &mut StringWriter,
        heap: &[ExprNode],
        exprs: &[ExprNode],
    ) -> (r: Result<(), OutputError>)
        requires
            self@.wf(),
            registry_ok(self@.terms, terms@),
            heap_ok(self@.terms, nodes_view(heap@), 0, self@.terms.len()),
            roots_ok(self@.terms, nodes_view(exprs@), heap@.len() as nat, self@.terms.len()),
        ensures
            final(w)@ == write_output_spec(
                self@.terms,
                terms@,
                nodes_view(heap@),
                nodes_view(exprs@),
                old(w)@,
            ).w,
            reports(
                r,
                write_output_spec(
                    self@.terms,
                    terms@,
                    nodes_view(heap@),
                    nodes_view(exprs@),
                    old(w)@,
                ),
            ),
    {
        let ghost nodes = nodes_view(heap@);
        let ghost roots = nodes_view(exprs@);
        let ghost top = self@.terms.len();
        let mut args: Vec<StringPart> = Vec::new();
        proof {
            assert(parts_view(args@) =~= Seq::empty());
        }
        let mut i: usize = 0;
        while i < heap.len()
            invariant
                i <= heap.len(),
                args@.len() == i,
                nodes == nodes_view(heap@),
                top == self@.terms.len(),
                self@.wf(),
                registry_ok(self@.terms, terms@),
                heap_ok(self@.terms, nodes, 0, top),
                eval_heap(self@.terms, terms@, top, Seq::empty(), nodes, i as nat) == Ok::<
                    _,
                    EvalError,
                >(parts_view(args@)),
                w@ == old(w)@,
            decreases heap.len() - i,
        {
            assert(nodes[i as int] == heap[i as int]@);
            match self.eval_node(terms, &args, &heap[i], Ghost(top)) {
                Ok(p) => {
                    let ghost before = parts_view(args@);
                    args.push(p);
                    assert(parts_view(args@) =~= before.push(p@));
                },
                Err(m) => {
                    proof {
                        lemma_eval_heap_fail(
                            self@.terms,
                            terms@,
                            top,
                            Seq::empty(),
                            nodes,
                            (i + 1) as nat,
                            nodes.len(),
                        );
                    }
                    return Err(m);
                },
            }
            i += 1;
        }
        let ghost parts = parts_view(args@);
        let mut k: usize = 0;
        while k < exprs.len()
            invariant
                k <= exprs.len(),
                args@.len() == heap@.len(),
                parts == parts_view(args@),
                roots == nodes_view(exprs@),
                nodes == nodes_view(heap@),
                eval_heap(self@.terms, terms@, top, Seq::empty(), nodes, nodes.len()) == Ok::<
                    _,
                    EvalError,
                >(parts),
                top == self@.terms.len(),
                self@.wf(),
                registry_ok(self@.terms, terms@),
                roots_ok(self@.terms, roots, heap@.len() as nat, top),
                write_roots(self@.terms, terms@, parts, roots, k as nat, old(w)@) == (WriteOutcome {
                    w: w@,
                    err: None,
                }),
            decreases exprs.len() - k,
        {
            assert(roots[k as int] == exprs[k as int]@);
            match self.write_node(terms, &args, &exprs[k], w) {
                Ok(()) => {},
                Err(m) => {
                    proof {
                        lemma_write_roots_fail(
                            self@.terms,
                            terms@,
                            parts,
                            roots,
                            (k + 1) as nat,
                            roots.len(),
                            old(w)@,
                        );
                    }
                    return Err(m);
                },
            }
            k += 1;
        }
        Ok(())
    }
}

} // verus!
