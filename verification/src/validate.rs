//! A check of the environment's invariant, for callers that build an
//! environment from data they do not control.

use vstd::prelude::*;
use crate::environment::{
    dag_ok, heap_ok, lemma_view_app, node_ok, nodes_view, roots_ok, DeclKey, Environment, ExprNode,
    Node, StmtTrace, StmtV,
};

verus! {

impl Environment {
    /// Whether a node is in order: see [`node_ok`].
    pub fn node_check(&self, e: &ExprNode, nrefs: usize, bound: usize) -> (r: bool)
        ensures
            r == node_ok(self@.terms, e@, nrefs as nat, bound as nat),
        decreases e,
    {
        match e {
            ExprNode::Ref(i) => *i < nrefs,
            ExprNode::Dummy(_, _) => true,
            ExprNode::App(t, ns) => {
                proof {
                    lemma_view_app(*t, *ns);
                }
                let ghost nodes = nodes_view(ns@);
                if t.0 as usize >= bound || t.0 as usize >= self.terms.len() {
                    return false;
                }
                if ns.len() != self.terms[t.0 as usize].args.len() {
                    return false;
                }
                let mut i: usize = 0;
                while i < ns.len()
                    invariant
                        i <= ns.len(),
                        *e == ExprNode::App(*t, *ns),
                        e@ == Node::App(*t, nodes),
                        nodes == nodes_view(ns@),
                        forall|j: int|
                            0 <= j < i ==> node_ok(
                                self@.terms,
                                #[trigger] nodes[j],
                                nrefs as nat,
                                bound as nat,
                            ),
                    decreases ns.len() - i,
                {
                    assert(*ns == e->App_1);
                    assert(decreases_to!(*e => e->App_1));
                    assert(decreases_to!(*ns => ns[i as int]));
                    assert(nodes[i as int] == ns[i as int]@);
                    if !self.node_check(&ns[i], nrefs, bound) {
                        return false;
                    }
                    i += 1;
                }
                true
            },
        }
    }

    /// Whether a heap over `nargs` parameters is in order: see
    /// [`heap_ok`].
    pub fn heap_check(&self, heap: &Vec<ExprNode>, nargs: usize, bound: usize) -> (r: bool)
        ensures
            r == heap_ok(self@.terms, nodes_view(heap@), nargs as nat, bound as nat),
    {
        if nargs > heap.len() {
            return false;
        }
        let ghost nodes = nodes_view(heap@);
        let mut i: usize = nargs;
        while i < heap.len()
            invariant
                nargs <= i <= heap.len(),
                nodes == nodes_view(heap@),
                forall|j: int|
                    nargs <= j < i ==> node_ok(
                        self@.terms,
                        #[trigger] nodes[j],
                        j as nat,
                        bound as nat,
                    ),
            decreases heap.len() - i,
        {
            assert(nodes[i as int] == heap[i as int]@);
            if !self.node_check(&heap[i], i, bound) {
                return false;
            }
            i += 1;
        }
        true
    }

    /// Whether every root is in order over `nrefs` heap entries: see
    /// [`roots_ok`].
    pub fn roots_check(&self, roots: &Vec<ExprNode>, nrefs: usize, bound: usize) -> (r: bool)
        ensures
            r == roots_ok(self@.terms, nodes_view(roots@), nrefs as nat, bound as nat),
    {
        let ghost nodes = nodes_view(roots@);
        let mut i: usize = 0;
        while i < roots.len()
            invariant
                i <= roots.len(),
                nodes == nodes_view(roots@),
                forall|j: int|
                    0 <= j < i ==> node_ok(
                        self@.terms,
                        #[trigger] nodes[j],
                        nrefs as nat,
                        bound as nat,
                    ),
            decreases roots.len() - i,
        {
            assert(nodes[i as int] == roots[i as int]@);
            if !self.node_check(&roots[i], nrefs, bound) {
                return false;
            }
            i += 1;
        }
        true
    }

    /// Whether `heap` and `exprs` form a DAG over the terms of this
    /// environment: see [`dag_ok`].
    pub fn dag_check(&self, heap: &Vec<ExprNode>, exprs: &Vec<ExprNode>) -> (r: bool)
        ensures
            r == dag_ok(self@.terms, nodes_view(heap@), nodes_view(exprs@)),
    {
        let top = self.terms.len();
        self.heap_check(heap, 0, top) && self.roots_check(exprs, heap.len(), top)
    }

    /// Whether the definition of term `t` is in order.
    fn term_check(&self, t: usize) -> (r: bool)
        requires
            t < self.terms@.len(),
        ensures
            r == self@.term_ok(t as int),
    {
        let td = &self.terms[t];
        assert(td@ == self@.terms[t as int]);
        match &td.val {
            Some(Some(body)) => self.heap_check(&body.heap, td.args.len(), t) && self.node_check(
                &body.head,
                body.heap.len(),
                t,
            ),
            _ => true,
        }
    }

    /// Whether the sort and the term that each atom names exist and name
    /// the atom in their turn.
    fn atoms_check(&self) -> (r: bool)
        requires
            self.data@.len() <= 0x1_0000_0000,
        ensures
            r == (forall|a: int| 0 <= a < self@.data.len() ==> #[trigger] self@.atom_ok(a)),
    {
        let mut i: usize = 0;
        while i < self.data.len()
            invariant
                i <= self.data.len(),
                self.data@.len() <= 0x1_0000_0000,
                forall|a: int| 0 <= a < i ==> #[trigger] self@.atom_ok(a),
            decreases self.data.len() - i,
        {
            let d = &self.data[i];
            assert(d@ == self@.data[i as int]);
            let sort_ok = match d.sort {
                Some(s) => (s.0 as usize) < self.sorts.len()
                    && self.sorts[s.0 as usize].atom.0 as usize == i,
                None => true,
            };
            let decl_ok = match d.decl {
                Some(DeclKey::Term(t)) => (t.0 as usize) < self.terms.len()
                    && self.terms[t.0 as usize].atom.0 as usize == i,
                _ => true,
            };
            proof {
                match d.sort {
                    Some(s) => {
                        if s.0 < self.sorts@.len() {
                            assert(self.sorts@[s.0 as int]@ == self@.sorts[s.0 as int]);
                        }
                    },
                    None => {},
                }
                match d.decl {
                    Some(DeclKey::Term(t)) => {
                        if t.0 < self.terms@.len() {
                            assert(self.terms@[t.0 as int]@ == self@.terms[t.0 as int]);
                        }
                    },
                    _ => {},
                }
            }
            if !sort_ok || !decl_ok {
                assert(!self@.atom_ok(i as int));
                return false;
            }
            assert(self@.atom_ok(i as int));
            i += 1;
        }
        true
    }

    /// Whether the declarations meet the invariant of their model.
    fn decls_check(&self) -> (r: bool)
        ensures
            r == self@.wf(),
    {
        if self.data.len() as u64 > 0x1_0000_0000 || self.sorts.len() > 0x100
            || self.terms.len() as u64 > 0x1_0000_0000 {
            return false;
        }
        if !self.atoms_check() {
            return false;
        }
        let mut s: usize = 0;
        while s < self.sorts.len()
            invariant
                s <= self.sorts.len(),
                forall|j: int|
                    0 <= j < s ==> (#[trigger] self@.sorts[j]).atom.0 < self@.data.len(),
            decreases self.sorts.len() - s,
        {
            assert(self.sorts[s as int]@ == self@.sorts[s as int]);
            if self.sorts[s].atom.0 as usize >= self.data.len() {
                return false;
            }
            s += 1;
        }
        let mut t: usize = 0;
        while t < self.terms.len()
            invariant
                t <= self.terms.len(),
                forall|j: int| 0 <= j < t ==> #[trigger] self@.term_ok(j),
            decreases self.terms.len() - t,
        {
            if !self.term_check(t) {
                return false;
            }
            t += 1;
        }
        true
    }

    /// Whether this environment meets its invariant.
    pub fn is_wf(&self) -> (r: bool)
        ensures
            r == self.wf(),
    {
        if !self.decls_check() {
            return false;
        }
        let mut i: usize = 0;
        while i < self.stmts.len()
            invariant
                i <= self.stmts.len(),
                forall|j: int|
                    0 <= j < i ==> match (#[trigger] self.stmts@[j])@ {
                        StmtV::OutputString(os) => dag_ok(self@.terms, os.heap, os.exprs),
                        _ => true,
                    },
            decreases self.stmts.len() - i,
        {
            let ok = match &self.stmts[i] {
                StmtTrace::OutputString(os) => self.dag_check(&os.heap, &os.exprs),
                _ => true,
            };
            if !ok {
                return false;
            }
            i += 1;
        }
        true
    }
}

} // verus!
