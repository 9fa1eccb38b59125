//! What holds of the codec as a whole: statements about several functions,
//! each proved from the models that the contracts use.

use vstd::prelude::*;
use crate::alias::{process_def_spec, seg_heap, seg_node, tag_of};
use crate::elab::eval_string_spec;
use crate::environment::{
    lemma_atom_below, EnvV, FileSpanV, Node, StmtV, TermID, TermV, Type,
};
use crate::handlers::{
    base_registry, check_term_spec, cons_shape, hex_digit, hex_name, new_sorts_spec,
    registry_spec, sort_not_found, with_hex_digits, with_scons, InoutStringType, Sorts,
};
use crate::output::{
    eval_args, eval_heap, lemma_eval_args_len, lemma_eval_heap_fail, lemma_eval_heap_step,
    lemma_eval_part, lemma_write_roots_fail, write_node_spec, write_output_spec, write_roots,
    EvalError, WriteOutcome,
};
use crate::run::{run_spec, ChunkV};
use crate::segment::{BuilderV, SegV};
use crate::writer::{lemma_pack_digits, pack, PartV, WriterV};

verus! {

/// The string of the one character made of the hex digits `xa` and `xb`.
pub open spec fn char_string(s1: TermID, ch: TermID, xa: TermID, xb: TermID) -> Node {
    Node::App(
        s1,
        seq![Node::App(ch, seq![Node::App(xa, Seq::empty()), Node::App(xb, Seq::empty())])],
    )
}

/// The string of one character of two hex digits `a` and `b` is written
/// as the one byte `16 * a + b`, to a writer and as a statement of its own.
pub proof fn law_char_is_one_byte(
    env: EnvV,
    reg: Map<u32, InoutStringType>,
    bound: nat,
    heap: Seq<PartV>,
    s1: TermID,
    ch: TermID,
    xa: TermID,
    xb: TermID,
    a: u8,
    b: u8,
)
    requires
        a < 16,
        b < 16,
        tag_of(reg, s1) == Some(InoutStringType::S1),
        tag_of(reg, ch) == Some(InoutStringType::Ch),
        tag_of(reg, xa) == Some(InoutStringType::Hex(a)),
        tag_of(reg, xb) == Some(InoutStringType::Hex(b)),
    ensures
        write_node_spec(
            env.terms,
            reg,
            bound,
            heap,
            char_string(s1, ch, xa, xb),
            WriterV::empty(),
        ) == (WriteOutcome {
            w: WriterV { out: seq![(16 * a + b) as u8], hex: None },
            err: None,
        }),
        eval_string_spec(env, reg, Seq::empty(), seq![char_string(s1, ch, xa, xb)]) == Ok::<
            _,
            EvalError,
        >(seq![(16 * a + b) as u8]),
{
    reveal_with_fuel(write_node_spec, 4);
    lemma_pack_digits(a, b);
    let e = char_string(s1, ch, xa, xb);
    let w = WriterV::empty();
    let digits = e->App_1[0];
    assert(digits == Node::App(ch, seq![Node::App(xa, Seq::empty()), Node::App(xb, Seq::empty())]));
    assert(digits->App_1[0] == Node::App(xa, Seq::empty()));
    assert(digits->App_1[1] == Node::App(xb, Seq::empty()));
    let byte = (16 * a + b) as u8;
    assert(Seq::<u8>::empty().push(pack(a, b)) =~= seq![byte]);
    assert forall|k: nat, h: Seq<PartV>|
        write_node_spec(env.terms, reg, k, h, e, w) == (WriteOutcome {
            w: WriterV { out: seq![byte], hex: None },
            err: None,
        }) by {
        reveal_with_fuel(write_node_spec, 4);
    }
    let roots = seq![e];
    reveal_with_fuel(write_roots, 2);
    assert(roots[0] == e);
    assert(eval_heap(env.terms, reg, env.terms.len(), Seq::empty(), Seq::empty(), 0) == Ok::<
        _,
        EvalError,
    >(Seq::<PartV>::empty()));
    assert(write_roots(env.terms, reg, Seq::empty(), roots, 1, w) == write_node_spec(
        env.terms,
        reg,
        env.terms.len(),
        Seq::empty(),
        e,
        w,
    ));
}

/// Writing `sadd(sadd(a, b), c)` and writing `sadd(a, sadd(b, c))` come to
/// the same, whatever `a`, `b` and `c` are and whether or not they can be
/// written.
pub proof fn law_concat_associative(
    terms: Seq<TermV>,
    reg: Map<u32, InoutStringType>,
    bound: nat,
    heap: Seq<PartV>,
    sadd: TermID,
    a: Node,
    b: Node,
    c: Node,
    w: WriterV,
)
    requires
        tag_of(reg, sadd) == Some(InoutStringType::SAdd),
    ensures
        write_node_spec(
            terms,
            reg,
            bound,
            heap,
            Node::App(sadd, seq![Node::App(sadd, seq![a, b]), c]),
            w,
        ) == write_node_spec(
            terms,
            reg,
            bound,
            heap,
            Node::App(sadd, seq![a, Node::App(sadd, seq![b, c])]),
            w,
        ),
{
    reveal_with_fuel(write_node_spec, 3);
    let left_inner = Node::App(sadd, seq![a, b]);
    let right_inner = Node::App(sadd, seq![b, c]);
    let left = Node::App(sadd, seq![left_inner, c]);
    let right = Node::App(sadd, seq![a, right_inner]);
    assert(left->App_1[0] == left_inner && left->App_1[1] == c);
    assert(right->App_1[0] == a && right->App_1[1] == right_inner);
    assert(left_inner->App_1[0] == a && left_inner->App_1[1] == b);
    assert(right_inner->App_1[0] == b && right_inner->App_1[1] == c);
}

/// The application of a term that is neither built in nor a definition
/// with a body cannot be written, whatever its arguments: the error is
/// that of an unknown definition, and nothing is written.
pub proof fn law_abstract_term_fails(
    terms: Seq<TermV>,
    reg: Map<u32, InoutStringType>,
    bound: nat,
    heap: Seq<PartV>,
    t: TermID,
    ns: Seq<Node>,
    w: WriterV,
)
    requires
        tag_of(reg, t) is None,
        t.0 < terms.len() ==> terms[t.0 as int].body() is None,
    ensures
        write_node_spec(terms, reg, bound, heap, Node::App(t, ns), w) == (WriteOutcome {
            w,
            err: Some(EvalError::UnknownDefinition),
        }),
{
}

/// Whether every term applied in `e` can be written: it is built in and
/// has the arguments that its operation reads, or it is a definition
/// declared below `bound`, with a body whose heap entries and head can be
/// written in their turn and hold no dummy variable.
pub open spec fn writable(
    terms: Seq<TermV>,
    reg: Map<u32, InoutStringType>,
    bound: nat,
    e: Node,
) -> bool
    decreases bound, e,
{
    match e {
        Node::App(t, ns) => match tag_of(reg, t) {
            Some(InoutStringType::S0) => true,
            Some(InoutStringType::Hex(_)) => true,
            Some(InoutStringType::S1) => ns.len() >= 1 && writable(terms, reg, bound, ns[0]),
            Some(_) => ns.len() >= 2 && writable(terms, reg, bound, ns[0]) && writable(
                terms,
                reg,
                bound,
                ns[1],
            ),
            None => {
                &&& t.0 < bound
                &&& t.0 < terms.len()
                &&& forall|i: int|
                    0 <= i < ns.len() ==> writable(terms, reg, bound, #[trigger] ns[i])
                &&& terms[t.0 as int].body() matches Some(body) && {
                    &&& forall|j: int|
                        ns.len() <= j < body.heap.len() ==> writable(
                            terms,
                            reg,
                            t.0 as nat,
                            #[trigger] body.heap[j],
                        ) && !holds_dummy(reg, body.heap[j])
                    &&& writable(terms, reg, t.0 as nat, body.head)
                    &&& !holds_dummy(reg, body.head)
                }
            },
        },
        _ => true,
    }
}

/// Whether a dummy variable stands in `e` where writing reads: as the
/// expression itself, or in an argument that a built-in operation writes
/// or that a definition is unfolded with.
pub open spec fn holds_dummy(reg: Map<u32, InoutStringType>, e: Node) -> bool
    decreases e,
{
    match e {
        Node::Dummy(_, _) => true,
        Node::Ref(_) => false,
        Node::App(t, ns) => match tag_of(reg, t) {
            Some(InoutStringType::S0) => false,
            Some(InoutStringType::Hex(_)) => false,
            Some(InoutStringType::S1) => ns.len() >= 1 && holds_dummy(reg, ns[0]),
            Some(_) => ns.len() >= 2 && (holds_dummy(reg, ns[0]) || holds_dummy(reg, ns[1])),
            None => exists|i: int| 0 <= i < ns.len() && holds_dummy(reg, #[trigger] ns[i]),
        },
    }
}

/// An expression of terms that can be written fails exactly where it
/// holds a dummy variable, and then the error is that of a dummy variable.
pub proof fn law_dummy_fails(
    terms: Seq<TermV>,
    reg: Map<u32, InoutStringType>,
    bound: nat,
    heap: Seq<PartV>,
    e: Node,
    w: WriterV,
)
    requires
        writable(terms, reg, bound, e),
    ensures
        write_node_spec(terms, reg, bound, heap, e, w).err == if holds_dummy(reg, e) {
            Some(EvalError::DummyNotAllowed)
        } else {
            None
        },
    decreases bound, e, 0nat,
{
    match e {
        Node::App(t, ns) => match tag_of(reg, t) {
            Some(InoutStringType::S0) => {},
            Some(InoutStringType::Hex(_)) => {},
            Some(InoutStringType::S1) => {
                law_dummy_fails(terms, reg, bound, heap, ns[0], w);
            },
            Some(_) => {
                law_dummy_fails(terms, reg, bound, heap, ns[0], w);
                let first = write_node_spec(terms, reg, bound, heap, ns[0], w);
                law_dummy_fails(terms, reg, bound, heap, ns[1], first.w);
            },
            None => {
                let body = terms[t.0 as int].body()->Some_0;
                lemma_args_resolve(terms, reg, bound, heap, ns, ns.len());
                if !holds_dummy(reg, e) {
                    assert(!dummy_below(reg, ns, ns.len()));
                    let args = eval_args(terms, reg, bound, heap, ns, ns.len())->Ok_0;
                    lemma_eval_args_len(terms, reg, bound, heap, ns, ns.len());
                    lemma_clean_heap_resolves(
                        terms,
                        reg,
                        t.0 as nat,
                        args,
                        body.heap,
                        body.heap.len(),
                    );
                    let frame = eval_heap(
                        terms,
                        reg,
                        t.0 as nat,
                        args,
                        body.heap,
                        body.heap.len(),
                    )->Ok_0;
                    law_dummy_fails(terms, reg, t.0 as nat, frame, body.head, w);
                } else {
                    assert(dummy_below(reg, ns, ns.len()));
                }
            },
        },
        _ => {},
    }
}

/// Whether one of the first `n` nodes of `ns` holds a dummy variable.
pub open spec fn dummy_below(reg: Map<u32, InoutStringType>, ns: Seq<Node>, n: nat) -> bool {
    exists|i: int| 0 <= i < n && i < ns.len() && holds_dummy(reg, #[trigger] ns[i])
}

/// Arguments that can be written resolve, unless one of them holds a
/// dummy variable: then the error is that of a dummy variable.
pub proof fn lemma_args_resolve(
    terms: Seq<TermV>,
    reg: Map<u32, InoutStringType>,
    bound: nat,
    heap: Seq<PartV>,
    ns: Seq<Node>,
    n: nat,
)
    requires
        n <= ns.len(),
        forall|i: int| 0 <= i < ns.len() ==> writable(terms, reg, bound, #[trigger] ns[i]),
    ensures
        if dummy_below(reg, ns, n) {
            eval_args(terms, reg, bound, heap, ns, n) == Err::<Seq<PartV>, _>(
                EvalError::DummyNotAllowed,
            )
        } else {
            eval_args(terms, reg, bound, heap, ns, n) is Ok
        },
    decreases bound, ns, n,
{
    if n > 0 {
        lemma_args_resolve(terms, reg, bound, heap, ns, (n - 1) as nat);
        law_dummy_fails(terms, reg, bound, heap, ns[n - 1], WriterV::empty());
        lemma_eval_part(terms, reg, bound, heap, ns[n - 1]);
        if dummy_below(reg, ns, (n - 1) as nat) {
            let i = choose|i: int|
                0 <= i < n - 1 && i < ns.len() && holds_dummy(reg, #[trigger] ns[i]);
            assert(0 <= i < n && holds_dummy(reg, ns[i]));
        } else if holds_dummy(reg, ns[n - 1]) {
            assert(0 <= n - 1 < n && holds_dummy(reg, ns[n - 1]));
        } else {
            assert forall|i: int| 0 <= i < n && i < ns.len() implies !holds_dummy(
                reg,
                #[trigger] ns[i],
            ) by {
                if i < n - 1 {
                    assert(!dummy_below(reg, ns, (n - 1) as nat));
                }
            }
        }
    }
}

/// Whether the heap entries from `from` up to `n` can be written and hold
/// no dummy variable.
pub open spec fn heap_clean(
    terms: Seq<TermV>,
    reg: Map<u32, InoutStringType>,
    bound: nat,
    heap: Seq<Node>,
    from: nat,
    n: nat,
) -> bool {
    forall|i: int|
        from <= i < n && i < heap.len() ==> writable(terms, reg, bound, #[trigger] heap[i])
            && !holds_dummy(reg, heap[i])
}

/// Heap entries that can be written and hold no dummy variable resolve.
pub proof fn lemma_clean_heap_resolves(
    terms: Seq<TermV>,
    reg: Map<u32, InoutStringType>,
    bound: nat,
    parts: Seq<PartV>,
    heap: Seq<Node>,
    n: nat,
)
    requires
        n <= heap.len(),
        heap_clean(terms, reg, bound, heap, parts.len(), n),
    ensures
        eval_heap(terms, reg, bound, parts, heap, n) is Ok,
    decreases bound, heap, n,
{
    if n > parts.len() {
        lemma_clean_heap_resolves(terms, reg, bound, parts, heap, (n - 1) as nat);
        let before = eval_heap(terms, reg, bound, parts, heap, (n - 1) as nat)->Ok_0;
        law_dummy_fails(terms, reg, bound, before, heap[n - 1], WriterV::empty());
        lemma_eval_part(terms, reg, bound, before, heap[n - 1]);
        lemma_eval_heap_step(terms, reg, bound, parts, heap, n);
    }
}

/// Among nodes of which one holds a dummy variable, one is the first to.
pub proof fn lemma_first_dummy(reg: Map<u32, InoutStringType>, nodes: Seq<Node>, at: int)
    requires
        0 <= at < nodes.len(),
        holds_dummy(reg, nodes[at]),
    ensures
        exists|k: int|
            0 <= k < nodes.len() && holds_dummy(reg, nodes[k]) && forall|j: int|
                0 <= j < k ==> !holds_dummy(reg, #[trigger] nodes[j]),
    decreases at,
{
    if exists|j: int| 0 <= j < at && holds_dummy(reg, nodes[j]) {
        let j = choose|j: int| 0 <= j < at && holds_dummy(reg, nodes[j]);
        lemma_first_dummy(reg, nodes, j);
    } else {
        assert(forall|j: int| 0 <= j < at ==> !holds_dummy(reg, #[trigger] nodes[j]));
    }
}

/// A statement of terms that can be written whose heap holds a dummy
/// variable gives no bytes: it fails with the error of a dummy variable.
pub proof fn law_dummy_in_heap_fails(
    env: EnvV,
    reg: Map<u32, InoutStringType>,
    heap: Seq<Node>,
    exprs: Seq<Node>,
    at: int,
)
    requires
        0 <= at < heap.len(),
        forall|i: int|
            0 <= i < heap.len() ==> writable(env.terms, reg, env.terms.len(), #[trigger] heap[i]),
        holds_dummy(reg, heap[at]),
    ensures
        eval_string_spec(env, reg, heap, exprs) == Err::<Seq<u8>, _>(EvalError::DummyNotAllowed),
{
    lemma_first_dummy(reg, heap, at);
    let first = choose|k: int|
        0 <= k < heap.len() && holds_dummy(reg, heap[k]) && forall|j: int|
            0 <= j < k ==> !holds_dummy(reg, #[trigger] heap[j]);
    let terms = env.terms;
    let top = terms.len();
    lemma_clean_heap_resolves(terms, reg, top, Seq::empty(), heap, first as nat);
    let before = eval_heap(terms, reg, top, Seq::empty(), heap, first as nat)->Ok_0;
    law_dummy_fails(terms, reg, top, before, heap[first], WriterV::empty());
    lemma_eval_part(terms, reg, top, before, heap[first]);
    lemma_eval_heap_step(terms, reg, top, Seq::empty(), heap, (first + 1) as nat);
    lemma_eval_heap_fail(terms, reg, top, Seq::empty(), heap, (first + 1) as nat, heap.len());
}

/// Expressions that can be written and hold no dummy variable are all
/// written.
pub proof fn lemma_clean_roots_written(
    terms: Seq<TermV>,
    reg: Map<u32, InoutStringType>,
    heap: Seq<PartV>,
    exprs: Seq<Node>,
    n: nat,
    w: WriterV,
)
    requires
        n <= exprs.len(),
        heap_clean(terms, reg, terms.len(), exprs, 0, n),
    ensures
        write_roots(terms, reg, heap, exprs, n, w).err is None,
    decreases n,
{
    if n > 0 {
        lemma_clean_roots_written(terms, reg, heap, exprs, (n - 1) as nat, w);
        let before = write_roots(terms, reg, heap, exprs, (n - 1) as nat, w);
        law_dummy_fails(terms, reg, terms.len(), heap, exprs[n - 1], before.w);
    }
}

/// A statement of terms that can be written of which an expression or a
/// heap entry holds a dummy variable gives no bytes: it fails with the
/// error of a dummy variable.
pub proof fn law_dummy_in_statement_fails(
    env: EnvV,
    reg: Map<u32, InoutStringType>,
    heap: Seq<Node>,
    exprs: Seq<Node>,
    at: int,
)
    requires
        0 <= at < exprs.len(),
        forall|i: int|
            0 <= i < heap.len() ==> writable(env.terms, reg, env.terms.len(), #[trigger] heap[i]),
        forall|i: int|
            0 <= i < exprs.len() ==> writable(env.terms, reg, env.terms.len(), #[trigger] exprs[i]),
        holds_dummy(reg, exprs[at]),
    ensures
        eval_string_spec(env, reg, heap, exprs) == Err::<Seq<u8>, _>(EvalError::DummyNotAllowed),
{
    if exists|i: int| 0 <= i < heap.len() && holds_dummy(reg, heap[i]) {
        let i = choose|i: int| 0 <= i < heap.len() && holds_dummy(reg, heap[i]);
        law_dummy_in_heap_fails(env, reg, heap, exprs, i);
    } else {
        let terms = env.terms;
        lemma_clean_heap_resolves(terms, reg, terms.len(), Seq::empty(), heap, heap.len());
        let parts = eval_heap(terms, reg, terms.len(), Seq::empty(), heap, heap.len())->Ok_0;
        lemma_first_dummy(reg, exprs, at);
        let first = choose|k: int|
            0 <= k < exprs.len() && holds_dummy(reg, exprs[k]) && forall|j: int|
                0 <= j < k ==> !holds_dummy(reg, #[trigger] exprs[j]);
        let w = WriterV::empty();
        lemma_clean_roots_written(terms, reg, parts, exprs, first as nat, w);
        let before = write_roots(terms, reg, parts, exprs, first as nat, w);
        law_dummy_fails(terms, reg, terms.len(), parts, exprs[first], before.w);
        assert(write_roots(terms, reg, parts, exprs, (first + 1) as nat, w).err == Some(
            EvalError::DummyNotAllowed,
        ));
        lemma_write_roots_fail(
            terms,
            reg,
            parts,
            exprs,
            (first + 1) as nat,
            exprs.len(),
            w,
        );
    }
}

/// In an environment that has a sort `string` and no sort `hex`, the
/// vocabulary does not resolve, and the error names `hex`.
pub proof fn law_missing_hex_sort(env: EnvV)
    requires
        env.sort_named("string"@) is Some,
        env.sort_named("hex"@) is None,
    ensures
        registry_spec(env) == Err::<(Sorts, Map<u32, InoutStringType>), _>(
            sort_not_found("hex"@),
        ),
        sort_not_found("hex"@) == "sort 'hex' not found"@,
{
    reveal_strlit("sort '");
    reveal_strlit("hex");
    reveal_strlit("' not found");
    reveal_strlit("sort 'hex' not found");
    assert(sort_not_found("hex"@) =~= "sort 'hex' not found"@);
}

/// Two names that differ do not name the same term.
pub proof fn lemma_names_apart(env: EnvV, a: Seq<char>, b: Seq<char>)
    requires
        env.wf(),
        a != b,
    ensures
        env.term_named(a) is Some ==> env.term_named(a) != env.term_named(b),
{
    lemma_atom_below(env, a, env.data.len());
    lemma_atom_below(env, b, env.data.len());
    if let Some(x) = env.atom(a) {
        assert(env.atom_ok(x.0 as int));
    }
    if let Some(y) = env.atom(b) {
        assert(env.atom_ok(y.0 as int));
    }
}

/// Whether `name` is the name of a hex digit.
pub open spec fn is_hex_name(name: Seq<char>) -> bool {
    exists|i: u8| i < 16 && name == #[trigger] hex_name(i)
}

/// The names of the vocabulary differ from each other.
pub proof fn lemma_vocabulary_names()
    ensures
        "s0"@ != "s1"@,
        "s0"@ != "sadd"@,
        "s0"@ != "ch"@,
        "s1"@ != "sadd"@,
        "s1"@ != "ch"@,
        "sadd"@ != "ch"@,
        "scons"@ != "s0"@,
        "scons"@ != "s1"@,
        "scons"@ != "sadd"@,
        "scons"@ != "ch"@,
        !is_hex_name("s0"@),
        !is_hex_name("s1"@),
        !is_hex_name("sadd"@),
        !is_hex_name("ch"@),
        !is_hex_name("scons"@),
        forall|i: u8, j: u8|
            i < 16 && j < 16 && i != j ==> #[trigger] hex_name(i) != #[trigger] hex_name(j),
{
    reveal_strlit("s0");
    reveal_strlit("s1");
    reveal_strlit("sadd");
    reveal_strlit("ch");
    reveal_strlit("scons");
    assert("s0"@[1] != "s1"@[1]);
    assert("scons"@.len() != "sadd"@.len());
    assert("s0"@[0] != "ch"@[0]);
    assert("s1"@[0] != "ch"@[0]);
    assert("sadd"@[0] != "ch"@[0]);
    assert forall|i: u8| i < 16 implies (#[trigger] hex_name(i)).len() == 2 && hex_name(i)[0] == 'x'
        && hex_name(i)[1] == hex_digit(i) by {}
    assert forall|i: u8, j: u8| i < 16 && j < 16 && i != j implies #[trigger] hex_name(i)
        != #[trigger] hex_name(j) by {
        assert(hex_digit(i) != hex_digit(j));
        assert(hex_name(i)[1] != hex_name(j)[1]);
    }
    assert(!is_hex_name("s0"@)) by {
        assert forall|i: u8| i < 16 implies "s0"@ != #[trigger] hex_name(i) by {
            assert("s0"@[0] != hex_name(i)[0]);
        }
    }
    assert(!is_hex_name("s1"@)) by {
        assert forall|i: u8| i < 16 implies "s1"@ != #[trigger] hex_name(i) by {
            assert("s1"@[0] != hex_name(i)[0]);
        }
    }
    assert(!is_hex_name("ch"@)) by {
        assert forall|i: u8| i < 16 implies "ch"@ != #[trigger] hex_name(i) by {
            assert("ch"@[0] != hex_name(i)[0]);
        }
    }
    assert(!is_hex_name("sadd"@)) by {
        assert forall|i: u8| i < 16 implies "sadd"@ != #[trigger] hex_name(i) by {
            assert("sadd"@.len() != hex_name(i).len());
        }
    }
    assert(!is_hex_name("scons"@)) by {
        assert forall|i: u8| i < 16 implies "scons"@ != #[trigger] hex_name(i) by {
            assert("scons"@.len() != hex_name(i).len());
        }
    }
}

/// What adding the hex digits below `n` does to a registry: each digit's
/// term is given its digit, and no other term is touched.
pub proof fn lemma_hex_digit_tags(env: EnvV, s: Sorts, m: Map<u32, InoutStringType>, n: nat)
    requires
        env.wf(),
        n <= 16,
        with_hex_digits(env, s, m, n) is Ok,
    ensures
        forall|i: u8|
            i < n ==> (env.term_named(#[trigger] hex_name(i)) matches Some(t) && tag_of(
                with_hex_digits(env, s, m, n)->Ok_0,
                t,
            ) == Some(InoutStringType::Hex(i))),
        forall|name: Seq<char>|
            !is_hex_name(name) ==> (#[trigger] env.term_named(name) matches Some(t) ==> tag_of(
                with_hex_digits(env, s, m, n)->Ok_0,
                t,
            ) == tag_of(m, t)),
    decreases n,
{
    if n > 0 {
        lemma_hex_digit_tags(env, s, m, (n - 1) as nat);
        lemma_vocabulary_names();
        let last = (n - 1) as u8;
        let before = with_hex_digits(env, s, m, (n - 1) as nat)->Ok_0;
        let t = check_term_spec(env, hex_name(last), Seq::empty(), s.hex, false)->Ok_0;
        let now = with_hex_digits(env, s, m, n)->Ok_0;
        assert(now == before.insert(t.0, InoutStringType::Hex(last)));
        assert(env.term_named(hex_name(last)) == Some(t));
        assert forall|i: u8| i < n implies (env.term_named(#[trigger] hex_name(i)) matches Some(u)
            && tag_of(now, u) == Some(InoutStringType::Hex(i))) by {
            if i < last {
                lemma_names_apart(env, hex_name(i), hex_name(last));
            }
        }
        assert forall|name: Seq<char>| !is_hex_name(name) implies (#[trigger] env.term_named(
            name,
        ) matches Some(u) ==> tag_of(now, u) == tag_of(m, u)) by {
            if env.term_named(name) is Some {
                assert(name != hex_name(last));
                lemma_names_apart(env, name, hex_name(last));
            }
        }
    }
}

/// Where the vocabulary resolves, the registry gives every abstract term
/// of the vocabulary its operation: the terms named `s0`, `s1`, `sadd` and
/// `ch` are the empty string, the singleton, the concatenation and the
/// character, and the term named by the hex digit `i` is that digit.
pub proof fn law_registry_tags(env: EnvV)
    requires
        env.wf(),
        registry_spec(env) is Ok,
    ensures
        ({
            let reg = registry_spec(env)->Ok_0.1;
            &&& env.term_named("s0"@) matches Some(t) && tag_of(reg, t) == Some(InoutStringType::S0)
            &&& env.term_named("s1"@) matches Some(t) && tag_of(reg, t) == Some(InoutStringType::S1)
            &&& env.term_named("sadd"@) matches Some(t) && tag_of(reg, t) == Some(
                InoutStringType::SAdd,
            )
            &&& env.term_named("ch"@) matches Some(t) && tag_of(reg, t) == Some(InoutStringType::Ch)
            &&& forall|i: u8|
                i < 16 ==> (env.term_named(#[trigger] hex_name(i)) matches Some(t) && tag_of(reg, t)
                    == Some(InoutStringType::Hex(i)))
        }),
{
    lemma_vocabulary_names();
    let s = new_sorts_spec(env)->Ok_0;
    let s0 = check_term_spec(env, "s0"@, Seq::empty(), s.str, false)->Ok_0;
    let s1 = check_term_spec(env, "s1"@, seq![s.chr], s.str, false)->Ok_0;
    let sadd = check_term_spec(env, "sadd"@, seq![s.str, s.str], s.str, false)->Ok_0;
    let ch = check_term_spec(env, "ch"@, seq![s.hex, s.hex], s.chr, false)->Ok_0;
    assert(env.term_named("s0"@) == Some(s0));
    assert(env.term_named("s1"@) == Some(s1));
    assert(env.term_named("sadd"@) == Some(sadd));
    assert(env.term_named("ch"@) == Some(ch));
    lemma_names_apart(env, "s0"@, "s1"@);
    lemma_names_apart(env, "s0"@, "sadd"@);
    lemma_names_apart(env, "s0"@, "ch"@);
    lemma_names_apart(env, "s1"@, "sadd"@);
    lemma_names_apart(env, "s1"@, "ch"@);
    lemma_names_apart(env, "sadd"@, "ch"@);
    let m = Map::<u32, InoutStringType>::empty().insert(s0.0, InoutStringType::S0).insert(
        s1.0,
        InoutStringType::S1,
    ).insert(sadd.0, InoutStringType::SAdd).insert(ch.0, InoutStringType::Ch);
    assert(tag_of(m, s0) == Some(InoutStringType::S0));
    assert(tag_of(m, s1) == Some(InoutStringType::S1));
    assert(tag_of(m, sadd) == Some(InoutStringType::SAdd));
    assert(tag_of(m, ch) == Some(InoutStringType::Ch));
    lemma_hex_digit_tags(env, s, m, 16);
    let base = with_hex_digits(env, s, m, 16)->Ok_0;
    assert(base_registry(env, s) == Ok::<_, Seq<char>>(base));
    let reg = with_scons(env, s, base);
    assert(registry_spec(env)->Ok_0.1 == reg);
    assert(tag_of(base, s0) == tag_of(m, s0));
    assert(tag_of(base, s1) == tag_of(m, s1));
    assert(tag_of(base, sadd) == tag_of(m, sadd));
    assert(tag_of(base, ch) == tag_of(m, ch));
    match check_term_spec(env, "scons"@, seq![s.chr, s.str], s.str, true) {
        Ok(t) => {
            assert(env.term_named("scons"@) == Some(t));
            lemma_names_apart(env, "scons"@, "s0"@);
            lemma_names_apart(env, "scons"@, "s1"@);
            lemma_names_apart(env, "scons"@, "sadd"@);
            lemma_names_apart(env, "scons"@, "ch"@);
            assert forall|i: u8| i < 16 implies (env.term_named(#[trigger] hex_name(i))
                matches Some(u) && tag_of(reg, u) == Some(InoutStringType::Hex(i))) by {
                assert("scons"@ != hex_name(i));
                lemma_names_apart(env, "scons"@, hex_name(i));
            }
        },
        Err(_) => {},
    }
}

/// Where the vocabulary resolves, the string of the one character made of
/// the hex digits `a` and `b`, written with the terms that bear the
/// vocabulary's names, gives the one byte `16 * a + b`.
pub proof fn law_named_char_is_one_byte(env: EnvV, a: u8, b: u8)
    requires
        env.wf(),
        registry_spec(env) is Ok,
        a < 16,
        b < 16,
    ensures
        eval_string_spec(
            env,
            registry_spec(env)->Ok_0.1,
            Seq::empty(),
            seq![
                char_string(
                    env.term_named("s1"@)->Some_0,
                    env.term_named("ch"@)->Some_0,
                    env.term_named(hex_name(a))->Some_0,
                    env.term_named(hex_name(b))->Some_0,
                ),
            ],
        ) == Ok::<_, EvalError>(seq![(16 * a + b) as u8]),
{
    law_registry_tags(env);
    law_char_is_one_byte(
        env,
        registry_spec(env)->Ok_0.1,
        env.terms.len(),
        Seq::empty(),
        env.term_named("s1"@)->Some_0,
        env.term_named("ch"@)->Some_0,
        env.term_named(hex_name(a))->Some_0,
        env.term_named(hex_name(b))->Some_0,
        a,
        b,
    );
}

/// The body "the string of the first parameter, then the second".
pub open spec fn cons_body(sadd: TermID, s1: TermID) -> Node {
    Node::App(sadd, seq![Node::App(s1, seq![Node::Ref(0)]), Node::Ref(1)])
}

/// The body "the second parameter, then the string of the first".
pub open spec fn swapped_body(sadd: TermID, s1: TermID) -> Node {
    Node::App(sadd, seq![Node::Ref(1), Node::App(s1, seq![Node::Ref(0)])])
}

/// Whether `td` is a definition of a character and a string whose heap
/// holds the two parameters alone and whose head is `head`.
pub open spec fn defined_as(td: TermV, s: Sorts, head: Node) -> bool {
    &&& td.args == seq![Type::Reg(s.chr, 0), Type::Reg(s.str, 0)]
    &&& td.body() matches Some(body) && body.heap.len() == 2 && body.head == head
}

/// A definition whose body is "the string of the first parameter, then
/// the second" comes to the sequence that makes it the built-in operation
/// "character, then string".
pub proof fn law_cons_body_recognised(
    reg: Map<u32, InoutStringType>,
    td: TermV,
    name: Seq<char>,
    s: Sorts,
    sadd: TermID,
    s1: TermID,
)
    requires
        tag_of(reg, sadd) == Some(InoutStringType::SAdd),
        tag_of(reg, s1) == Some(InoutStringType::S1),
        defined_as(td, s, cons_body(sadd, s1)),
    ensures
        process_def_spec(reg, td, name) == Ok::<_, Seq<char>>(cons_shape(s)),
{
    reveal_with_fuel(seg_node, 3);
    let body = td.body()->Some_0;
    let head = cons_body(sadd, s1);
    let first = head->App_1[0];
    assert(first == Node::App(s1, seq![Node::Ref(0)]));
    assert(first->App_1[0] == Node::Ref(0));
    assert(head->App_1[1] == Node::Ref(1));
    assert(seg_heap(reg, td.args, body.heap, 2) == Some(Seq::<Seq<SegV>>::empty()));
    let o = seg_node(reg, td.args, Seq::empty(), head, BuilderV::empty());
    assert(o.ok);
    assert(o.b.finish() =~= cons_shape(s));
}

/// A definition whose body takes the parameters in the other order comes
/// to another sequence, so that it is not made a built-in operation.
pub proof fn law_swapped_body_not_recognised(
    reg: Map<u32, InoutStringType>,
    td: TermV,
    name: Seq<char>,
    s: Sorts,
    sadd: TermID,
    s1: TermID,
)
    requires
        tag_of(reg, sadd) == Some(InoutStringType::SAdd),
        tag_of(reg, s1) == Some(InoutStringType::S1),
        defined_as(td, s, swapped_body(sadd, s1)),
    ensures
        process_def_spec(reg, td, name) == Ok::<_, Seq<char>>(
            seq![SegV::Var(s.str, 1), SegV::Var(s.chr, 0)],
        ),
        process_def_spec(reg, td, name) != Ok::<_, Seq<char>>(cons_shape(s)),
{
    reveal_with_fuel(seg_node, 3);
    let body = td.body()->Some_0;
    let head = swapped_body(sadd, s1);
    let second = head->App_1[1];
    assert(second == Node::App(s1, seq![Node::Ref(0)]));
    assert(second->App_1[0] == Node::Ref(0));
    assert(head->App_1[0] == Node::Ref(1));
    assert(seg_heap(reg, td.args, body.heap, 2) == Some(Seq::<Seq<SegV>>::empty()));
    let o = seg_node(reg, td.args, Seq::empty(), head, BuilderV::empty());
    assert(o.ok);
    let swapped = seq![SegV::Var(s.str, 1), SegV::Var(s.chr, 0)];
    assert(o.b.finish() =~= swapped);
    assert(swapped[0] != cons_shape(s)[0]);
}

/// The registry gains `scons` as "character, then string" exactly where
/// `scons` is a definition of a character and a string to a string whose
/// body comes to the parameters in order; else it stays as it is.
pub proof fn law_scons_classified(env: EnvV, s: Sorts, m: Map<u32, InoutStringType>)
    ensures
        match check_term_spec(env, "scons"@, seq![s.chr, s.str], s.str, true) {
            Ok(t) => if process_def_spec(m, env.terms[t.0 as int], "scons"@) == Ok::<
                _,
                Seq<char>,
            >(cons_shape(s)) {
                with_scons(env, s, m) == m.insert(t.0, InoutStringType::SCons)
            } else {
                with_scons(env, s, m) == m
            },
            Err(_) => with_scons(env, s, m) == m,
        },
{
}

/// The writer `w` with nothing written yet: only its waiting hex digit.
pub open spec fn unwritten(w: WriterV) -> WriterV {
    WriterV { out: Seq::empty(), hex: w.hex }
}

/// The outcome `o` of a writer that began with nothing written, after the
/// bytes of `w`.
pub open spec fn after(w: WriterV, o: WriteOutcome) -> WriteOutcome {
    WriteOutcome { w: WriterV { out: w.out + o.w.out, hex: o.w.hex }, err: o.err }
}

/// Writing only appends: what an expression writes, leaves waiting and
/// fails with depends on the waiting hex digit alone, not on the bytes
/// written before.
pub proof fn law_write_appends(
    terms: Seq<TermV>,
    reg: Map<u32, InoutStringType>,
    bound: nat,
    heap: Seq<PartV>,
    e: Node,
    w: WriterV,
)
    ensures
        write_node_spec(terms, reg, bound, heap, e, w) == after(
            w,
            write_node_spec(terms, reg, bound, heap, e, unwritten(w)),
        ),
    decreases bound, e,
{
    let w0 = unwritten(w);
    let o = write_node_spec(terms, reg, bound, heap, e, w);
    let z = write_node_spec(terms, reg, bound, heap, e, w0);
    match e {
        Node::Dummy(_, _) => {},
        Node::Ref(i) => {},
        Node::App(t, ns) => match tag_of(reg, t) {
            Some(InoutStringType::S0) => {},
            Some(InoutStringType::Hex(_)) => {},
            Some(InoutStringType::S1) => {
                if ns.len() >= 1 {
                    law_write_appends(terms, reg, bound, heap, ns[0], w);
                }
            },
            Some(_) => {
                if ns.len() >= 2 {
                    law_write_appends(terms, reg, bound, heap, ns[0], w);
                    let f = write_node_spec(terms, reg, bound, heap, ns[0], w);
                    let f0 = write_node_spec(terms, reg, bound, heap, ns[0], w0);
                    if f.err is None {
                        law_write_appends(terms, reg, bound, heap, ns[1], f.w);
                        law_write_appends(terms, reg, bound, heap, ns[1], f0.w);
                        assert(unwritten(f.w) == unwritten(f0.w));
                    }
                }
            },
            None => {
                if t.0 < bound && t.0 < terms.len() {
                    match terms[t.0 as int].body() {
                        Some(body) => match eval_args(terms, reg, bound, heap, ns, ns.len()) {
                            Ok(args) => match eval_heap(
                                terms,
                                reg,
                                t.0 as nat,
                                args,
                                body.heap,
                                body.heap.len(),
                            ) {
                                Ok(frame) => {
                                    law_write_appends(terms, reg, t.0 as nat, frame, body.head, w);
                                },
                                Err(_) => {},
                            },
                            Err(_) => {},
                        },
                        None => {},
                    }
                }
            },
        },
    }
    assert(o.w.out =~= w.out + z.w.out);
}

/// Writing the expressions of a statement only appends.
pub proof fn lemma_write_roots_appends(
    terms: Seq<TermV>,
    reg: Map<u32, InoutStringType>,
    heap: Seq<PartV>,
    exprs: Seq<Node>,
    n: nat,
    w: WriterV,
)
    ensures
        write_roots(terms, reg, heap, exprs, n, w) == after(
            w,
            write_roots(terms, reg, heap, exprs, n, unwritten(w)),
        ),
    decreases n,
{
    let w0 = unwritten(w);
    let o = write_roots(terms, reg, heap, exprs, n, w);
    let z = write_roots(terms, reg, heap, exprs, n, w0);
    if n > 0 && n <= exprs.len() {
        lemma_write_roots_appends(terms, reg, heap, exprs, (n - 1) as nat, w);
        let f = write_roots(terms, reg, heap, exprs, (n - 1) as nat, w);
        let f0 = write_roots(terms, reg, heap, exprs, (n - 1) as nat, w0);
        if f.err is None {
            law_write_appends(terms, reg, terms.len(), heap, exprs[n - 1], f.w);
            law_write_appends(terms, reg, terms.len(), heap, exprs[n - 1], f0.w);
            assert(unwritten(f.w) == unwritten(f0.w));
        }
    }
    assert(o.w.out =~= w.out + z.w.out);
}

/// Writing a statement only appends.
pub proof fn law_statement_appends(
    terms: Seq<TermV>,
    reg: Map<u32, InoutStringType>,
    heap: Seq<Node>,
    exprs: Seq<Node>,
    w: WriterV,
)
    ensures
        write_output_spec(terms, reg, heap, exprs, w) == after(
            w,
            write_output_spec(terms, reg, heap, exprs, unwritten(w)),
        ),
{
    let o = write_output_spec(terms, reg, heap, exprs, w);
    let z = write_output_spec(terms, reg, heap, exprs, unwritten(w));
    match eval_heap(terms, reg, terms.len(), Seq::empty(), heap, heap.len()) {
        Ok(parts) => {
            lemma_write_roots_appends(terms, reg, parts, exprs, exprs.len(), w);
        },
        Err(_) => {},
    }
    assert(o.w.out =~= w.out + z.w.out);
}

/// One sink after the first `n` statements were written to it, and the
/// error that ended the run, if one did.
pub ghost struct StreamV {
    pub w: WriterV,
    pub err: Option<(FileSpanV, Seq<char>)>,
}

/// The run of the first `n` statements into one sink.
pub open spec fn stream_spec(env: EnvV, stmts: Seq<StmtV>, n: nat) -> StreamV
    decreases n,
{
    if n == 0 || n > stmts.len() {
        StreamV { w: WriterV::empty(), err: None }
    } else {
        let before = stream_spec(env, stmts, (n - 1) as nat);
        if before.err is Some {
            before
        } else {
            match stmts[n - 1] {
                StmtV::OutputString(os) => match registry_spec(env) {
                    Err(e) => StreamV { w: before.w, err: Some((os.span, e)) },
                    Ok(c) => {
                        let o = write_output_spec(env.terms, c.1, os.heap, os.exprs, before.w);
                        StreamV {
                            w: o.w,
                            err: match o.err {
                                Some(x) => Some((os.span, x.text())),
                                None => None,
                            },
                        }
                    },
                },
                _ => before,
            }
        }
    }
}

/// The bytes of the first `n` chunks, one after the other.
pub open spec fn all_bytes(chunks: Seq<ChunkV>, n: nat) -> Seq<u8>
    decreases n,
{
    if n == 0 || n > chunks.len() {
        Seq::empty()
    } else {
        all_bytes(chunks, (n - 1) as nat) + chunks[n - 1].bytes
    }
}

/// The bytes of the chunks below `n` do not depend on the chunks after.
pub proof fn lemma_all_bytes_push(chunks: Seq<ChunkV>, c: ChunkV, n: nat)
    requires
        n <= chunks.len(),
    ensures
        all_bytes(chunks.push(c), n) == all_bytes(chunks, n),
    decreases n,
{
    if n > 0 {
        lemma_all_bytes_push(chunks, c, (n - 1) as nat);
    }
}

/// The chunks of a run, one after the other, are the bytes that one sink
/// receives when every statement is written to it in turn; the digit left
/// waiting and the error are the same too.
pub proof fn law_run_streams(env: EnvV, stmts: Seq<StmtV>, n: nat)
    requires
        n <= stmts.len(),
    ensures
        stream_spec(env, stmts, n).w.out == all_bytes(
            run_spec(env, stmts, n).chunks,
            run_spec(env, stmts, n).chunks.len(),
        ),
        stream_spec(env, stmts, n).w.hex == run_spec(env, stmts, n).hex,
        stream_spec(env, stmts, n).err == run_spec(env, stmts, n).err,
    decreases n,
{
    if n > 0 {
        law_run_streams(env, stmts, (n - 1) as nat);
        let before = run_spec(env, stmts, (n - 1) as nat);
        let sink = stream_spec(env, stmts, (n - 1) as nat);
        if before.err is None {
            match stmts[n - 1] {
                StmtV::OutputString(os) => match registry_spec(env) {
                    Ok(c) => {
                        law_statement_appends(env.terms, c.1, os.heap, os.exprs, sink.w);
                        assert(unwritten(sink.w) == (WriterV {
                            out: Seq::empty(),
                            hex: before.hex,
                        }));
                        let o = write_output_spec(
                            env.terms,
                            c.1,
                            os.heap,
                            os.exprs,
                            unwritten(sink.w),
                        );
                        let chunk = ChunkV { span: os.span, bytes: o.w.out };
                        lemma_all_bytes_push(before.chunks, chunk, before.chunks.len());
                        let now = before.chunks.push(chunk);
                        assert(now[now.len() - 1] == chunk);
                        assert(all_bytes(now, now.len()) == all_bytes(now, (now.len() - 1) as nat)
                            + chunk.bytes);
                    },
                    Err(_) => {},
                },
                _ => {},
            }
        }
    }
}

} // verus!
