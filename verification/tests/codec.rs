use std::collections::HashMap;
use string_output::{
    AtomData, AtomID, DeclKey, ElabError, Elaborated, Elaborator, Environment, Expr, ExprNode,
    FileSpan, FrozenEnv, InoutStringType, OutputError, OutputString, Sort, SortID, Span,
    StmtTrace, StringPart, StringSeg, StringWriter, Term, TermID, ThmID, Type,
};

const STRING: SortID = SortID(0);
const HEX: SortID = SortID(1);
const CHAR: SortID = SortID(2);

fn empty_env() -> Environment {
    Environment { data: Vec::new(), sorts: Vec::new(), terms: Vec::new(), stmts: Vec::new() }
}

fn atom(env: &mut Environment, name: &str) -> AtomID {
    for (i, d) in env.data.iter().enumerate() {
        if d.name == name {
            return AtomID(i as u32);
        }
    }
    env.data.push(AtomData { name: name.to_string(), sort: None, decl: None });
    AtomID((env.data.len() - 1) as u32)
}

fn add_sort(env: &mut Environment, name: &str) -> SortID {
    let a = atom(env, name);
    let id = SortID(env.sorts.len() as u8);
    env.sorts.push(Sort { atom: a, name: name.to_string() });
    env.data[a.0 as usize].sort = Some(id);
    id
}

fn add_term(
    env: &mut Environment,
    name: &str,
    args: &[SortID],
    ret: SortID,
    val: Option<Option<Expr>>,
) -> TermID {
    let a = atom(env, name);
    let id = TermID(env.terms.len() as u32);
    env.terms.push(Term {
        atom: a,
        args: args.iter().map(|s| (None, Type::Reg(*s, 0))).collect(),
        ret: (ret, 0),
        val,
    });
    env.data[a.0 as usize].decl = Some(DeclKey::Term(id));
    id
}

fn sorts_only() -> Environment {
    let mut env = empty_env();
    assert_eq!(add_sort(&mut env, "string"), STRING);
    assert_eq!(add_sort(&mut env, "hex"), HEX);
    assert_eq!(add_sort(&mut env, "char"), CHAR);
    env
}

const S0: TermID = TermID(0);
const S1: TermID = TermID(1);
const SADD: TermID = TermID(2);
const CH: TermID = TermID(3);

fn x(i: u8) -> TermID {
    TermID(4 + i as u32)
}

/// The vocabulary: `s0`, `s1`, `sadd`, `ch` and `x0` to `xf`, in this order.
fn base_env() -> Environment {
    let mut env = sorts_only();
    assert_eq!(add_term(&mut env, "s0", &[], STRING, None), S0);
    assert_eq!(add_term(&mut env, "s1", &[CHAR], STRING, None), S1);
    assert_eq!(add_term(&mut env, "sadd", &[STRING, STRING], STRING, None), SADD);
    assert_eq!(add_term(&mut env, "ch", &[HEX, HEX], CHAR, None), CH);
    for i in 0..16u8 {
        assert_eq!(add_term(&mut env, &format!("x{:x}", i), &[], HEX, None), x(i));
    }
    env
}

fn app(t: TermID, ns: Vec<ExprNode>) -> ExprNode {
    ExprNode::App(t, ns)
}

fn digit(i: u8) -> ExprNode {
    app(x(i), vec![])
}

fn ch(a: u8, b: u8) -> ExprNode {
    app(CH, vec![digit(a), digit(b)])
}

fn s1(c: ExprNode) -> ExprNode {
    app(S1, vec![c])
}

fn sadd(a: ExprNode, b: ExprNode) -> ExprNode {
    app(SADD, vec![a, b])
}

fn byte(b: u8) -> ExprNode {
    s1(ch(b >> 4, b & 15))
}

fn span(start: usize, end: usize) -> Span {
    Span { start, end }
}

fn here() -> FileSpan {
    FileSpan { file: "test.mm1".to_string(), span: span(10, 20) }
}

fn elaborator(env: Environment) -> Elaborator {
    assert!(env.is_wf());
    Elaborator::new(env, "test.mm1".to_string(), b"output string: $ s0 $;".to_vec())
}

fn strings(n: usize) -> Vec<Elaborated> {
    (0..n).map(|i| Elaborated { span: span(100 + i, 101 + i), sort: STRING }).collect()
}

fn eval(env: Environment, heap: Vec<ExprNode>, exprs: Vec<ExprNode>) -> Result<Vec<u8>, ElabError> {
    let mut elab = elaborator(env);
    assert!(elab.env.dag_check(&heap, &exprs));
    elab.eval_string(here(), &strings(exprs.len()), &heap, &exprs)
}

fn registry(env: &Environment) -> HashMap<u32, InoutStringType> {
    assert!(env.is_wf());
    env.new_string_handler().unwrap().1
}

fn expect_err<T: std::fmt::Debug>(r: Result<T, ElabError>, pos: Span, msg: &str) {
    let e = r.unwrap_err();
    assert_eq!(e.pos, pos);
    assert_eq!(e.msg, msg);
}

fn message(e: OutputError) -> String {
    match e {
        OutputError::String(s) => s,
        OutputError::IOError(e) => panic!("unexpected I/O error: {}", e),
    }
}

#[test]
fn every_pair_of_hex_digits_is_one_byte() {
    for a in 0..16u8 {
        for b in 0..16u8 {
            let out = eval(base_env(), vec![], vec![s1(ch(a, b))]).unwrap();
            assert_eq!(out, vec![a << 4 | b]);
        }
    }
}

#[test]
fn singleton_of_x0_x1_is_byte_01() {
    assert_eq!(eval(base_env(), vec![], vec![s1(ch(0, 1))]).unwrap(), vec![0x01u8]);
}

#[test]
fn the_empty_string_writes_nothing() {
    assert_eq!(eval(base_env(), vec![], vec![app(S0, vec![])]).unwrap(), Vec::<u8>::new());
    assert_eq!(eval(base_env(), vec![], vec![]).unwrap(), Vec::<u8>::new());
}

#[test]
fn concatenation_is_associative() {
    let left = sadd(sadd(byte(0x61), byte(0x62)), byte(0x63));
    let right = sadd(byte(0x61), sadd(byte(0x62), byte(0x63)));
    let l = eval(base_env(), vec![], vec![left]).unwrap();
    let r = eval(base_env(), vec![], vec![right]).unwrap();
    assert_eq!(l, vec![0x61u8, 0x62, 0x63]);
    assert_eq!(l, r);
}

#[test]
fn concatenation_is_associative_for_lone_digits() {
    // hex digits are no strings, yet the writer pairs them up all the same
    let left = sadd(sadd(digit(1), digit(2)), digit(3));
    let right = sadd(digit(1), sadd(digit(2), digit(3)));
    let l = eval(base_env(), vec![], vec![left, digit(4)]).unwrap();
    let r = eval(base_env(), vec![], vec![right, digit(4)]).unwrap();
    assert_eq!(l, vec![0x12u8, 0x34]);
    assert_eq!(l, r);
}

#[test]
fn a_definition_is_unfolded_with_its_argument() {
    // foo(x) := sadd(s1(x), s0())
    let mut env = base_env();
    let body = Expr {
        heap: vec![ExprNode::Ref(0)],
        head: sadd(s1(ExprNode::Ref(0)), app(S0, vec![])),
    };
    let foo = add_term(&mut env, "foo", &[CHAR], STRING, Some(Some(body)));
    let out = eval(env, vec![], vec![app(foo, vec![ch(4, 2)])]).unwrap();
    assert_eq!(out, vec![0x42u8]);
}

#[test]
fn a_definition_with_shared_subterms_is_unfolded() {
    // twice(s) := let t = sadd(s, s) in sadd(t, t)
    let mut env = base_env();
    let body = Expr {
        heap: vec![ExprNode::Ref(0), sadd(ExprNode::Ref(0), ExprNode::Ref(0))],
        head: sadd(ExprNode::Ref(1), ExprNode::Ref(1)),
    };
    let twice = add_term(&mut env, "twice", &[STRING], STRING, Some(Some(body)));
    let out = eval(env, vec![], vec![app(twice, vec![byte(0x7a)])]).unwrap();
    assert_eq!(out, vec![0x7au8; 4]);
}

#[test]
fn definitions_unfold_through_each_other() {
    let mut env = base_env();
    let pair = add_term(
        &mut env,
        "pair",
        &[CHAR, CHAR],
        STRING,
        Some(Some(Expr {
            heap: vec![ExprNode::Ref(0), ExprNode::Ref(1)],
            head: sadd(s1(ExprNode::Ref(0)), s1(ExprNode::Ref(1))),
        })),
    );
    let same = add_term(
        &mut env,
        "same",
        &[CHAR],
        STRING,
        Some(Some(Expr {
            heap: vec![ExprNode::Ref(0)],
            head: app(pair, vec![ExprNode::Ref(0), ExprNode::Ref(0)]),
        })),
    );
    let out = eval(env, vec![], vec![app(same, vec![ch(2, 0xa)])]).unwrap();
    assert_eq!(out, vec![0x2au8, 0x2a]);
}

#[test]
fn heap_entries_are_replayed_wherever_they_are_referred_to() {
    let heap = vec![byte(0x68), sadd(ExprNode::Ref(0), byte(0x69))];
    let exprs = vec![ExprNode::Ref(1), ExprNode::Ref(0), ExprNode::Ref(1)];
    let out = eval(base_env(), heap, exprs).unwrap();
    assert_eq!(out, vec![0x68u8, 0x69, 0x68, 0x68, 0x69]);
}

#[test]
fn half_bytes_from_separate_entries_pair_up() {
    let heap = vec![digit(0xc), digit(0x3)];
    let out = eval(base_env(), heap, vec![ExprNode::Ref(0), ExprNode::Ref(1)]).unwrap();
    assert_eq!(out, vec![0xc3u8]);
}

#[test]
fn a_digit_left_waiting_is_not_among_the_bytes() {
    let out = eval(base_env(), vec![], vec![byte(0x31), digit(7)]).unwrap();
    assert_eq!(out, vec![0x31u8]);
}

fn cons_in_order() -> Expr {
    Expr {
        heap: vec![ExprNode::Ref(0), ExprNode::Ref(1)],
        head: sadd(s1(ExprNode::Ref(0)), ExprNode::Ref(1)),
    }
}

fn cons_swapped() -> Expr {
    Expr {
        heap: vec![ExprNode::Ref(0), ExprNode::Ref(1)],
        head: sadd(ExprNode::Ref(1), s1(ExprNode::Ref(0))),
    }
}

#[test]
fn scons_in_order_is_made_a_built_in() {
    let mut env = base_env();
    let scons = add_term(&mut env, "scons", &[CHAR, STRING], STRING, Some(Some(cons_in_order())));
    let reg = registry(&env);
    assert_eq!(reg.get(&scons.0), Some(&InoutStringType::SCons));
    assert_eq!(reg.len(), 21);
    let out = eval(env, vec![], vec![app(scons, vec![ch(4, 1), byte(0x42)])]).unwrap();
    assert_eq!(out, vec![0x41u8, 0x42]);
}

#[test]
fn scons_swapped_is_not_made_a_built_in() {
    let mut env = base_env();
    let scons = add_term(&mut env, "scons", &[CHAR, STRING], STRING, Some(Some(cons_swapped())));
    let reg = registry(&env);
    assert_eq!(reg.get(&scons.0), None);
    assert_eq!(reg.len(), 20);
    // unfolded as any definition: the string comes first
    let out = eval(env, vec![], vec![app(scons, vec![ch(4, 1), byte(0x42)])]).unwrap();
    assert_eq!(out, vec![0x42u8, 0x41]);
}

#[test]
fn scons_with_an_added_byte_is_not_made_a_built_in() {
    let mut env = base_env();
    let body = Expr {
        heap: vec![ExprNode::Ref(0), ExprNode::Ref(1)],
        head: sadd(s1(ExprNode::Ref(0)), sadd(byte(0x20), ExprNode::Ref(1))),
    };
    let scons = add_term(&mut env, "scons", &[CHAR, STRING], STRING, Some(Some(body)));
    assert_eq!(registry(&env).get(&scons.0), None);
    let out = eval(env, vec![], vec![app(scons, vec![ch(4, 1), byte(0x42)])]).unwrap();
    assert_eq!(out, vec![0x41u8, 0x20, 0x42]);
}

#[test]
fn scons_that_is_abstract_or_of_another_type_is_passed_over() {
    let mut env = base_env();
    add_term(&mut env, "scons", &[CHAR, STRING], STRING, None);
    assert_eq!(registry(&env).len(), 20);
    let mut env = base_env();
    add_term(&mut env, "scons", &[STRING, CHAR], STRING, Some(Some(cons_in_order())));
    assert_eq!(registry(&env).len(), 20);
    let mut env = base_env();
    add_term(&mut env, "scons", &[CHAR, STRING], STRING, Some(None));
    assert_eq!(registry(&env).len(), 20);
}

#[test]
fn scons_through_its_heap_is_made_a_built_in() {
    let mut env = base_env();
    let body = Expr {
        heap: vec![ExprNode::Ref(0), ExprNode::Ref(1), s1(ExprNode::Ref(0))],
        head: sadd(ExprNode::Ref(2), ExprNode::Ref(1)),
    };
    let scons = add_term(&mut env, "scons", &[CHAR, STRING], STRING, Some(Some(body)));
    assert_eq!(registry(&env).get(&scons.0), Some(&InoutStringType::SCons));
}

#[test]
fn the_registry_tags_every_term_of_the_vocabulary() {
    let env = base_env();
    let (sorts, reg) = env.new_string_handler().unwrap();
    assert_eq!((sorts.str, sorts.hex, sorts.chr), (STRING, HEX, CHAR));
    assert_eq!(reg.get(&S0.0), Some(&InoutStringType::S0));
    assert_eq!(reg.get(&S1.0), Some(&InoutStringType::S1));
    assert_eq!(reg.get(&SADD.0), Some(&InoutStringType::SAdd));
    assert_eq!(reg.get(&CH.0), Some(&InoutStringType::Ch));
    for i in 0..16u8 {
        assert_eq!(reg.get(&x(i).0), Some(&InoutStringType::Hex(i)));
    }
}

#[test]
fn a_dummy_fails_and_gives_no_bytes() {
    let dummy = || ExprNode::Dummy(AtomID(0), STRING);
    let msg = "Found dummy variable in string definition";
    expect_err(eval(base_env(), vec![], vec![dummy()]), span(10, 20), msg);
    expect_err(
        eval(base_env(), vec![], vec![sadd(byte(0x41), s1(dummy()))]),
        span(10, 20),
        msg,
    );
    expect_err(eval(base_env(), vec![byte(0x41), dummy()], vec![byte(0x42)]), span(10, 20), msg);
    expect_err(
        eval(base_env(), vec![], vec![byte(0x41), sadd(dummy(), byte(0x42))]),
        span(10, 20),
        msg,
    );
}

#[test]
fn a_dummy_in_an_argument_of_a_definition_fails() {
    let mut env = base_env();
    let body = Expr {
        heap: vec![ExprNode::Ref(0)],
        head: app(S0, vec![]),
    };
    let drop = add_term(&mut env, "drop", &[STRING], STRING, Some(Some(body)));
    let e = app(drop, vec![ExprNode::Dummy(AtomID(0), STRING)]);
    expect_err(
        eval(env, vec![], vec![e]),
        span(10, 20),
        "Found dummy variable in string definition",
    );
}

#[test]
fn an_abstract_term_outside_the_vocabulary_fails() {
    let mut env = base_env();
    let other = add_term(&mut env, "other", &[STRING], STRING, None);
    expect_err(
        eval(env, vec![], vec![app(other, vec![byte(0x41)])]),
        span(10, 20),
        "Unknown definition",
    );
}

#[test]
fn an_abstract_term_fails_before_its_arguments_are_read() {
    let mut env = base_env();
    let other = add_term(&mut env, "other", &[STRING], STRING, None);
    let e = app(other, vec![ExprNode::Dummy(AtomID(0), STRING)]);
    expect_err(eval(env, vec![], vec![e]), span(10, 20), "Unknown definition");
}

#[test]
fn a_definition_without_a_body_fails() {
    let mut env = base_env();
    let hidden = add_term(&mut env, "hidden", &[], STRING, Some(None));
    expect_err(eval(env, vec![], vec![app(hidden, vec![])]), span(10, 20), "Unknown definition");
}

fn without_sort(name: &str) -> Environment {
    let mut env = base_env();
    let a = atom(&mut env, name);
    env.data[a.0 as usize].sort = None;
    env
}

#[test]
fn without_the_sort_hex_resolution_fails_and_names_hex() {
    let env = without_sort("hex");
    assert!(env.is_wf());
    assert_eq!(env.new_string_handler().unwrap_err(), "sort 'hex' not found");
    expect_err(eval(env, vec![], vec![byte(1)]), span(10, 20), "sort 'hex' not found");
}

#[test]
fn each_missing_sort_is_named() {
    assert_eq!(without_sort("string").new_sorts().unwrap_err(), "sort 'string' not found");
    assert_eq!(without_sort("char").new_sorts().unwrap_err(), "sort 'char' not found");
    assert_eq!(empty_env().new_sorts().unwrap_err(), "sort 'string' not found");
    assert_eq!(base_env().check_sort("nat").unwrap_err(), "sort 'nat' not found");
    assert_eq!(base_env().check_sort("char").unwrap(), CHAR);
    // a term of that name is no sort
    assert_eq!(base_env().check_sort("s0").unwrap_err(), "sort 's0' not found");
}

#[test]
fn a_missing_term_is_named() {
    let mut env = sorts_only();
    add_term(&mut env, "s0", &[], STRING, None);
    assert!(env.is_wf());
    assert_eq!(env.new_string_handler().unwrap_err(), "term 's1' not found");
    assert_eq!(sorts_only().new_string_handler().unwrap_err(), "term 's0' not found");
}

#[test]
fn a_missing_hex_digit_is_named() {
    let mut env = base_env();
    let a = atom(&mut env, "xc");
    env.data[a.0 as usize].decl = None;
    assert_eq!(env.new_string_handler().unwrap_err(), "term 'xc' not found");
    // a theorem of that name is no term
    env.data[a.0 as usize].decl = Some(DeclKey::Thm(ThmID(0)));
    assert_eq!(env.new_string_handler().unwrap_err(), "term 'xc' not found");
}

#[test]
fn a_term_of_the_wrong_kind_is_reported() {
    let mut env = base_env();
    env.terms[SADD.0 as usize].val = Some(None);
    assert_eq!(env.new_string_handler().unwrap_err(), "def 'sadd' should be a term");
    let env = base_env();
    assert_eq!(
        env.check_term("s1", &[CHAR], STRING, true).unwrap_err(),
        "term 's1' should be a def"
    );
    assert_eq!(env.check_term("s1", &[CHAR], STRING, false).unwrap(), S1);
}

#[test]
fn a_term_of_the_wrong_type_is_reported_with_the_expected_one() {
    let mut env = base_env();
    env.terms[CH.0 as usize].args.pop();
    assert_eq!(
        env.new_string_handler().unwrap_err(),
        "term 'ch' has incorrect type, expected: hex > hex > char"
    );
    let mut env = base_env();
    env.terms[S0.0 as usize].ret = (CHAR, 0);
    assert_eq!(
        env.new_string_handler().unwrap_err(),
        "term 's0' has incorrect type, expected: string"
    );
    let mut env = base_env();
    env.terms[S1.0 as usize].args[0].1 = Type::Bound(CHAR);
    assert_eq!(
        env.new_string_handler().unwrap_err(),
        "term 's1' has incorrect type, expected: char > string"
    );
    let mut env = base_env();
    env.terms[SADD.0 as usize].args[1].1 = Type::Reg(STRING, 1);
    assert_eq!(
        env.new_string_handler().unwrap_err(),
        "term 'sadd' has incorrect type, expected: string > string > string"
    );
    let mut env = base_env();
    env.terms[x(10).0 as usize].ret = (HEX, 2);
    assert_eq!(
        env.new_string_handler().unwrap_err(),
        "term 'xa' has incorrect type, expected: hex"
    );
}

#[test]
fn the_first_atom_of_a_name_is_the_one_found() {
    let mut env = base_env();
    env.data.push(AtomData { name: "hex".to_string(), sort: None, decl: None });
    assert!(env.is_wf());
    assert_eq!(env.get_atom("hex"), Some(AtomID(1)));
    assert_eq!(env.check_sort("hex").unwrap(), HEX);
    assert_eq!(env.get_atom("nothing"), None);
}

#[test]
fn an_expression_of_another_sort_is_a_type_error() {
    let mut elab = elaborator(base_env());
    let vals = vec![
        Elaborated { span: span(1, 2), sort: STRING },
        Elaborated { span: span(3, 4), sort: CHAR },
        Elaborated { span: span(5, 6), sort: HEX },
    ];
    let r = elab.eval_string(here(), &vals, &[], &[byte(1), ch(0, 2), digit(3)]);
    expect_err(r, span(3, 4), "type error: expected string, got char");
    let r = elab.elab_output_string(span(7, 9), &vals, vec![], vec![byte(1), ch(0, 2), digit(3)]);
    expect_err(r, span(7, 9), "type error: expected string, got char");
    assert!(elab.env.stmts.is_empty());
}

#[test]
fn the_vocabulary_is_resolved_once_and_kept() {
    let mut elab = elaborator(base_env());
    assert!(elab.inout.string.is_none());
    let sorts = elab.get_string_handler(span(0, 1)).unwrap();
    assert_eq!(sorts.str, STRING);
    assert_eq!(elab.inout.string.as_ref().unwrap().1.len(), 20);
    assert_eq!(elab.get_string_handler(span(0, 1)).unwrap(), sorts);
    assert_eq!(elab.eval_string(here(), &strings(1), &[], &[byte(0x55)]).unwrap(), vec![0x55u8]);
}

#[test]
fn an_error_of_resolution_is_reported_at_the_span_given() {
    let mut elab = elaborator(without_sort("char"));
    expect_err(elab.get_string_handler(span(3, 8)), span(3, 8), "sort 'char' not found");
    assert!(elab.inout.string.is_none());
    let r = elab.elab_output_string(span(4, 9), &[], vec![], vec![]);
    expect_err(r, span(4, 9), "sort 'char' not found");
    assert!(elab.env.stmts.is_empty());
}

#[test]
fn output_string_records_a_statement() {
    let mut elab = elaborator(base_env());
    // the source is "output string: $ s0 $;": the kind stands at 7..13
    let r = elab.elab_output(
        span(0, 22),
        span(7, 13),
        &strings(1),
        vec![byte(0x41)],
        vec![ExprNode::Ref(0)],
    );
    assert!(r.is_ok());
    assert_eq!(elab.env.stmts.len(), 1);
    match &elab.env.stmts[0] {
        StmtTrace::OutputString(os) => {
            assert_eq!(os.span.file, "test.mm1");
            assert_eq!(os.span.span, span(0, 22));
            assert_eq!(os.heap.len(), 1);
            assert_eq!(os.exprs.len(), 1);
        }
        other => panic!("unexpected statement {:?}", other),
    }
    assert!(elab.env.is_wf());
}

#[test]
fn any_other_kind_of_output_is_unsupported() {
    let mut elab = elaborator(base_env());
    let r = elab.elab_output(span(0, 22), span(0, 6), &[], vec![], vec![]);
    expect_err(r, span(0, 6), "unsupported output kind");
    let r = elab.elab_output(span(0, 22), span(7, 12), &[], vec![], vec![]);
    expect_err(r, span(7, 12), "unsupported output kind");
    let r = elab.elab_output(span(0, 22), span(7, 14), &[], vec![], vec![]);
    expect_err(r, span(7, 14), "unsupported output kind");
    let r = elab.elab_output(span(0, 22), span(3, 3), &[], vec![], vec![]);
    expect_err(r, span(3, 3), "unsupported output kind");
    assert!(elab.env.stmts.is_empty());
    assert!(elab.inout.string.is_none());
}

#[test]
fn input_is_unsupported() {
    let mut elab = elaborator(base_env());
    expect_err(elab.elab_input(span(0, 22), span(6, 12)), span(6, 12), "unsupported input kind");
    assert!(elab.env.stmts.is_empty());
}

fn statement(at: usize, heap: Vec<ExprNode>, exprs: Vec<ExprNode>) -> StmtTrace {
    StmtTrace::OutputString(OutputString {
        span: FileSpan { file: "run.mm1".to_string(), span: span(at, at + 1) },
        heap,
        exprs,
    })
}

fn chunks(env: Environment) -> (Vec<(usize, Vec<u8>)>, Result<(), (usize, String)>) {
    assert!(env.is_wf());
    let run = FrozenEnv(env).run_output();
    let chunks = run.chunks.into_iter().map(|c| (c.span.span.start, c.bytes)).collect();
    let result = run.result.map_err(|(sp, e)| (sp.span.start, message(e)));
    (chunks, result)
}

#[test]
fn a_run_writes_every_output_statement_in_order() {
    let mut env = base_env();
    env.stmts.push(StmtTrace::Sort(AtomID(0)));
    env.stmts.push(statement(1, vec![], vec![byte(0x68), byte(0x69)]));
    env.stmts.push(StmtTrace::Decl(AtomID(3)));
    env.stmts.push(statement(2, vec![byte(0x21)], vec![ExprNode::Ref(0), ExprNode::Ref(0)]));
    env.stmts.push(StmtTrace::Global(AtomID(4)));
    env.stmts.push(statement(3, vec![], vec![]));
    let (chunks, result) = chunks(env);
    assert_eq!(chunks, vec![(1, vec![0x68u8, 0x69]), (2, vec![0x21, 0x21]), (3, vec![])]);
    assert_eq!(result, Ok(()));
}

#[test]
fn a_run_carries_a_waiting_digit_to_the_next_statement() {
    let mut env = base_env();
    env.stmts.push(statement(1, vec![], vec![byte(0x10), digit(0xa)]));
    env.stmts.push(statement(2, vec![], vec![digit(0xb), byte(0x20), digit(0xc)]));
    let (chunks, result) = chunks(env);
    assert_eq!(chunks, vec![(1, vec![0x10u8]), (2, vec![0xab, 0x20])]);
    assert_eq!(result, Ok(()));
}

#[test]
fn a_run_stops_at_the_first_statement_that_fails() {
    let mut env = base_env();
    let other = add_term(&mut env, "other", &[], STRING, None);
    env.stmts.push(statement(1, vec![], vec![byte(0x31)]));
    env.stmts.push(statement(2, vec![], vec![byte(0x32), app(other, vec![]), byte(0x33)]));
    env.stmts.push(statement(3, vec![], vec![byte(0x34)]));
    let (chunks, result) = chunks(env);
    // what was written before the failure stays written
    assert_eq!(chunks, vec![(1, vec![0x31u8]), (2, vec![0x32])]);
    assert_eq!(result, Err((2, "Unknown definition".to_string())));
}

#[test]
fn a_run_reports_a_dummy_at_its_statement() {
    let mut env = base_env();
    env.stmts.push(statement(5, vec![ExprNode::Dummy(AtomID(1), STRING)], vec![byte(0x31)]));
    let (chunks, result) = chunks(env);
    assert_eq!(chunks, vec![(5, vec![])]);
    assert_eq!(result, Err((5, "Found dummy variable in string definition".to_string())));
}

#[test]
fn a_run_resolves_the_vocabulary_at_the_first_output_statement() {
    let mut env = without_sort("hex");
    env.stmts.push(StmtTrace::Sort(AtomID(0)));
    let (chunks, result) = chunks(env);
    assert_eq!(chunks, vec![]);
    assert_eq!(result, Ok(()));
    let mut env = without_sort("hex");
    env.stmts.push(StmtTrace::Sort(AtomID(0)));
    env.stmts.push(statement(7, vec![], vec![]));
    env.stmts.push(statement(8, vec![], vec![]));
    let (chunks, result) = self::chunks(env);
    assert_eq!(chunks, vec![]);
    assert_eq!(result, Err((7, "sort 'hex' not found".to_string())));
}

#[test]
fn write_node_streams_into_the_writer_it_is_given() {
    let env = base_env();
    let reg = registry(&env);
    let heap = vec![StringPart::Hex(5), StringPart::Str(vec![1, 2])];
    let mut w = StringWriter { w: vec![0xff], hex: Some(0xe) };
    let e = sadd(ExprNode::Ref(1), sadd(ExprNode::Ref(0), digit(6)));
    assert!(env.node_check(&e, heap.len(), env.terms.len()));
    env.write_node(&reg, &heap, &e, &mut w).unwrap();
    assert_eq!(w.w, vec![0xffu8, 1, 2, 0xe5]);
    assert_eq!(w.hex, Some(6));
}

#[test]
fn write_node_keeps_what_was_written_before_an_error() {
    let env = base_env();
    let reg = registry(&env);
    let mut w = StringWriter::default();
    let e = sadd(byte(0x41), sadd(digit(4), ExprNode::Dummy(AtomID(0), STRING)));
    let err = env.write_node(&reg, &vec![], &e, &mut w).unwrap_err();
    assert_eq!(message(err), "Found dummy variable in string definition");
    assert_eq!(w.w, vec![0x41u8]);
    assert_eq!(w.hex, Some(4));
}

#[test]
fn a_node_by_itself_comes_to_bytes_or_to_a_waiting_digit() {
    let env = base_env();
    let reg = registry(&env);
    let heap = vec![StringPart::Str(vec![7])];
    let part = env.evaluate_to_part(&reg, &heap, &sadd(ExprNode::Ref(0), byte(0x41))).unwrap();
    assert!(matches!(part, StringPart::Str(ref s) if s == &vec![7u8, 0x41]));
    let part = env.evaluate_to_part(&reg, &heap, &digit(9)).unwrap();
    assert!(matches!(part, StringPart::Hex(9)));
    // the waiting digit is what is kept; the bytes before it are not
    let part = env.evaluate_to_part(&reg, &heap, &sadd(byte(0x41), digit(3))).unwrap();
    assert!(matches!(part, StringPart::Hex(3)));
    let err = env
        .evaluate_to_part(&reg, &heap, &ExprNode::Dummy(AtomID(0), STRING))
        .unwrap_err();
    assert_eq!(message(err), "Found dummy variable in string definition");
}

#[test]
fn write_output_string_resolves_the_heap_first() {
    let env = base_env();
    let reg = registry(&env);
    let mut w = StringWriter::default();
    let heap = vec![byte(0x41), ExprNode::Dummy(AtomID(0), STRING)];
    let err = env.write_output_string(&reg, &mut w, &heap, &[byte(0x42)]).unwrap_err();
    assert_eq!(message(err), "Found dummy variable in string definition");
    assert!(w.w.is_empty());
}

#[test]
fn a_writer_becomes_its_bytes_or_its_waiting_digit() {
    let part = StringPart::from(StringWriter { w: vec![1, 2], hex: None });
    assert!(matches!(part, StringPart::Str(ref s) if s == &vec![1u8, 2]));
    let part = StringPart::from(StringWriter { w: vec![1, 2], hex: Some(3) });
    assert!(matches!(part, StringPart::Hex(3)));
    let part = StringPart::from(StringWriter::default());
    assert!(matches!(part, StringPart::Str(ref s) if s.is_empty()));
}

#[test]
fn an_output_error_holds_its_text() {
    assert_eq!(message(OutputError::msg("Unknown definition")), "Unknown definition");
    let io = std::io::Error::new(std::io::ErrorKind::Other, "closed");
    assert!(matches!(OutputError::from(io), OutputError::IOError(_)));
}

#[test]
fn the_names_of_the_hex_digits() {
    let names: Vec<&str> = (0..16u8).map(string_output::handlers::hex_term_name).collect();
    assert_eq!(
        names,
        vec![
            "x0", "x1", "x2", "x3", "x4", "x5", "x6", "x7", "x8", "x9", "xa", "xb", "xc", "xd",
            "xe", "xf"
        ]
    );
}

fn show(segs: &[StringSeg]) -> String {
    let mut out = String::new();
    for s in segs {
        match s {
            StringSeg::Str(b) => out.push_str(&format!("str{:?}", b)),
            StringSeg::Var(s, i) => out.push_str(&format!("var({},{})", s.0, i)),
            StringSeg::Hex(h) => out.push_str(&format!("hex({})", h)),
            StringSeg::Term(t, args) => {
                let args: Vec<String> = args.iter().map(|a| show(a)).collect();
                out.push_str(&format!("term({};{})", t.0, args.join(";")));
            }
        }
        out.push(' ');
    }
    out.trim_end().to_string()
}

#[test]
fn the_body_of_a_definition_comes_to_its_segments() {
    let mut env = base_env();
    let other = add_term(&mut env, "other", &[STRING, CHAR], STRING, None);
    let body = Expr {
        heap: vec![
            ExprNode::Ref(0),
            ExprNode::Ref(1),
            sadd(byte(0x61), sadd(ExprNode::Ref(1), digit(7))),
        ],
        head: sadd(
            sadd(byte(0x62), ExprNode::Ref(2)),
            sadd(app(other, vec![sadd(byte(0x63), byte(0x64)), ch(6, 5)]), ExprNode::Ref(0)),
        ),
    };
    let def = add_term(&mut env, "def", &[CHAR, STRING], STRING, Some(Some(body)));
    let reg = registry(&env);
    let segs = env.process_def(&reg, def, "def").unwrap();
    assert_eq!(
        show(&segs),
        "str[98, 97] var(0,1) hex(7) term(20;str[99, 100];str[101]) var(2,0)"
    );
}

#[test]
fn the_body_of_a_definition_with_a_dummy_fails() {
    let mut env = base_env();
    let body = Expr {
        heap: vec![ExprNode::Ref(0)],
        head: sadd(ExprNode::Ref(0), ExprNode::Dummy(AtomID(0), STRING)),
    };
    let def = add_term(&mut env, "def", &[STRING], STRING, Some(Some(body)));
    let reg = registry(&env);
    assert_eq!(env.process_def(&reg, def, "def").unwrap_err(), "dummy not permitted");
    assert_eq!(env.process_def(&reg, S0, "s0").unwrap_err(), "term 's0' should be a def");
}

#[test]
fn the_environment_is_checked() {
    assert!(base_env().is_wf());
    assert!(empty_env().is_wf());
    // a definition may not mention itself
    let mut env = base_env();
    let id = TermID(env.terms.len() as u32);
    let body = Expr { heap: vec![], head: app(id, vec![]) };
    add_term(&mut env, "loop", &[], STRING, Some(Some(body)));
    assert!(!env.is_wf());
    // nor refer past its heap
    let mut env = base_env();
    let body = Expr { heap: vec![ExprNode::Ref(0)], head: ExprNode::Ref(1) };
    add_term(&mut env, "far", &[STRING], STRING, Some(Some(body)));
    assert!(!env.is_wf());
    // a heap entry refers only to those before it
    let mut env = base_env();
    env.stmts.push(statement(1, vec![ExprNode::Ref(0)], vec![]));
    assert!(!env.is_wf());
    // an application has as many arguments as the term has binders
    let mut env = base_env();
    env.stmts.push(statement(1, vec![], vec![app(S1, vec![])]));
    assert!(!env.is_wf());
    // handles point into the tables
    let mut env = base_env();
    env.data[0].sort = Some(SortID(9));
    assert!(!env.is_wf());
    let mut env = base_env();
    env.sorts[0].atom = AtomID(1000);
    assert!(!env.is_wf());
    // a sort or a term belongs to the one atom that names it
    let mut env = base_env();
    env.data.push(AtomData { name: "str".to_string(), sort: Some(STRING), decl: None });
    assert!(!env.is_wf());
    let mut env = base_env();
    env.data.push(AtomData { name: "zero".to_string(), sort: None, decl: Some(DeclKey::Term(x(0))) });
    assert!(!env.is_wf());
    let mut env = base_env();
    env.terms[S0.0 as usize].atom = AtomID(0);
    assert!(!env.is_wf());
}
