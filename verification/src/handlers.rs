//! The built-in vocabulary of strings and its resolution in an environment:
//! three sorts and twenty terms, each looked up by name and held to its
//! signature.

use std::collections::HashMap;
use vstd::prelude::*;
use vstd::std_specs::hash::*;
use crate::alias::{process_def_spec, registry_ok};
use crate::environment::{
    lemma_atom_below, DeclKey, EnvV, Environment, SortID, TermID, TermV, Type,
};
use crate::segment::{segs_view, SegV, StringSeg};

verus! {

/// What a term of the vocabulary does when a string is written.
#[derive(Clone, Copy, Debug, PartialEq, Eq, Structural)]
pub enum InoutStringType {
    /// The empty string.
    S0,
    /// The string of one character.
    S1,
    /// Two strings, one after the other.
    SAdd,
    /// A character, then a string.
    SCons,
    /// The character made of two hex digits.
    Ch,
    /// A hex digit, by its value.
    Hex(u8),
}

/// The three sorts of the vocabulary.
#[derive(Clone, Copy, Debug, PartialEq, Eq, Structural)]
pub struct Sorts {
    /// The sort `string`.
    pub str: SortID,
    /// The sort `hex`.
    pub hex: SortID,
    /// The sort `char`.
    pub chr: SortID,
}

/// Whether an executable result, whose error is a text, is the given result
/// over sequences of characters.
pub open spec fn same_result<T>(r: Result<T, String>, m: Result<T, Seq<char>>) -> bool {
    match (r, m) {
        (Ok(a), Ok(b)) => a == b,
        (Err(e), Err(f)) => e@ == f,
        _ => false,
    }
}

/// The text that reports a missing sort.
pub open spec fn sort_not_found(name: Seq<char>) -> Seq<char> {
    "sort '"@ + name + "' not found"@
}

/// The text that reports a missing term.
pub open spec fn term_not_found(name: Seq<char>) -> Seq<char> {
    "term '"@ + name + "' not found"@
}

/// The text that reports a definition where an abstract term is due.
pub open spec fn should_be_term(name: Seq<char>) -> Seq<char> {
    "def '"@ + name + "' should be a term"@
}

/// The text that reports an abstract term where a definition is due.
pub open spec fn should_be_def(name: Seq<char>) -> Seq<char> {
    "term '"@ + name + "' should be a def"@
}

/// The names of the first `n` sorts of `args`, each followed by an arrow.
pub open spec fn arrow_text(env: EnvV, args: Seq<SortID>, n: nat) -> Seq<char>
    decreases n,
{
    if n == 0 || n > args.len() {
        Seq::empty()
    } else {
        arrow_text(env, args, (n - 1) as nat) + env.sort_name(args[n - 1]) + " > "@
    }
}

/// The text that reports a term of another signature than the expected
/// one, which it spells out: the sorts of the arguments, then that of the
/// result.
pub open spec fn incorrect_type(env: EnvV, name: Seq<char>, args: Seq<SortID>, ret: SortID) -> Seq<
    char,
> {
    "term '"@ + name + "' has incorrect type, expected: "@ + arrow_text(env, args, args.len())
        + env.sort_name(ret)
}

/// Whether a term takes regular arguments of the sorts `args`, in order,
/// and gives a result of sort `ret`, none depending on a bound variable.
pub open spec fn has_signature(td: TermV, args: Seq<SortID>, ret: SortID) -> bool {
    &&& td.ret == (ret, 0u64)
    &&& td.args.len() == args.len()
    &&& forall|i: int| 0 <= i < args.len() ==> #[trigger] td.args[i] == Type::Reg(args[i], 0)
}

/// The sort of the given name, or the text that says it is missing.
pub open spec fn check_sort_spec(env: EnvV, name: Seq<char>) -> Result<SortID, Seq<char>> {
    match env.sort_named(name) {
        Some(s) => Ok(s),
        None => Err(sort_not_found(name)),
    }
}

/// The three sorts, or the text on the first that is missing: `string`,
/// then `hex`, then `char`.
pub open spec fn new_sorts_spec(env: EnvV) -> Result<Sorts, Seq<char>> {
    match check_sort_spec(env, "string"@) {
        Err(e) => Err(e),
        Ok(str) => match check_sort_spec(env, "hex"@) {
            Err(e) => Err(e),
            Ok(hex) => match check_sort_spec(env, "char"@) {
                Err(e) => Err(e),
                Ok(chr) => Ok(Sorts { str, hex, chr }),
            },
        },
    }
}

/// The term of the given name, provided that it is a definition or not as
/// `def` says and has the given signature; else the text on what is wrong:
/// that the name is no term, then that it is of the other kind, then that
/// its signature is another.
pub open spec fn check_term_spec(
    env: EnvV,
    name: Seq<char>,
    args: Seq<SortID>,
    ret: SortID,
    def: bool,
) -> Result<TermID, Seq<char>> {
    match env.term_named(name) {
        None => Err(term_not_found(name)),
        Some(t) => {
            let td = env.terms[t.0 as int];
            if !def && td.val is Some {
                Err(should_be_term(name))
            } else if def && td.val is None {
                Err(should_be_def(name))
            } else if !has_signature(td, args, ret) {
                Err(incorrect_type(env, name, args, ret))
            } else {
                Ok(t)
            }
        },
    }
}

impl Environment {
    /// Looks up the sort of the given name.
    pub fn check_sort(&self, s: &str) -> (r: Result<SortID, String>)
        requires
            self@.wf(),
        ensures
            same_result(r, check_sort_spec(self@, s@)),
    {
        let found = match self.get_atom(s) {
            Some(a) => {
                assert(self@.atom_ok(a.0 as int));
                self.data[a.0 as usize].sort
            },
            None => None,
        };
        match found {
            Some(id) => Ok(id),
            None => {
                let mut m = String::from_str("sort '");
                m.append(s);
                m.append("' not found");
                Err(m)
            },
        }
    }

    /// Looks up the three sorts of the vocabulary.
    pub fn new_sorts(&self) -> (r: Result<Sorts, String>)
        requires
            self@.wf(),
        ensures
            same_result(r, new_sorts_spec(self@)),
    {
        let str = match self.check_sort("string") {
            Ok(s) => s,
            Err(e) => {
                return Err(e);
            },
        };
        let hex = match self.check_sort("hex") {
            Ok(s) => s,
            Err(e) => {
                return Err(e);
            },
        };
        let chr = match self.check_sort("char") {
            Ok(s) => s,
            Err(e) => {
                return Err(e);
            },
        };
        Ok(Sorts { str, hex, chr })
    }

    /// Whether term `t` has the given signature.
    fn signature_matches(&self, t: TermID, args: &[SortID], ret: SortID) -> (r: bool)
        requires
            t.0 < self.terms@.len(),
        ensures
            r == has_signature(self@.terms[t.0 as int], args@, ret),
    {
        let td = &self.terms[t.0 as usize];
        if td.ret.0.0 != ret.0 || td.ret.1 != 0 || td.args.len() != args.len() {
            return false;
        }
        let mut i: usize = 0;
        while i < args.len()
            invariant
                i <= args.len(),
                td.args@.len() == args@.len(),
                td@ == self@.terms[t.0 as int],
                forall|j: int| 0 <= j < i ==> #[trigger] td@.args[j] == Type::Reg(args@[j], 0),
            decreases args.len() - i,
        {
            let ok = match td.args[i].1 {
                Type::Reg(s, deps) => s.0 == args[i].0 && deps == 0,
                Type::Bound(_) => false,
            };
            if !ok {
                assert(td@.args[i as int] != Type::Reg(args@[i as int], 0));
                return false;
            }
            i += 1;
        }
        true
    }

    /// The text for a term whose signature is not the expected one.
    fn incorrect_type_text(&self, s: &str, args: &[SortID], ret: SortID) -> (r: String)
        requires
            self@.wf(),
            forall|i: int| 0 <= i < args@.len() ==> (#[trigger] args@[i]).0 < self@.sorts.len(),
            ret.0 < self@.sorts.len(),
        ensures
            r@ == incorrect_type(self@, s@, args@, ret),
    {
        let mut m = String::from_str("term '");
        m.append(s);
        m.append("' has incorrect type, expected: ");
        let ghost head = m@;
        let mut i: usize = 0;
        while i < args.len()
            invariant
                i <= args.len(),
                self@.wf(),
                forall|i: int| 0 <= i < args@.len() ==> (#[trigger] args@[i]).0 < self@.sorts.len(),
                m@ == head + arrow_text(self@, args@, i as nat),
            decreases args.len() - i,
        {
            let sort = &self.sorts[args[i].0 as usize];
            assert(sort@ == self@.sorts[args@[i as int].0 as int]);
            let ghost before = m@;
            m.append(self.data[sort.atom.0 as usize].name.as_str());
            m.append(" > ");
            assert(m@ =~= head + arrow_text(self@, args@, (i + 1) as nat));
            i += 1;
        }
        let sort = &self.sorts[ret.0 as usize];
        assert(sort@ == self@.sorts[ret.0 as int]);
        m.append(self.data[sort.atom.0 as usize].name.as_str());
        m
    }

    /// Looks up the term of the given name and holds it to its kind and
    /// signature.
    pub fn check_term(&self, s: &str, args: &[SortID], ret: SortID, def: bool) -> (r: Result<
        TermID,
        String,
    >)
        requires
            self@.wf(),
            forall|i: int| 0 <= i < args@.len() ==> (#[trigger] args@[i]).0 < self@.sorts.len(),
            ret.0 < self@.sorts.len(),
        ensures
            same_result(r, check_term_spec(self@, s@, args@, ret, def)),
    {
        let found = match self.get_atom(s) {
            Some(a) => {
                assert(self@.atom_ok(a.0 as int));
                match self.data[a.0 as usize].decl {
                    Some(DeclKey::Term(t)) => Some(t),
                    _ => None,
                }
            },
            None => None,
        };
        let t = match found {
            Some(t) => t,
            None => {
                let mut m = String::from_str("term '");
                m.append(s);
                m.append("' not found");
                return Err(m);
            },
        };
        let td = &self.terms[t.0 as usize];
        assert(td@ == self@.terms[t.0 as int]);
        if !def && td.val.is_some() {
            let mut m = String::from_str("def '");
            m.append(s);
            m.append("' should be a term");
            return Err(m);
        }
        if def && td.val.is_none() {
            let mut m = String::from_str("term '");
            m.append(s);
            m.append("' should be a def");
            return Err(m);
        }
        if !self.signature_matches(t, args, ret) {
            return Err(self.incorrect_type_text(s, args, ret));
        }
        Ok(t)
    }
}

/// The character that writes the hex digit `i`, in lower case.
pub open spec fn hex_digit(i: u8) -> char {
    if i < 10 {
        ((48 + i) as u8) as char
    } else {
        ((87 + i) as u8) as char
    }
}

/// The name of the term for the hex digit `i`: `x0` to `xf`.
pub open spec fn hex_name(i: u8) -> Seq<char> {
    seq!['x', hex_digit(i)]
}

/// The name of the term for the hex digit `i`.
pub fn hex_term_name(i: u8) -> (r: &'static str)
    requires
        i < 16,
    ensures
        r@ == hex_name(i),
{
    proof {
        reveal_strlit("x0");
        reveal_strlit("x1");
        reveal_strlit("x2");
        reveal_strlit("x3");
        reveal_strlit("x4");
        reveal_strlit("x5");
        reveal_strlit("x6");
        reveal_strlit("x7");
        reveal_strlit("x8");
        reveal_strlit("x9");
        reveal_strlit("xa");
        reveal_strlit("xb");
        reveal_strlit("xc");
        reveal_strlit("xd");
        reveal_strlit("xe");
        reveal_strlit("xf");
    }
    let r = match i {
        0 => "x0",
        1 => "x1",
        2 => "x2",
        3 => "x3",
        4 => "x4",
        5 => "x5",
        6 => "x6",
        7 => "x7",
        8 => "x8",
        9 => "x9",
        10 => "xa",
        11 => "xb",
        12 => "xc",
        13 => "xd",
        14 => "xe",
        _ => "xf",
    };
    assert(r@ =~= hex_name(i));
    r
}

/// The registry `m` with the terms of the hex digits below `n` added, or
/// the text on the first of them that is missing or of another signature.
pub open spec fn with_hex_digits(
    env: EnvV,
    s: Sorts,
    m: Map<u32, InoutStringType>,
    n: nat,
) -> Result<Map<u32, InoutStringType>, Seq<char>>
    decreases n,
{
    if n == 0 {
        Ok(m)
    } else {
        match with_hex_digits(env, s, m, (n - 1) as nat) {
            Err(e) => Err(e),
            Ok(before) => match check_term_spec(
                env,
                hex_name((n - 1) as u8),
                Seq::empty(),
                s.hex,
                false,
            ) {
                Err(e) => Err(e),
                Ok(t) => Ok(before.insert(t.0, InoutStringType::Hex((n - 1) as u8))),
            },
        }
    }
}

/// The registry of the abstract terms of the vocabulary: `s0`, `s1`,
/// `sadd`, `ch` and the sixteen hex digits, looked up in this order; or the
/// text on the first that is missing or of another signature.
pub open spec fn base_registry(env: EnvV, s: Sorts) -> Result<
    Map<u32, InoutStringType>,
    Seq<char>,
> {
    match check_term_spec(env, "s0"@, Seq::empty(), s.str, false) {
        Err(e) => Err(e),
        Ok(s0) => match check_term_spec(env, "s1"@, seq![s.chr], s.str, false) {
            Err(e) => Err(e),
            Ok(s1) => match check_term_spec(env, "sadd"@, seq![s.str, s.str], s.str, false) {
                Err(e) => Err(e),
                Ok(sadd) => match check_term_spec(env, "ch"@, seq![s.hex, s.hex], s.chr, false) {
                    Err(e) => Err(e),
                    Ok(ch) => with_hex_digits(
                        env,
                        s,
                        Map::empty().insert(s0.0, InoutStringType::S0).insert(
                            s1.0,
                            InoutStringType::S1,
                        ).insert(sadd.0, InoutStringType::SAdd).insert(ch.0, InoutStringType::Ch),
                        16,
                    ),
                },
            },
        },
    }
}

/// The sequence of a definition that writes its first parameter, a
/// character, and then its second, a string.
pub open spec fn cons_shape(s: Sorts) -> Seq<SegV> {
    seq![SegV::Var(s.chr, 0), SegV::Var(s.str, 1)]
}

/// The registry `m`, to which the definition `scons` is added as the
/// operation "character, then string" where it takes a character and a
/// string to a string and its body comes to exactly that.
pub open spec fn with_scons(env: EnvV, s: Sorts, m: Map<u32, InoutStringType>) -> Map<
    u32,
    InoutStringType,
> {
    match check_term_spec(env, "scons"@, seq![s.chr, s.str], s.str, true) {
        Err(_) => m,
        Ok(t) => match process_def_spec(m, env.terms[t.0 as int], "scons"@) {
            Ok(ss) => if ss == cons_shape(s) {
                m.insert(t.0, InoutStringType::SCons)
            } else {
                m
            },
            Err(_) => m,
        },
    }
}

/// The three sorts and the registry of an environment, or the text on the
/// first symbol that is missing or of another signature.
pub open spec fn registry_spec(env: EnvV) -> Result<(Sorts, Map<u32, InoutStringType>), Seq<char>> {
    match new_sorts_spec(env) {
        Err(e) => Err(e),
        Ok(s) => match base_registry(env, s) {
            Err(e) => Err(e),
            Ok(m) => Ok((s, with_scons(env, s, m))),
        },
    }
}

/// Whether `sorts` are sorts of the environment.
pub open spec fn sorts_ok(env: EnvV, s: Sorts) -> bool {
    &&& s.str.0 < env.sorts.len()
    &&& s.hex.0 < env.sorts.len()
    &&& s.chr.0 < env.sorts.len()
}

/// A sort found by name is a sort of the environment.
pub proof fn lemma_sort_named(env: EnvV, name: Seq<char>)
    requires
        env.wf(),
    ensures
        env.sort_named(name) matches Some(s) ==> s.0 < env.sorts.len(),
{
    lemma_atom_below(env, name, env.data.len());
    if let Some(a) = env.atom(name) {
        assert(env.atom_ok(a.0 as int));
    }
}

/// A term found by name, kind and signature is a term of the environment
/// with that signature.
pub proof fn lemma_check_term(env: EnvV, name: Seq<char>, args: Seq<SortID>, ret: SortID, def: bool)
    requires
        env.wf(),
    ensures
        check_term_spec(env, name, args, ret, def) matches Ok(t) ==> {
            &&& t.0 < env.terms.len()
            &&& has_signature(env.terms[t.0 as int], args, ret)
            &&& def <==> env.terms[t.0 as int].val is Some
        },
{
    lemma_atom_below(env, name, env.data.len());
    if let Some(a) = env.atom(name) {
        assert(env.atom_ok(a.0 as int));
    }
}

/// The sorts that resolution finds are sorts of the environment.
pub proof fn lemma_new_sorts(env: EnvV)
    requires
        env.wf(),
    ensures
        new_sorts_spec(env) matches Ok(s) ==> sorts_ok(env, s),
{
    lemma_sort_named(env, "string"@);
    lemma_sort_named(env, "hex"@);
    lemma_sort_named(env, "char"@);
}

/// Adding the hex digits keeps a registry in order.
pub proof fn lemma_with_hex_digits(env: EnvV, s: Sorts, m: Map<u32, InoutStringType>, n: nat)
    requires
        env.wf(),
        registry_ok(env.terms, m),
    ensures
        with_hex_digits(env, s, m, n) matches Ok(r) ==> registry_ok(env.terms, r),
    decreases n,
{
    if n > 0 {
        lemma_with_hex_digits(env, s, m, (n - 1) as nat);
        lemma_check_term(env, hex_name((n - 1) as u8), Seq::empty(), s.hex, false);
    }
}

/// The registry that resolution finds is in order.
pub proof fn lemma_registry_ok(env: EnvV)
    requires
        env.wf(),
    ensures
        registry_spec(env) matches Ok(r) ==> sorts_ok(env, r.0) && registry_ok(env.terms, r.1),
{
    lemma_new_sorts(env);
    if let Ok(s) = new_sorts_spec(env) {
        lemma_check_term(env, "s0"@, Seq::empty(), s.str, false);
        lemma_check_term(env, "s1"@, seq![s.chr], s.str, false);
        lemma_check_term(env, "sadd"@, seq![s.str, s.str], s.str, false);
        lemma_check_term(env, "ch"@, seq![s.hex, s.hex], s.chr, false);
        lemma_check_term(env, "scons"@, seq![s.chr, s.str], s.str, true);
        if let Ok(s0) = check_term_spec(env, "s0"@, Seq::empty(), s.str, false) {
            if let Ok(s1) = check_term_spec(env, "s1"@, seq![s.chr], s.str, false) {
                if let Ok(sadd) = check_term_spec(env, "sadd"@, seq![s.str, s.str], s.str, false) {
                    if let Ok(ch) = check_term_spec(env, "ch"@, seq![s.hex, s.hex], s.chr, false) {
                        let m0 = Map::<u32, InoutStringType>::empty().insert(
                            s0.0,
                            InoutStringType::S0,
                        );
                        let m1 = m0.insert(s1.0, InoutStringType::S1);
                        let m2 = m1.insert(sadd.0, InoutStringType::SAdd);
                        let m3 = m2.insert(ch.0, InoutStringType::Ch);
                        assert(registry_ok(env.terms, m0));
                        assert(registry_ok(env.terms, m1));
                        assert(registry_ok(env.terms, m2));
                        assert(registry_ok(env.terms, m3));
                        lemma_with_hex_digits(env, s, m3, 16);
                    }
                }
            }
        }
    }
}

/// The cache of what the input and output commands have resolved: the
/// sorts and the registry of the string vocabulary, once they are known.
#[derive(Debug)]
pub struct InoutHandlers {
    pub string: Option<(Sorts, HashMap<u32, InoutStringType>)>,
}

impl Default for InoutHandlers {
    fn default() -> (r: InoutHandlers)
        ensures
            r.string is None,
    {
        InoutHandlers { string: None }
    }
}

impl Environment {
    /// Whether the segments are those of "character, then string".
    fn is_cons_shape(ss: &Vec<StringSeg>, s: Sorts) -> (r: bool)
        ensures
            r == (segs_view(ss@) == cons_shape(s)),
    {
        assert(cons_shape(s).len() == 2);
        assert(segs_view(ss@).len() == ss@.len());
        if ss.len() != 2 {
            return false;
        }
        let first = match &ss[0] {
            StringSeg::Var(sort, i) => sort.0 == s.chr.0 && *i == 0,
            _ => false,
        };
        let second = match &ss[1] {
            StringSeg::Var(sort, i) => sort.0 == s.str.0 && *i == 1,
            _ => false,
        };
        proof {
            let v = segs_view(ss@);
            assert(v[0] == ss@[0]@);
            assert(v[1] == ss@[1]@);
            if first && second {
                assert(v =~= cons_shape(s));
            }
        }
        first && second
    }

    /// Resolves the string vocabulary: the three sorts, the twenty abstract
    /// terms, and `scons` where it proves to be "character, then string".
    pub fn new_string_handler(&self) -> (r: Result<(Sorts, HashMap<u32, InoutStringType>), String>)
        requires
            self@.wf(),
        ensures
            match (r, registry_spec(self@)) {
                (Ok(found), Ok(expected)) => found.0 == expected.0 && found.1@ == expected.1,
                (Err(m), Err(e)) => m@ == e,
                _ => false,
            },
            r matches Ok(found) ==> sorts_ok(self@, found.0) && registry_ok(self@.terms, found.1@),
    {
        broadcast use group_hash_axioms;

        proof {
            lemma_registry_ok(self@);
            lemma_new_sorts(self@);
        }
        let s = match self.new_sorts() {
            Ok(s) => s,
            Err(e) => {
                return Err(e);
            },
        };
        let mut map: HashMap<u32, InoutStringType> = HashMap::new();
        let none: Vec<SortID> = Vec::new();
        let s0 = match self.check_term("s0", none.as_slice(), s.str, false) {
            Ok(t) => t,
            Err(e) => {
                return Err(e);
            },
        };
        map.insert(s0.0, InoutStringType::S0);
        let one: Vec<SortID> = vec![s.chr];
        assert(one@ =~= seq![s.chr]);
        let s1 = match self.check_term("s1", one.as_slice(), s.str, false) {
            Ok(t) => t,
            Err(e) => {
                return Err(e);
            },
        };
        map.insert(s1.0, InoutStringType::S1);
        let two: Vec<SortID> = vec![s.str, s.str];
        assert(two@ =~= seq![s.str, s.str]);
        let sadd = match self.check_term("sadd", two.as_slice(), s.str, false) {
            Ok(t) => t,
            Err(e) => {
                return Err(e);
            },
        };
        map.insert(sadd.0, InoutStringType::SAdd);
        let digits: Vec<SortID> = vec![s.hex, s.hex];
        assert(digits@ =~= seq![s.hex, s.hex]);
        let ch = match self.check_term("ch", digits.as_slice(), s.chr, false) {
            Ok(t) => t,
            Err(e) => {
                return Err(e);
            },
        };
        map.insert(ch.0, InoutStringType::Ch);
        let ghost start = map@;
        proof {
            lemma_check_term(self@, "s0"@, none@, s.str, false);
            lemma_check_term(self@, "s1"@, one@, s.str, false);
            lemma_check_term(self@, "sadd"@, two@, s.str, false);
            lemma_check_term(self@, "ch"@, digits@, s.chr, false);
            let m0 = Map::<u32, InoutStringType>::empty().insert(s0.0, InoutStringType::S0);
            let m1 = m0.insert(s1.0, InoutStringType::S1);
            let m2 = m1.insert(sadd.0, InoutStringType::SAdd);
            assert(registry_ok(self@.terms, m0));
            assert(registry_ok(self@.terms, m1));
            assert(registry_ok(self@.terms, m2));
            assert(start == m2.insert(ch.0, InoutStringType::Ch));
            assert(registry_ok(self@.terms, start));
        }
        let mut i: u8 = 0;
        while i < 16
            invariant
                i <= 16,
                self@.wf(),
                sorts_ok(self@, s),
                registry_ok(self@.terms, start),
                registry_spec(self@) == (match with_hex_digits(self@, s, start, 16) {
                    Err(e) => Err(e),
                    Ok(m) => Ok((s, with_scons(self@, s, m))),
                }),
                none@ == Seq::<SortID>::empty(),
                with_hex_digits(self@, s, start, i as nat) == Ok::<_, Seq<char>>(map@),
            decreases 16 - i,
        {
            let t = match self.check_term(hex_term_name(i), none.as_slice(), s.hex, false) {
                Ok(t) => t,
                Err(e) => {
                    proof {
                        lemma_hex_digits_fail(self@, s, start, (i + 1) as nat, 16);
                    }
                    return Err(e);
                },
            };
            map.insert(t.0, InoutStringType::Hex(i));
            i += 1;
        }
        let cons: Vec<SortID> = vec![s.chr, s.str];
        assert(cons@ =~= seq![s.chr, s.str]);
        proof {
            lemma_with_hex_digits(self@, s, start, 16);
            lemma_check_term(self@, "scons"@, cons@, s.str, true);
        }
        match self.check_term("scons", cons.as_slice(), s.str, true) {
            Ok(t) => match self.process_def(&map, t, "scons") {
                Ok(ss) => {
                    if Self::is_cons_shape(&ss, s) {
                        map.insert(t.0, InoutStringType::SCons);
                    }
                },
                Err(_) => {},
            },
            Err(_) => {},
        }
        Ok((s, map))
    }
}

/// The text on a missing hex digit is the text on the digits as a whole.
pub proof fn lemma_hex_digits_fail(
    env: EnvV,
    s: Sorts,
    m: Map<u32, InoutStringType>,
    n: nat,
    k: nat,
)
    requires
        n <= k,
        with_hex_digits(env, s, m, n) is Err,
    ensures
        with_hex_digits(env, s, m, k) == with_hex_digits(env, s, m, n),
    decreases k,
{
    if k > n {
        lemma_hex_digits_fail(env, s, m, n, (k - 1) as nat);
    }
}

} // verus!
