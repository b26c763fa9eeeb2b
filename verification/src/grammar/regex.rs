use super::grammar::{Grammar, closed_at, concatenation, alternation, repetition};
use super::parser::{rc_inner, terminates};
use super::termination::{lemma_recursion_free_closed, lemma_recursion_free_terminates, recursion_free};
use crate::bounds::Bound;
use regex_syntax::hir::{Class, Hir, HirKind, Literal, RepetitionKind as K, RepetitionRange as R};
use std::rc::Rc;
use vstd::prelude::*;

verus! {

/// A syntax tree of `regex_syntax`, opaque here.
#[verifier::external_type_specification]
#[verifier::external_body]
pub struct ExHir(regex_syntax::hir::Hir);

/// A kind of repetition of `regex_syntax`, opaque here.
#[verifier::external_type_specification]
#[verifier::external_body]
pub struct ExRepetitionKind(K);

/// A node of a syntax tree of `regex_syntax`, opaque here.
#[verifier::external_type_specification]
#[verifier::external_body]
pub struct ExHirKind(regex_syntax::hir::HirKind);

/// The error of `regex_syntax`'s parser, opaque here.
#[verifier::external_type_specification]
#[verifier::external_body]
pub struct ExRegexSyntaxError(regex_syntax::Error);

/// How many times a repeated part of a regular expression may match.
#[derive(Debug, Clone, Copy, PartialEq, Eq)]
pub enum RegexRepetition {
    ZeroOrOne,
    ZeroOrMore,
    OneOrMore,
    Exactly(u32),
    AtLeast(u32),
    Bounded(u32, u32),
}

/// The syntax tree of a regular expression, as plain values.
#[derive(Debug)]
pub enum RegexTree {
    Empty,
    Char(char),
    Byte(u8),
    Class(Vec<(char, char)>),
    ByteClass,
    Anchor,
    WordBoundary,
    Repetition(RegexRepetition, Box<RegexTree>),
    Group(Box<RegexTree>),
    Concat(Vec<RegexTree>),
    Alternation(Vec<RegexTree>),
}

/// Why a regular expression gives no grammar.
#[derive(Debug, Clone, Copy, PartialEq, Eq)]
pub enum RegexError {
    /// The pattern is not a valid regular expression.
    InvalidRegex,
    /// The regular expression uses a feature that grammars do not have: the empty
    /// expression, bytes that are not Unicode characters, anchors or word boundaries.
    Unsupported,
}

/// The least and greatest number of repetitions a repetition kind admits.
pub open spec fn repetition_bounds(k: RegexRepetition) -> (u32, u32) {
    match k {
        RegexRepetition::ZeroOrOne => (0, 1),
        RegexRepetition::ZeroOrMore => (0, u32::MAX),
        RegexRepetition::OneOrMore => (1, u32::MAX),
        RegexRepetition::Exactly(n) => (n, n),
        RegexRepetition::AtLeast(n) => (n, u32::MAX),
        RegexRepetition::Bounded(n, m) => (n, m),
    }
}

/// A regular expression uses only what grammars can express.
pub open spec fn supported(t: RegexTree) -> bool
    decreases t,
{
    match t {
        RegexTree::Empty | RegexTree::Byte(_) | RegexTree::ByteClass | RegexTree::Anchor | RegexTree::WordBoundary => false,
        RegexTree::Char(_) | RegexTree::Class(_) => true,
        RegexTree::Repetition(_, sub) => supported(*sub),
        RegexTree::Group(sub) => supported(*sub),
        RegexTree::Concat(subs) => forall|i: int| 0 <= i < subs@.len() ==> supported(#[trigger] subs@[i]),
        RegexTree::Alternation(subs) => forall|i: int| 0 <= i < subs@.len() ==> supported(#[trigger] subs@[i]),
    }
}

/// `g` is the grammar of the regular expression `t`: characters and classes become
/// literals, repetitions become repetitions (with the greatest count made exclusive),
/// groups are transparent, and concatenations and alternations keep their parts in order.
pub open spec fn grammar_of_tree(g: Grammar, t: RegexTree) -> bool
    decreases t,
{
    match t {
        RegexTree::Char(c) => g matches Grammar::Literal(v) && v@ == seq![(c, c)],
        RegexTree::Class(ranges) => g matches Grammar::Literal(v) && v@ == ranges@,
        RegexTree::Repetition(k, sub) => g matches Grammar::Repetition(inner, range)
            && range.start == repetition_bounds(k).0 as int
            && range.end == (if repetition_bounds(k).1 as int == usize::MAX as int { usize::MAX as int } else { repetition_bounds(k).1 + 1 })
            && grammar_of_tree(*inner, *sub),
        RegexTree::Group(sub) => grammar_of_tree(g, *sub),
        RegexTree::Concat(subs) => g matches Grammar::Concatenation(gs) && gs@.len() == subs@.len()
            && forall|i: int| 0 <= i < subs@.len() ==> grammar_of_tree(*gs@[i], #[trigger] subs@[i]),
        RegexTree::Alternation(subs) => g matches Grammar::Alternation(gs) && gs@.len() == subs@.len()
            && forall|i: int| 0 <= i < subs@.len() ==> grammar_of_tree(*gs@[i], #[trigger] subs@[i]),
        _ => false,
    }
}

/// A grammar built from a regular expression holds no recursion.
pub proof fn lemma_regex_grammar_recursion_free(g: Grammar, t: RegexTree)
    requires
        grammar_of_tree(g, t),
    ensures
        recursion_free(g),
    decreases t,
{
    match t {
        RegexTree::Repetition(_, sub) => {
            let inner = g->Repetition_0;
            lemma_regex_grammar_recursion_free(rc_inner(inner), *sub);
        },
        RegexTree::Group(sub) => {
            lemma_regex_grammar_recursion_free(g, *sub);
        },
        RegexTree::Concat(subs) => {
            let gs = g->Concatenation_0;
            assert forall|k: int| 0 <= k < gs@.len() implies recursion_free(*#[trigger] gs@[k]) by {
                assert(grammar_of_tree(*gs@[k], subs@[k]));
                lemma_regex_grammar_recursion_free(*gs@[k], subs@[k]);
            }
        },
        RegexTree::Alternation(subs) => {
            let gs = g->Alternation_0;
            assert forall|k: int| 0 <= k < gs@.len() implies recursion_free(*#[trigger] gs@[k]) by {
                assert(grammar_of_tree(*gs@[k], subs@[k]));
                lemma_regex_grammar_recursion_free(*gs@[k], subs@[k]);
            }
        },
        _ => {},
    }
}

/// The parser's search through a grammar built from a regular expression always ends.
pub proof fn lemma_regex_grammar_terminates(g: Grammar, t: RegexTree, s: Seq<char>, i: nat, target: Option<nat>)
    requires
        grammar_of_tree(g, t),
    ensures
        terminates(g, s, i, target),
{
    lemma_regex_grammar_recursion_free(g, t);
    lemma_recursion_free_terminates(g, s, i, target);
}

/// Builds the grammar of a regular expression, part by part.
pub fn grammar_from_regex_hir_kind(hir: &RegexTree) -> (g: Rc<Grammar>)
    requires
        supported(*hir),
    ensures
        grammar_of_tree(*g, *hir),
    decreases hir,
{
    match hir {
        RegexTree::Char(c) => {
            let mut v: Vec<(char, char)> = Vec::new();
            v.push((*c, *c));
            Rc::new(Grammar::Literal(v))
        },
        RegexTree::Class(ranges) => {
            let mut v: Vec<(char, char)> = Vec::new();
            let mut i: usize = 0;
            while i < ranges.len()
                invariant
                    i <= ranges@.len(),
                    v@ == ranges@.take(i as int),
                decreases ranges@.len() - i,
            {
                v.push(ranges[i]);
                assert(ranges@.take(i + 1) =~= ranges@.take(i as int).push(ranges@[i as int]));
                i = i + 1;
            }
            assert(ranges@.take(ranges@.len() as int) =~= ranges@);
            Rc::new(Grammar::Literal(v))
        },
        RegexTree::Repetition(kind, sub) => {
            let (n, m): (u32, u32) = match kind {
                RegexRepetition::ZeroOrOne => (0, 1),
                RegexRepetition::ZeroOrMore => (0, u32::MAX),
                RegexRepetition::OneOrMore => (1, u32::MAX),
                RegexRepetition::Exactly(n) => (*n, *n),
                RegexRepetition::AtLeast(n) => (*n, u32::MAX),
                RegexRepetition::Bounded(n, m) => (*n, *m),
            };
            let inner = grammar_from_regex_hir_kind(sub);
            repetition(inner, Bound::Included(n as usize), Bound::Included(m as usize))
        },
        RegexTree::Group(sub) => grammar_from_regex_hir_kind(sub),
        RegexTree::Concat(subs) => {
            let gs = grammars_of(subs);
            concatenation(gs)
        },
        RegexTree::Alternation(subs) => {
            let gs = grammars_of(subs);
            alternation(gs)
        },
        _ => {
            assert(false);
            Rc::new(Grammar::Concatenation(Vec::new()))
        },
    }
}

fn grammars_of(subs: &Vec<RegexTree>) -> (gs: Vec<Rc<Grammar>>)
    requires
        forall|i: int| 0 <= i < subs@.len() ==> supported(#[trigger] subs@[i]),
    ensures
        gs@.len() == subs@.len(),
        forall|i: int| 0 <= i < subs@.len() ==> grammar_of_tree(*gs@[i], #[trigger] subs@[i]),
    decreases subs, 0nat,
{
    let mut gs: Vec<Rc<Grammar>> = Vec::new();
    let mut i: usize = 0;
    while i < subs.len()
        invariant
            i <= subs@.len(),
            gs@.len() == i,
            forall|k: int| 0 <= k < subs@.len() ==> supported(#[trigger] subs@[k]),
            forall|k: int| 0 <= k < i ==> grammar_of_tree(*gs@[k], #[trigger] subs@[k]),
        decreases subs@.len() - i,
    {
        assert(decreases_to!(*subs => subs@[i as int]));
        let g = grammar_from_regex_hir_kind(&subs[i]);
        gs.push(g);
        i = i + 1;
    }
    gs
}

/// The syntax tree, as a `RegexTree`, that `regex_syntax::Parser::new().parse` gives for
/// the pattern `pattern`; `None` when the parser refuses the pattern.
pub uninterp spec fn regex_syntax_tree(pattern: Seq<char>) -> Option<RegexTree>;

/// Parses `pattern` with `regex_syntax::Parser::new().parse` and reads the tree into a
/// `RegexTree`. The contract claims that the outcome is a function of the pattern alone
/// (`regex_syntax_tree`); which trees the parser gives is left unsaid.
#[verifier::external_body]
fn parse_regex(pattern: &str) -> (r: Result<RegexTree, regex_syntax::Error>)
    ensures
        r is Ok <==> regex_syntax_tree(pattern@) is Some,
        r matches Ok(t) ==> regex_syntax_tree(pattern@) == Some(t),
{
    regex_syntax::Parser::new().parse(pattern).map(|hir| hir_to_tree(&hir))
}

/// Reads a `regex_syntax` syntax tree node for node into a `RegexTree`: the nodes with
/// children here, the others in `leaf_to_tree`. Nothing is claimed of the result: the tree
/// it reads has no model here.
#[verifier::external_body]
fn hir_to_tree(h: &Hir) -> RegexTree {
    match h.kind() {
        HirKind::Repetition(r) => RegexTree::Repetition(repetition_kind(&r.kind), Box::new(hir_to_tree(&r.hir))),
        HirKind::Group(g) => RegexTree::Group(Box::new(hir_to_tree(&g.hir))),
        HirKind::Concat(v) => RegexTree::Concat(v.iter().map(hir_to_tree).collect()),
        HirKind::Alternation(v) => RegexTree::Alternation(v.iter().map(hir_to_tree).collect()),
        leaf => leaf_to_tree(leaf),
    }
}

/// Reads a `regex_syntax` node without children, one variant for one variant; a Unicode
/// class by its ranges (`ClassUnicode::ranges`).
#[verifier::external_body]
fn leaf_to_tree(k: &HirKind) -> RegexTree {
    match k {
        HirKind::Literal(Literal::Unicode(c)) => RegexTree::Char(*c),
        HirKind::Literal(Literal::Byte(b)) => RegexTree::Byte(*b),
        HirKind::Class(Class::Unicode(c)) => RegexTree::Class(c.ranges().iter().map(|r| (r.start(), r.end())).collect()),
        HirKind::Class(Class::Bytes(_)) => RegexTree::ByteClass,
        HirKind::Anchor(_) => RegexTree::Anchor,
        HirKind::WordBoundary(_) => RegexTree::WordBoundary,
        _ => RegexTree::Empty,
    }
}

/// Reads a `regex_syntax` repetition kind, one variant for one variant.
#[verifier::external_body]
fn repetition_kind(k: &K) -> RegexRepetition {
    match k {
        K::ZeroOrOne => RegexRepetition::ZeroOrOne,
        K::ZeroOrMore => RegexRepetition::ZeroOrMore,
        K::OneOrMore => RegexRepetition::OneOrMore,
        K::Range(R::Exactly(n)) => RegexRepetition::Exactly(*n),
        K::Range(R::AtLeast(n)) => RegexRepetition::AtLeast(*n),
        K::Range(R::Bounded(n, m)) => RegexRepetition::Bounded(*n, *m),
    }
}

/// Decides whether a regular expression uses only what grammars can express.
pub fn is_supported(t: &RegexTree) -> (b: bool)
    ensures
        b == supported(*t),
    decreases t,
{
    match t {
        RegexTree::Char(_) | RegexTree::Class(_) => true,
        RegexTree::Repetition(_, sub) => is_supported(sub),
        RegexTree::Group(sub) => is_supported(sub),
        RegexTree::Concat(subs) => all_supported(subs),
        RegexTree::Alternation(subs) => all_supported(subs),
        _ => false,
    }
}

fn all_supported(subs: &Vec<RegexTree>) -> (b: bool)
    ensures
        b == forall|k: int| 0 <= k < subs@.len() ==> supported(#[trigger] subs@[k]),
    decreases subs, 0nat,
{
    let mut i: usize = 0;
    while i < subs.len()
        invariant
            i <= subs@.len(),
            forall|k: int| 0 <= k < i ==> supported(#[trigger] subs@[k]),
        decreases subs@.len() - i,
    {
        assert(decreases_to!(*subs => subs@[i as int]));
        if !is_supported(&subs[i]) {
            return false;
        }
        i = i + 1;
    }
    true
}

/// Creates a grammar from a regular expression, which must be one that the parser accepts
/// and that uses only what grammars can express. The grammar holds no recursion, so the
/// parser's search through it always ends.
pub fn regex(s: &str) -> (g: Rc<Grammar>)
    requires
        regex_syntax_tree(s@) matches Some(t) && supported(t),
    ensures
        grammar_of_tree(*g, regex_syntax_tree(s@)->0),
        recursion_free(*g),
        closed_at(*g, 0),
{
    match parse_regex(s) {
        Ok(tree) => {
            let g = grammar_from_regex_hir_kind(&tree);
            proof {
                lemma_regex_grammar_recursion_free(rc_inner(g), tree);
                lemma_recursion_free_closed(rc_inner(g), 0);
            }
            g
        },
        Err(_) => {
            assert(false);
            Rc::new(Grammar::Concatenation(Vec::new()))
        },
    }
}

/// Creates a grammar from a regular expression, or says why there is none: the parser
/// refuses the pattern, or the expression uses what grammars cannot express.
pub fn try_regex(s: &str) -> (r: Result<Rc<Grammar>, RegexError>)
    ensures
        match regex_syntax_tree(s@) {
            None => r == Err::<Rc<Grammar>, RegexError>(RegexError::InvalidRegex),
            Some(t) => if supported(t) {
                r matches Ok(g) && grammar_of_tree(*g, t) && recursion_free(*g) && closed_at(*g, 0)
            } else {
                r == Err::<Rc<Grammar>, RegexError>(RegexError::Unsupported)
            },
        },
{
    match parse_regex(s) {
        Ok(tree) => {
            if is_supported(&tree) {
                Ok(regex(s))
            } else {
                Err(RegexError::Unsupported)
            }
        },
        Err(_) => Err(RegexError::InvalidRegex),
    }
}

} // verus!
