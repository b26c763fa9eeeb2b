//! The language of a grammar, defined by derivations, and the proof that the parser finds
//! a parse of a string exactly when the string belongs to that language, and that the
//! parse it finds is the syntax tree of a derivation.

use super::ast::{SpecAST, ast_chars, asts_chars};
use super::grammar::Grammar;
use super::parser::{
    SpecFrame, Search, all_parses, alts, first_parse, grammar_at, in_ranges, or_else, rc_inner, rep, resume, solve,
    lemma_asts_chars_push, terminates, token_at,
};
use std::rc::Rc;
use vstd::prelude::*;

verus! {

/// The choices that make a derivation: a character for a literal, the alternative picked
/// by an alternation, and, for concatenations and repetitions, the parts one after the
/// other (each with the index where it ends) until `Nil`.
pub enum Witness {
    Char,
    Alt(nat, Box<Witness>),
    Into(Box<Witness>),
    Cons(Box<Witness>, nat, Box<Witness>),
    Nil,
}

/// The grammar that the recursion point `Recurse(k)` refers to in `env`.
pub open spec fn recursion_target(env: Seq<Grammar>, k: nat) -> Grammar {
    env[env.len() - 1 - k]
}

/// The grammars that recursion points refer to inside the target of `Recurse(k)`.
pub open spec fn recursion_env(env: Seq<Grammar>, k: nat) -> Seq<Grammar> {
    env.take(env.len() - k)
}

/// The grammars that recursion points refer to inside the recursive grammar `body`.
pub open spec fn env_with(env: Seq<Grammar>, body: Grammar) -> Seq<Grammar> {
    env.push(body)
}

/// The character at index `i` of `s` belongs to one of the ranges.
pub open spec fn char_in_ranges(ranges: Seq<(char, char)>, s: Seq<char>, i: nat) -> bool {
    i < s.len() && in_ranges(ranges, s[i as int])
}

/// `w` is a derivation of the characters `s[i..j]` from `g`; `env` holds the grammars that
/// recursion points refer to, innermost last. A literal derives one character of its
/// ranges, an alternation what one of its parts derives, a non-empty concatenation its
/// parts one after the other, a repetition between `start` (included) and `end` (excluded)
/// derivations of its part, and a recursion point what the recursive grammar it refers to
/// derives.
pub open spec fn derives(g: Grammar, env: Seq<Grammar>, s: Seq<char>, i: nat, j: nat, w: Witness) -> bool
    decreases w,
{
    match g {
        Grammar::Literal(ranges) => w is Char && j == i + 1 && char_in_ranges(ranges@, s, i),
        Grammar::Alternation(gs) => match w {
            Witness::Alt(t, sub) => t < gs@.len() && derives(grammar_at(gs@, t as int), env, s, i, j, *sub),
            _ => false,
        },
        Grammar::Concatenation(gs) => match w {
            Witness::Into(sub) => gs@.len() > 0 && derives_seq(gs@, 0, env, s, i, j, *sub),
            _ => false,
        },
        Grammar::Repetition(inner, range) => match w {
            Witness::Into(sub) => derives_rep(
                rc_inner(inner),
                range.start as nat,
                range.end as nat,
                0,
                env,
                s,
                i,
                j,
                *sub,
            ),
            _ => false,
        },
        Grammar::Recurse(k) => match w {
            Witness::Into(sub) => k < env.len() && derives(
                recursion_target(env, k as nat),
                recursion_env(env, k as nat),
                s,
                i,
                j,
                *sub,
            ),
            _ => false,
        },
        Grammar::Recursive(body) => match w {
            Witness::Into(sub) => derives(rc_inner(body), env_with(env, rc_inner(body)), s, i, j, *sub),
            _ => false,
        },
    }
}

/// `w` is a derivation of `s[i..j]` from the grammars `gs[next..]`, one after the other.
pub open spec fn derives_seq(gs: Seq<Rc<Grammar>>, next: nat, env: Seq<Grammar>, s: Seq<char>, i: nat, j: nat, w: Witness) -> bool
    decreases w,
{
    if next >= gs.len() {
        w is Nil && i == j
    } else {
        match w {
            Witness::Cons(a, k, b) => derives(grammar_at(gs, next as int), env, s, i, k, *a) && derives_seq(
                gs,
                next + 1,
                env,
                s,
                k,
                j,
                *b,
            ),
            _ => false,
        }
    }
}

/// `w` is a derivation of `s[i..j]` by a repetition of `g` that has matched `count` times
/// and stops with a number of matches between `start` (included) and `end` (excluded).
pub open spec fn derives_rep(
    g: Grammar,
    start: nat,
    end: nat,
    count: nat,
    env: Seq<Grammar>,
    s: Seq<char>,
    i: nat,
    j: nat,
    w: Witness,
) -> bool
    decreases w,
{
    if count >= end {
        false
    } else {
        match w {
            Witness::Nil => start <= count && i == j,
            Witness::Cons(a, k, b) => derives(g, env, s, i, k, *a) && derives_rep(g, start, end, count + 1, env, s, k, j, *b),
            _ => false,
        }
    }
}

/// `ws` (innermost frame last, each with the index where it ends) completes the pending
/// frames of the parser from index `k` up to index `n`.
pub open spec fn frames_accept(frames: Seq<SpecFrame>, s: Seq<char>, k: nat, n: nat, ws: Seq<(Witness, nat)>) -> bool
    decreases frames.len(),
{
    if frames.len() == 0 {
        k == n && ws.len() == 0
    } else if ws.len() != frames.len() {
        false
    } else {
        let rest = frames.drop_last();
        let (w, k2) = ws.last();
        &&& match frames.last() {
            SpecFrame::Concat { gs, next, env, acc } => derives_seq(gs, next, env, s, k, k2, w),
            SpecFrame::Repeat { g, start, end, count, env, acc } => derives_rep(g, start, end, count + 1, env, s, k, k2, w),
        }
        &&& frames_accept(rest, s, k2, n, ws.drop_last())
    }
}

/// The string `s` belongs to the language of `g`.
pub open spec fn in_language(g: Grammar, s: Seq<char>) -> bool {
    exists|w: Witness| #[trigger] derives(g, seq![], s, 0, s.len(), w)
}

/// The search `r` for `target` succeeds on a parse ending at `n`: for a target, it does
/// not end without finding one; without, it ends with a list of parses one of which ends
/// at `n`, or does not end.
pub open spec fn succeeds(r: Search, target: Option<nat>, n: nat) -> bool {
    match target {
        Some(_) => !(r is Done),
        None => match r {
            Search::Done(l) => has_end(l, n),
            _ => true,
        },
    }
}

/// One of the parses `l` ends at `n`.
pub open spec fn has_end(l: Seq<(SpecAST, nat)>, n: nat) -> bool {
    exists|x: int| 0 <= x < l.len() && (#[trigger] l[x]).1 == n
}

proof fn lemma_or_else_succeeds(r1: Search, r2: Search, target: Option<nat>, n: nat)
    requires
        succeeds(r1, target, n) || succeeds(r2, target, n),
    ensures
        succeeds(or_else(r1, r2), target, n),
{
    match r1 {
        Search::Done(l1) => match r2 {
            Search::Done(l2) => {
                assert(or_else(r1, r2) == Search::Done(l1 + l2));
                if target is None {
                    if succeeds(r1, target, n) {
                        let x = choose|x: int| 0 <= x < l1.len() && (#[trigger] l1[x]).1 == n;
                        assert((l1 + l2)[x] == l1[x]);
                        assert(0 <= x < (l1 + l2).len() && (l1 + l2)[x].1 == n);
                        assert(has_end(l1 + l2, n));
                    } else {
                        let x = choose|x: int| 0 <= x < l2.len() && (#[trigger] l2[x]).1 == n;
                        assert((l1 + l2)[l1.len() + x] == l2[x]);
                        assert(0 <= l1.len() + x < (l1 + l2).len() && (l1 + l2)[l1.len() + x].1 == n);
                        assert(has_end(l1 + l2, n));
                    }
                }
                assert(succeeds(or_else(r1, r2), target, n));
            },
            _ => {
                assert(or_else(r1, r2) == r2);
            },
        },
        _ => {
            assert(or_else(r1, r2) == r1);
        },
    }
}

proof fn lemma_solve_complete(
    g: Grammar,
    env: Seq<Grammar>,
    frames: Seq<SpecFrame>,
    s: Seq<char>,
    i: nat,
    k: nat,
    w: Witness,
    n: nat,
    ws: Seq<(Witness, nat)>,
    target: Option<nat>,
    fuel: nat,
)
    requires
        derives(g, env, s, i, k, w),
        frames_accept(frames, s, k, n, ws),
        target matches Some(m) ==> m == n,
    ensures
        succeeds(solve(g, env, frames, s, i, target, fuel), target, n),
    decreases fuel, 0nat,
{
    if fuel > 0 {
        let f = (fuel - 1) as nat;
        match g {
            Grammar::Literal(ranges) => {
                lemma_resume_complete(frames, token_at(s, i as int), i + 1, s, n, ws, target, f);
                assert(super::parser::literal_step(ranges@, frames, s, i, target, f) == resume(
                    frames,
                    token_at(s, i as int),
                    i + 1,
                    s,
                    target,
                    f,
                ));
            },
            Grammar::Alternation(gs) => {
                let (t, sub) = match w {
                    Witness::Alt(t, sub) => (t, *sub),
                    _ => (0, w),
                };
                lemma_alts_complete(gs@, 0, t, env, frames, s, i, k, sub, n, ws, target, f);
            },
            Grammar::Concatenation(gs) => {
                let sub = match w {
                    Witness::Into(sub) => *sub,
                    _ => w,
                };
                assert(derives_seq(gs@, 0, env, s, i, k, sub));
                let (a, k1, b) = match sub {
                    Witness::Cons(a, k1, b) => (*a, k1, *b),
                    _ => (sub, 0, sub),
                };
                assert(derives(grammar_at(gs@, 0), env, s, i, k1, a));
                assert(derives_seq(gs@, 1, env, s, k1, k, b));
                let fr = SpecFrame::Concat { gs: gs@, next: 1, env, acc: seq![] };
                assert(frames.push(fr).drop_last() =~= frames);
                assert(ws.push((b, k)).drop_last() =~= ws);
                assert(frames_accept(frames.push(fr), s, k1, n, ws.push((b, k))));
                lemma_solve_complete(grammar_at(gs@, 0), env, frames.push(fr), s, i, k1, a, n, ws.push((b, k)), target, f);
            },
            Grammar::Repetition(inner, range) => {
                let sub = match w {
                    Witness::Into(sub) => *sub,
                    _ => w,
                };
                lemma_rep_complete(
                    rc_inner(inner),
                    range.start as nat,
                    range.end as nat,
                    0,
                    seq![],
                    env,
                    frames,
                    s,
                    i,
                    k,
                    sub,
                    n,
                    ws,
                    target,
                    f,
                );
            },
            Grammar::Recurse(r) => {
                let sub = match w {
                    Witness::Into(sub) => *sub,
                    _ => w,
                };
                lemma_solve_complete(
                    recursion_target(env, r as nat),
                    recursion_env(env, r as nat),
                    frames,
                    s,
                    i,
                    k,
                    sub,
                    n,
                    ws,
                    target,
                    f,
                );
            },
            Grammar::Recursive(body) => {
                let sub = match w {
                    Witness::Into(sub) => *sub,
                    _ => w,
                };
                lemma_solve_complete(rc_inner(body), env_with(env, rc_inner(body)), frames, s, i, k, sub, n, ws, target, f);
            },
        }
    }
}

proof fn lemma_resume_complete(
    frames: Seq<SpecFrame>,
    ast: SpecAST,
    j: nat,
    s: Seq<char>,
    n: nat,
    ws: Seq<(Witness, nat)>,
    target: Option<nat>,
    fuel: nat,
)
    requires
        frames_accept(frames, s, j, n, ws),
        target matches Some(m) ==> m == n,
    ensures
        succeeds(resume(frames, ast, j, s, target, fuel), target, n),
    decreases fuel, 0nat,
{
    if fuel > 0 && frames.len() == 0 {
        assert(seq![(ast, j)][0].1 == j);
        assert(has_end(seq![(ast, j)], j));
    }
    if fuel > 0 && frames.len() > 0 {
        let f = (fuel - 1) as nat;
        let rest = frames.drop_last();
        let (w, k2) = ws.last();
        match frames.last() {
            SpecFrame::Concat { gs, next, env, acc } => {
                let acc2 = acc.push(ast);
                if next >= gs.len() {
                    lemma_resume_complete(rest, SpecAST::Sequence(acc2), j, s, n, ws.drop_last(), target, f);
                } else {
                    let (a, k1, b) = match w {
                        Witness::Cons(a, k1, b) => (*a, k1, *b),
                        _ => (w, 0, w),
                    };
                    let fr = SpecFrame::Concat { gs, next: next + 1, env, acc: acc2 };
                    let ws2 = ws.drop_last().push((b, k2));
                    assert(rest.push(fr).drop_last() =~= rest);
                    assert(ws2.drop_last() =~= ws.drop_last());
                    assert(frames_accept(rest.push(fr), s, k1, n, ws2));
                    lemma_solve_complete(grammar_at(gs, next as int), env, rest.push(fr), s, j, k1, a, n, ws2, target, f);
                }
            },
            SpecFrame::Repeat { g, start, end, count, env, acc } => {
                lemma_rep_complete(g, start, end, count + 1, acc.push(ast), env, rest, s, j, k2, w, n, ws.drop_last(), target, f);
            },
        }
    }
}

proof fn lemma_rep_complete(
    g: Grammar,
    start: nat,
    end: nat,
    count: nat,
    acc: Seq<SpecAST>,
    env: Seq<Grammar>,
    frames: Seq<SpecFrame>,
    s: Seq<char>,
    i: nat,
    k: nat,
    w: Witness,
    n: nat,
    ws: Seq<(Witness, nat)>,
    target: Option<nat>,
    fuel: nat,
)
    requires
        derives_rep(g, start, end, count, env, s, i, k, w),
        frames_accept(frames, s, k, n, ws),
        target matches Some(m) ==> m == n,
    ensures
        succeeds(rep(g, start, end, count, acc, env, frames, s, i, target, fuel), target, n),
    decreases fuel, 1nat,
{
    let stop = if start <= count {
        resume(frames, SpecAST::Sequence(acc), i, s, target, fuel)
    } else {
        Search::Done(seq![])
    };
    let fr = SpecFrame::Repeat { g, start, end, count, env, acc };
    let more = solve(g, env, frames.push(fr), s, i, target, fuel);
    match w {
        Witness::Cons(a, k1, b) => {
            assert(frames.push(fr).drop_last() =~= frames);
            assert(ws.push((*b, k)).drop_last() =~= ws);
            assert(frames_accept(frames.push(fr), s, k1, n, ws.push((*b, k))));
            lemma_solve_complete(g, env, frames.push(fr), s, i, k1, *a, n, ws.push((*b, k)), target, fuel);
        },
        _ => {
            lemma_resume_complete(frames, SpecAST::Sequence(acc), i, s, n, ws, target, fuel);
        },
    }
    lemma_or_else_succeeds(stop, more, target, n);
    assert(rep(g, start, end, count, acc, env, frames, s, i, target, fuel) == or_else(stop, more));
}

proof fn lemma_alts_complete(
    gs: Seq<Rc<Grammar>>,
    kk: nat,
    t: nat,
    env: Seq<Grammar>,
    frames: Seq<SpecFrame>,
    s: Seq<char>,
    i: nat,
    k: nat,
    w: Witness,
    n: nat,
    ws: Seq<(Witness, nat)>,
    target: Option<nat>,
    fuel: nat,
)
    requires
        kk <= t < gs.len(),
        derives(grammar_at(gs, t as int), env, s, i, k, w),
        frames_accept(frames, s, k, n, ws),
        target matches Some(m) ==> m == n,
    ensures
        succeeds(alts(gs, kk, env, frames, s, i, target, fuel), target, n),
    decreases fuel, gs.len() + 1 - kk,
{
    let first = solve(grammar_at(gs, kk as int), env, frames, s, i, target, fuel);
    let others = alts(gs, kk + 1, env, frames, s, i, target, fuel);
    if kk == t {
        lemma_solve_complete(grammar_at(gs, kk as int), env, frames, s, i, k, w, n, ws, target, fuel);
    } else {
        lemma_alts_complete(gs, kk + 1, t, env, frames, s, i, k, w, n, ws, target, fuel);
    }
    lemma_or_else_succeeds(first, others, target, n);
    assert(alts(gs, kk, env, frames, s, i, target, fuel) == or_else(first, others));
}

/// When the search ends, a string of the language of a grammar has a parse: the parser
/// misses none.
pub proof fn lemma_parse_complete(g: Grammar, s: Seq<char>)
    requires
        terminates(g, s, 0, Some(s.len())),
        in_language(g, s),
    ensures
        first_parse(g, s) is Some,
{
    let w = choose|w: Witness| #[trigger] derives(g, seq![], s, 0, s.len(), w);
    let fuel = choose|fuel: nat| !(#[trigger] solve(g, seq![], seq![], s, 0, Some(s.len()), fuel) is Stuck);
    lemma_solve_complete(g, seq![], seq![], s, 0, s.len(), w, s.len(), seq![], Some(s.len()), fuel);
}

/// The syntax tree that the derivation `w` of `g` from index `i` builds: a literal gives
/// the token of its character, an alternation the tree of the alternative it picks, a
/// concatenation or a repetition the sequence of the trees of its parts, one after the
/// other, and a recursive grammar or a recursion point the tree of the grammar it stands
/// for.
pub open spec fn tree_of(g: Grammar, env: Seq<Grammar>, s: Seq<char>, i: nat, w: Witness) -> SpecAST
    decreases w,
{
    match g {
        Grammar::Literal(_) => SpecAST::Token(s[i as int]),
        Grammar::Alternation(gs) => match w {
            Witness::Alt(t, sub) => tree_of(grammar_at(gs@, t as int), env, s, i, *sub),
            _ => SpecAST::Sequence(seq![]),
        },
        Grammar::Concatenation(gs) => match w {
            Witness::Into(sub) => SpecAST::Sequence(seq_trees(gs@, 0, env, s, i, *sub)),
            _ => SpecAST::Sequence(seq![]),
        },
        Grammar::Repetition(inner, _) => match w {
            Witness::Into(sub) => SpecAST::Sequence(rep_trees(rc_inner(inner), env, s, i, *sub)),
            _ => SpecAST::Sequence(seq![]),
        },
        Grammar::Recurse(k) => match w {
            Witness::Into(sub) => tree_of(recursion_target(env, k as nat), recursion_env(env, k as nat), s, i, *sub),
            _ => SpecAST::Sequence(seq![]),
        },
        Grammar::Recursive(body) => match w {
            Witness::Into(sub) => tree_of(rc_inner(body), env_with(env, rc_inner(body)), s, i, *sub),
            _ => SpecAST::Sequence(seq![]),
        },
    }
}

/// The syntax trees that the derivation `w` of the grammars `gs[next..]`, one after the
/// other from index `i`, builds.
pub open spec fn seq_trees(gs: Seq<Rc<Grammar>>, next: nat, env: Seq<Grammar>, s: Seq<char>, i: nat, w: Witness) -> Seq<SpecAST>
    decreases w,
{
    match w {
        Witness::Cons(a, k, b) => seq![tree_of(grammar_at(gs, next as int), env, s, i, *a)] + seq_trees(gs, next + 1, env, s, k, *b),
        _ => seq![],
    }
}

/// The syntax trees that the derivation `w` of repetitions of `g` from index `i` builds.
pub open spec fn rep_trees(g: Grammar, env: Seq<Grammar>, s: Seq<char>, i: nat, w: Witness) -> Seq<SpecAST>
    decreases w,
{
    match w {
        Witness::Cons(a, k, b) => seq![tree_of(g, env, s, i, *a)] + rep_trees(g, env, s, k, *b),
        _ => seq![],
    }
}

/// The syntax tree that the parser completes when the tree `ast` ends at index `k` and the
/// derivations `ws` complete the pending frames.
pub open spec fn frames_tree(frames: Seq<SpecFrame>, ast: SpecAST, s: Seq<char>, k: nat, ws: Seq<(Witness, nat)>) -> SpecAST
    decreases frames.len(),
{
    if frames.len() == 0 || ws.len() == 0 {
        ast
    } else {
        let rest = frames.drop_last();
        let (w, k2) = ws.last();
        match frames.last() {
            SpecFrame::Concat { gs, next, env, acc } => frames_tree(
                rest,
                SpecAST::Sequence(acc.push(ast) + seq_trees(gs, next, env, s, k, w)),
                s,
                k2,
                ws.drop_last(),
            ),
            SpecFrame::Repeat { g, env, acc, .. } => frames_tree(
                rest,
                SpecAST::Sequence(acc.push(ast) + rep_trees(g, env, s, k, w)),
                s,
                k2,
                ws.drop_last(),
            ),
        }
    }
}

proof fn lemma_solve_found(
    g: Grammar,
    env: Seq<Grammar>,
    frames: Seq<SpecFrame>,
    s: Seq<char>,
    i: nat,
    n: nat,
    fuel: nat,
) -> (r: (nat, Witness, Seq<(Witness, nat)>))
    requires
        solve(g, env, frames, s, i, Some(n), fuel) is Found,
    ensures
        derives(g, env, s, i, r.0, r.1),
        frames_accept(frames, s, r.0, n, r.2),
        solve(g, env, frames, s, i, Some(n), fuel) == Search::Found(frames_tree(frames, tree_of(g, env, s, i, r.1), s, r.0, r.2)),
    decreases fuel, 0nat,
{
    let f = (fuel - 1) as nat;
    match g {
        Grammar::Literal(ranges) => {
            assert(super::parser::literal_step(ranges@, frames, s, i, Some(n), f) is Found);
            let ws = lemma_resume_found(frames, token_at(s, i as int), i + 1, s, n, f);
            (i + 1, Witness::Char, ws)
        },
        Grammar::Alternation(gs) => {
            let (t, k, w, ws) = lemma_alts_found(gs@, 0, env, frames, s, i, n, f);
            (k, Witness::Alt(t, Box::new(w)), ws)
        },
        Grammar::Concatenation(gs) => {
            let fr = SpecFrame::Concat { gs: gs@, next: 1, env, acc: seq![] };
            let (k1, a, ws1) = lemma_solve_found(grammar_at(gs@, 0), env, frames.push(fr), s, i, n, f);
            assert(frames.push(fr).drop_last() =~= frames);
            let (b, k2) = ws1.last();
            let w = Witness::Cons(Box::new(a), k1, Box::new(b));
            assert(derives_seq(gs@, 0, env, s, i, k2, w));
            assert(seq![].push(tree_of(grammar_at(gs@, 0), env, s, i, a)) + seq_trees(gs@, 1, env, s, k1, b)
                =~= seq_trees(gs@, 0, env, s, i, w));
            (k2, Witness::Into(Box::new(w)), ws1.drop_last())
        },
        Grammar::Repetition(inner, range) => {
            let (k, w, ws) = lemma_rep_found(
                rc_inner(inner),
                range.start as nat,
                range.end as nat,
                0,
                seq![],
                env,
                frames,
                s,
                i,
                n,
                f,
            );
            (k, Witness::Into(Box::new(w)), ws)
        },
        Grammar::Recurse(r) => {
            let (k, w, ws) = lemma_solve_found(recursion_target(env, r as nat), recursion_env(env, r as nat), frames, s, i, n, f);
            (k, Witness::Into(Box::new(w)), ws)
        },
        Grammar::Recursive(body) => {
            let (k, w, ws) = lemma_solve_found(rc_inner(body), env_with(env, rc_inner(body)), frames, s, i, n, f);
            (k, Witness::Into(Box::new(w)), ws)
        },
    }
}

proof fn lemma_resume_found(frames: Seq<SpecFrame>, ast: SpecAST, j: nat, s: Seq<char>, n: nat, fuel: nat) -> (ws: Seq<(Witness, nat)>)
    requires
        resume(frames, ast, j, s, Some(n), fuel) is Found,
    ensures
        frames_accept(frames, s, j, n, ws),
        resume(frames, ast, j, s, Some(n), fuel) == Search::Found(frames_tree(frames, ast, s, j, ws)),
    decreases fuel, 0nat,
{
    let f = (fuel - 1) as nat;
    if frames.len() == 0 {
        seq![]
    } else {
        let rest = frames.drop_last();
        match frames.last() {
            SpecFrame::Concat { gs, next, env, acc } => {
                let acc2 = acc.push(ast);
                if next >= gs.len() {
                    let ws = lemma_resume_found(rest, SpecAST::Sequence(acc2), j, s, n, f);
                    let r = ws.push((Witness::Nil, j));
                    assert(r.drop_last() =~= ws);
                    assert(acc2 + seq_trees(gs, next, env, s, j, Witness::Nil) =~= acc2);
                    assert(frames_tree(frames, ast, s, j, r) == frames_tree(rest, SpecAST::Sequence(acc2), s, j, ws));
                    r
                } else {
                    let fr = SpecFrame::Concat { gs, next: next + 1, env, acc: acc2 };
                    let (k1, a, ws1) = lemma_solve_found(grammar_at(gs, next as int), env, rest.push(fr), s, j, n, f);
                    assert(rest.push(fr).drop_last() =~= rest);
                    let (b, k2) = ws1.last();
                    let w = Witness::Cons(Box::new(a), k1, Box::new(b));
                    assert(derives_seq(gs, next, env, s, j, k2, w));
                    let r = ws1.drop_last().push((w, k2));
                    assert(r.drop_last() =~= ws1.drop_last());
                    let x = tree_of(grammar_at(gs, next as int), env, s, j, a);
                    assert(acc2 + seq_trees(gs, next, env, s, j, w) =~= acc2.push(x) + seq_trees(gs, next + 1, env, s, k1, b));
                    assert(frames_tree(rest.push(fr), x, s, k1, ws1) == frames_tree(
                        rest,
                        SpecAST::Sequence(acc2.push(x) + seq_trees(gs, next + 1, env, s, k1, b)),
                        s,
                        k2,
                        ws1.drop_last(),
                    ));
                    r
                }
            },
            SpecFrame::Repeat { g, start, end, count, env, acc } => {
                let (k2, w, ws) = lemma_rep_found(g, start, end, count + 1, acc.push(ast), env, rest, s, j, n, f);
                let r = ws.push((w, k2));
                assert(r.drop_last() =~= ws);
                assert(frames_tree(frames, ast, s, j, r) == frames_tree(
                    rest,
                    SpecAST::Sequence(acc.push(ast) + rep_trees(g, env, s, j, w)),
                    s,
                    k2,
                    ws,
                ));
                r
            },
        }
    }
}

proof fn lemma_rep_found(
    g: Grammar,
    start: nat,
    end: nat,
    count: nat,
    acc: Seq<SpecAST>,
    env: Seq<Grammar>,
    frames: Seq<SpecFrame>,
    s: Seq<char>,
    i: nat,
    n: nat,
    fuel: nat,
) -> (r: (nat, Witness, Seq<(Witness, nat)>))
    requires
        rep(g, start, end, count, acc, env, frames, s, i, Some(n), fuel) is Found,
    ensures
        derives_rep(g, start, end, count, env, s, i, r.0, r.1),
        frames_accept(frames, s, r.0, n, r.2),
        rep(g, start, end, count, acc, env, frames, s, i, Some(n), fuel) == Search::Found(
            frames_tree(frames, SpecAST::Sequence(acc + rep_trees(g, env, s, i, r.1)), s, r.0, r.2),
        ),
    decreases fuel, 1nat,
{
    let stop = if start <= count {
        resume(frames, SpecAST::Sequence(acc), i, s, Some(n), fuel)
    } else {
        Search::Done(seq![])
    };
    let fr = SpecFrame::Repeat { g, start, end, count, env, acc };
    let more = solve(g, env, frames.push(fr), s, i, Some(n), fuel);
    assert(rep(g, start, end, count, acc, env, frames, s, i, Some(n), fuel) == or_else(stop, more));
    if stop is Found {
        let ws = lemma_resume_found(frames, SpecAST::Sequence(acc), i, s, n, fuel);
        assert(acc + rep_trees(g, env, s, i, Witness::Nil) =~= acc);
        (i, Witness::Nil, ws)
    } else {
        let (k1, a, ws1) = lemma_solve_found(g, env, frames.push(fr), s, i, n, fuel);
        assert(frames.push(fr).drop_last() =~= frames);
        let (b, k2) = ws1.last();
        let w = Witness::Cons(Box::new(a), k1, Box::new(b));
        let x = tree_of(g, env, s, i, a);
        assert(acc + rep_trees(g, env, s, i, w) =~= acc.push(x) + rep_trees(g, env, s, k1, b));
        assert(frames_tree(frames.push(fr), x, s, k1, ws1) == frames_tree(
            frames,
            SpecAST::Sequence(acc.push(x) + rep_trees(g, env, s, k1, b)),
            s,
            k2,
            ws1.drop_last(),
        ));
        (k2, w, ws1.drop_last())
    }
}

proof fn lemma_alts_found(
    gs: Seq<Rc<Grammar>>,
    kk: nat,
    env: Seq<Grammar>,
    frames: Seq<SpecFrame>,
    s: Seq<char>,
    i: nat,
    n: nat,
    fuel: nat,
) -> (r: (nat, nat, Witness, Seq<(Witness, nat)>))
    requires
        alts(gs, kk, env, frames, s, i, Some(n), fuel) is Found,
    ensures
        kk <= r.0 < gs.len(),
        derives(grammar_at(gs, r.0 as int), env, s, i, r.1, r.2),
        frames_accept(frames, s, r.1, n, r.3),
        alts(gs, kk, env, frames, s, i, Some(n), fuel) == Search::Found(
            frames_tree(frames, tree_of(grammar_at(gs, r.0 as int), env, s, i, r.2), s, r.1, r.3),
        ),
    decreases fuel, gs.len() + 1 - kk,
{
    if solve(grammar_at(gs, kk as int), env, frames, s, i, Some(n), fuel) is Found {
        let (k, w, ws) = lemma_solve_found(grammar_at(gs, kk as int), env, frames, s, i, n, fuel);
        (kk, k, w, ws)
    } else {
        lemma_alts_found(gs, kk + 1, env, frames, s, i, n, fuel)
    }
}

/// A string that the parser parses belongs to the language of the grammar.
pub proof fn lemma_parse_sound(g: Grammar, s: Seq<char>)
    requires
        first_parse(g, s) is Some,
    ensures
        in_language(g, s),
{
    let fuel = choose|fuel: nat| !(#[trigger] solve(g, seq![], seq![], s, 0, Some(s.len()), fuel) is Stuck);
    let (k, w, ws) = lemma_solve_found(g, seq![], seq![], s, 0, s.len(), fuel);
    assert(derives(g, seq![], s, 0, s.len(), w));
}

/// When the search ends, the parser parses a string exactly when the string belongs to the
/// language of the grammar.
pub proof fn lemma_parse_iff_in_language(g: Grammar, s: Seq<char>)
    requires
        terminates(g, s, 0, Some(s.len())),
    ensures
        first_parse(g, s) is Some <==> in_language(g, s),
{
    if first_parse(g, s) is Some {
        lemma_parse_sound(g, s);
    }
    if in_language(g, s) {
        lemma_parse_complete(g, s);
    }
}

proof fn lemma_or_else_found(r1: Search, r2: Search)
    ensures
        or_else(r1, r2) is Found ==> r1 is Found || (r1 is Done && r2 is Found),
        or_else(r1, r2) matches Search::Done(l) ==> r1 matches Search::Done(l1) && r2 matches Search::Done(l2)
            && l == l1 + l2,
{
}

pub(crate) proof fn lemma_solve_not_found(g: Grammar, env: Seq<Grammar>, frames: Seq<SpecFrame>, s: Seq<char>, i: nat, fuel: nat)
    ensures
        !(solve(g, env, frames, s, i, None, fuel) is Found),
    decreases fuel, 0nat,
{
    if fuel > 0 {
        let f = (fuel - 1) as nat;
        match g {
            Grammar::Literal(ranges) => {
                lemma_resume_not_found(frames, token_at(s, i as int), i + 1, s, f);
                assert(super::parser::literal_step(ranges@, frames, s, i, None, f) is Done || super::parser::literal_step(
                    ranges@,
                    frames,
                    s,
                    i,
                    None,
                    f,
                ) == resume(frames, token_at(s, i as int), i + 1, s, None, f));
            },
            Grammar::Alternation(gs) => {
                lemma_alts_not_found(gs@, 0, env, frames, s, i, f);
            },
            Grammar::Concatenation(gs) => {
                if gs@.len() > 0 {
                    let fr = SpecFrame::Concat { gs: gs@, next: 1, env, acc: seq![] };
                    lemma_solve_not_found(grammar_at(gs@, 0), env, frames.push(fr), s, i, f);
                }
            },
            Grammar::Repetition(inner, range) => {
                lemma_rep_not_found(rc_inner(inner), range.start as nat, range.end as nat, 0, seq![], env, frames, s, i, f);
            },
            Grammar::Recurse(r) => {
                if r < env.len() {
                    lemma_solve_not_found(recursion_target(env, r as nat), recursion_env(env, r as nat), frames, s, i, f);
                }
            },
            Grammar::Recursive(body) => {
                lemma_solve_not_found(rc_inner(body), env_with(env, rc_inner(body)), frames, s, i, f);
            },
        }
    }
}

pub(crate) proof fn lemma_resume_not_found(frames: Seq<SpecFrame>, ast: SpecAST, j: nat, s: Seq<char>, fuel: nat)
    ensures
        !(resume(frames, ast, j, s, None, fuel) is Found),
    decreases fuel, 0nat,
{
    if fuel > 0 && frames.len() > 0 {
        let f = (fuel - 1) as nat;
        let rest = frames.drop_last();
        match frames.last() {
            SpecFrame::Concat { gs, next, env, acc } => {
                let acc2 = acc.push(ast);
                if next >= gs.len() {
                    lemma_resume_not_found(rest, SpecAST::Sequence(acc2), j, s, f);
                } else {
                    let fr = SpecFrame::Concat { gs, next: next + 1, env, acc: acc2 };
                    lemma_solve_not_found(grammar_at(gs, next as int), env, rest.push(fr), s, j, f);
                }
            },
            SpecFrame::Repeat { g, start, end, count, env, acc } => {
                lemma_rep_not_found(g, start, end, count + 1, acc.push(ast), env, rest, s, j, f);
            },
        }
    }
}

pub(crate) proof fn lemma_rep_not_found(
    g: Grammar,
    start: nat,
    end: nat,
    count: nat,
    acc: Seq<SpecAST>,
    env: Seq<Grammar>,
    frames: Seq<SpecFrame>,
    s: Seq<char>,
    i: nat,
    fuel: nat,
)
    ensures
        !(rep(g, start, end, count, acc, env, frames, s, i, None, fuel) is Found),
    decreases fuel, 1nat,
{
    let stop = if start <= count {
        resume(frames, SpecAST::Sequence(acc), i, s, None, fuel)
    } else {
        Search::Done(seq![])
    };
    let fr = SpecFrame::Repeat { g, start, end, count, env, acc };
    let more = solve(g, env, frames.push(fr), s, i, None, fuel);
    lemma_resume_not_found(frames, SpecAST::Sequence(acc), i, s, fuel);
    lemma_solve_not_found(g, env, frames.push(fr), s, i, fuel);
    lemma_or_else_found(stop, more);
}

pub(crate) proof fn lemma_alts_not_found(
    gs: Seq<Rc<Grammar>>,
    kk: nat,
    env: Seq<Grammar>,
    frames: Seq<SpecFrame>,
    s: Seq<char>,
    i: nat,
    fuel: nat,
)
    ensures
        !(alts(gs, kk, env, frames, s, i, None, fuel) is Found),
    decreases fuel, gs.len() + 1 - kk,
{
    if kk < gs.len() {
        lemma_solve_not_found(grammar_at(gs, kk as int), env, frames, s, i, fuel);
        lemma_alts_not_found(gs, kk + 1, env, frames, s, i, fuel);
        lemma_or_else_found(
            solve(grammar_at(gs, kk as int), env, frames, s, i, None, fuel),
            alts(gs, kk + 1, env, frames, s, i, None, fuel),
        );
    }
}

proof fn lemma_solve_end(
    g: Grammar,
    env: Seq<Grammar>,
    frames: Seq<SpecFrame>,
    s: Seq<char>,
    i: nat,
    fuel: nat,
    x: int,
) -> (r: (nat, Witness, Seq<(Witness, nat)>))
    requires
        solve(g, env, frames, s, i, None, fuel) matches Search::Done(l) && 0 <= x < l.len(),
    ensures
        derives(g, env, s, i, r.0, r.1),
        frames_accept(frames, s, r.0, solve(g, env, frames, s, i, None, fuel)->Done_0[x].1, r.2),
    decreases fuel, 0nat,
{
    let f = (fuel - 1) as nat;
    match g {
        Grammar::Literal(ranges) => {
            assert(super::parser::literal_step(ranges@, frames, s, i, None, f) == resume(
                frames,
                token_at(s, i as int),
                i + 1,
                s,
                None,
                f,
            ));
            let ws = lemma_resume_end(frames, token_at(s, i as int), i + 1, s, f, x);
            (i + 1, Witness::Char, ws)
        },
        Grammar::Alternation(gs) => {
            let (t, k, w, ws) = lemma_alts_end(gs@, 0, env, frames, s, i, f, x);
            (k, Witness::Alt(t, Box::new(w)), ws)
        },
        Grammar::Concatenation(gs) => {
            let fr = SpecFrame::Concat { gs: gs@, next: 1, env, acc: seq![] };
            let (k1, a, ws1) = lemma_solve_end(grammar_at(gs@, 0), env, frames.push(fr), s, i, f, x);
            assert(frames.push(fr).drop_last() =~= frames);
            let (b, k2) = ws1.last();
            let w = Witness::Cons(Box::new(a), k1, Box::new(b));
            assert(derives_seq(gs@, 0, env, s, i, k2, w));
            (k2, Witness::Into(Box::new(w)), ws1.drop_last())
        },
        Grammar::Repetition(inner, range) => {
            let (k, w, ws) = lemma_rep_end(
                rc_inner(inner),
                range.start as nat,
                range.end as nat,
                0,
                seq![],
                env,
                frames,
                s,
                i,
                f,
                x,
            );
            (k, Witness::Into(Box::new(w)), ws)
        },
        Grammar::Recurse(r) => {
            let (k, w, ws) = lemma_solve_end(recursion_target(env, r as nat), recursion_env(env, r as nat), frames, s, i, f, x);
            (k, Witness::Into(Box::new(w)), ws)
        },
        Grammar::Recursive(body) => {
            let (k, w, ws) = lemma_solve_end(rc_inner(body), env_with(env, rc_inner(body)), frames, s, i, f, x);
            (k, Witness::Into(Box::new(w)), ws)
        },
    }
}

proof fn lemma_resume_end(frames: Seq<SpecFrame>, ast: SpecAST, j: nat, s: Seq<char>, fuel: nat, x: int) -> (ws: Seq<(Witness, nat)>)
    requires
        resume(frames, ast, j, s, None, fuel) matches Search::Done(l) && 0 <= x < l.len(),
    ensures
        frames_accept(frames, s, j, resume(frames, ast, j, s, None, fuel)->Done_0[x].1, ws),
    decreases fuel, 0nat,
{
    let f = (fuel - 1) as nat;
    if frames.len() == 0 {
        seq![]
    } else {
        let rest = frames.drop_last();
        match frames.last() {
            SpecFrame::Concat { gs, next, env, acc } => {
                let acc2 = acc.push(ast);
                if next >= gs.len() {
                    let ws = lemma_resume_end(rest, SpecAST::Sequence(acc2), j, s, f, x);
                    let r = ws.push((Witness::Nil, j));
                    assert(r.drop_last() =~= ws);
                    r
                } else {
                    let fr = SpecFrame::Concat { gs, next: next + 1, env, acc: acc2 };
                    let (k1, a, ws1) = lemma_solve_end(grammar_at(gs, next as int), env, rest.push(fr), s, j, f, x);
                    assert(rest.push(fr).drop_last() =~= rest);
                    let (b, k2) = ws1.last();
                    let w = Witness::Cons(Box::new(a), k1, Box::new(b));
                    assert(derives_seq(gs, next, env, s, j, k2, w));
                    let r = ws1.drop_last().push((w, k2));
                    assert(r.drop_last() =~= ws1.drop_last());
                    r
                }
            },
            SpecFrame::Repeat { g, start, end, count, env, acc } => {
                let (k2, w, ws) = lemma_rep_end(g, start, end, count + 1, acc.push(ast), env, rest, s, j, f, x);
                let r = ws.push((w, k2));
                assert(r.drop_last() =~= ws);
                r
            },
        }
    }
}

proof fn lemma_rep_end(
    g: Grammar,
    start: nat,
    end: nat,
    count: nat,
    acc: Seq<SpecAST>,
    env: Seq<Grammar>,
    frames: Seq<SpecFrame>,
    s: Seq<char>,
    i: nat,
    fuel: nat,
    x: int,
) -> (r: (nat, Witness, Seq<(Witness, nat)>))
    requires
        rep(g, start, end, count, acc, env, frames, s, i, None, fuel) matches Search::Done(l) && 0 <= x < l.len(),
    ensures
        derives_rep(g, start, end, count, env, s, i, r.0, r.1),
        frames_accept(frames, s, r.0, rep(g, start, end, count, acc, env, frames, s, i, None, fuel)->Done_0[x].1, r.2),
    decreases fuel, 1nat,
{
    let stop = if start <= count {
        resume(frames, SpecAST::Sequence(acc), i, s, None, fuel)
    } else {
        Search::Done(seq![])
    };
    let fr = SpecFrame::Repeat { g, start, end, count, env, acc };
    let more = solve(g, env, frames.push(fr), s, i, None, fuel);
    assert(rep(g, start, end, count, acc, env, frames, s, i, None, fuel) == or_else(stop, more));
    lemma_or_else_found(stop, more);
    let l1 = stop->Done_0;
    let l2 = more->Done_0;
    if x < l1.len() {
        assert((l1 + l2)[x] == l1[x]);
        let ws = lemma_resume_end(frames, SpecAST::Sequence(acc), i, s, fuel, x);
        (i, Witness::Nil, ws)
    } else {
        assert((l1 + l2)[x] == l2[x - l1.len()]);
        let (k1, a, ws1) = lemma_solve_end(g, env, frames.push(fr), s, i, fuel, x - l1.len());
        assert(frames.push(fr).drop_last() =~= frames);
        let (b, k2) = ws1.last();
        (k2, Witness::Cons(Box::new(a), k1, Box::new(b)), ws1.drop_last())
    }
}

proof fn lemma_alts_end(
    gs: Seq<Rc<Grammar>>,
    kk: nat,
    env: Seq<Grammar>,
    frames: Seq<SpecFrame>,
    s: Seq<char>,
    i: nat,
    fuel: nat,
    x: int,
) -> (r: (nat, nat, Witness, Seq<(Witness, nat)>))
    requires
        alts(gs, kk, env, frames, s, i, None, fuel) matches Search::Done(l) && 0 <= x < l.len(),
    ensures
        kk <= r.0 < gs.len(),
        derives(grammar_at(gs, r.0 as int), env, s, i, r.1, r.2),
        frames_accept(frames, s, r.1, alts(gs, kk, env, frames, s, i, None, fuel)->Done_0[x].1, r.3),
    decreases fuel, gs.len() + 1 - kk,
{
    let first = solve(grammar_at(gs, kk as int), env, frames, s, i, None, fuel);
    let others = alts(gs, kk + 1, env, frames, s, i, None, fuel);
    assert(alts(gs, kk, env, frames, s, i, None, fuel) == or_else(first, others));
    lemma_or_else_found(first, others);
    let l1 = first->Done_0;
    let l2 = others->Done_0;
    if x < l1.len() {
        assert((l1 + l2)[x] == l1[x]);
        let (k, w, ws) = lemma_solve_end(grammar_at(gs, kk as int), env, frames, s, i, fuel, x);
        (kk, k, w, ws)
    } else {
        assert((l1 + l2)[x] == l2[x - l1.len()]);
        lemma_alts_end(gs, kk + 1, env, frames, s, i, fuel, x - l1.len())
    }
}

/// `g` derives `s[i..j]`.
pub open spec fn derivable(g: Grammar, s: Seq<char>, i: nat, j: nat) -> bool {
    exists|w: Witness| #[trigger] derives(g, seq![], s, i, j, w)
}

/// When the search ends, the parses of a prefix of `s[i..]` end exactly where a
/// derivation of the grammar from `i` ends: each parse ends at such an index, and each
/// such index is the end of a parse.
pub proof fn lemma_all_parses_exact(g: Grammar, s: Seq<char>, i: nat)
    requires
        terminates(g, s, i, None),
    ensures
        forall|x: int| 0 <= x < all_parses(g, s, i).len() ==> derivable(g, s, i, #[trigger] all_parses(g, s, i)[x].1),
        forall|j: nat| derivable(g, s, i, j) ==> has_end(all_parses(g, s, i), j),
{
    let fuel = choose|fuel: nat| !(#[trigger] solve(g, seq![], seq![], s, i, None, fuel) is Stuck);
    let r = solve(g, seq![], seq![], s, i, None, fuel);
    lemma_solve_not_found(g, seq![], seq![], s, i, fuel);
    assert(r is Done);
    assert forall|x: int| 0 <= x < all_parses(g, s, i).len() implies derivable(g, s, i, #[trigger] all_parses(g, s, i)[x].1) by {
        let (k, w, ws) = lemma_solve_end(g, seq![], seq![], s, i, fuel, x);
        assert(derives(g, seq![], s, i, all_parses(g, s, i)[x].1, w));
    }
    assert forall|j: nat| derivable(g, s, i, j) implies has_end(all_parses(g, s, i), j) by {
        let w = choose|w: Witness| #[trigger] derives(g, seq![], s, i, j, w);
        lemma_solve_complete(g, seq![], seq![], s, i, j, w, j, seq![], None, fuel);
    }
}


proof fn lemma_asts_chars_concat(a: Seq<SpecAST>, b: Seq<SpecAST>)
    ensures
        asts_chars(a + b) == asts_chars(a) + asts_chars(b),
    decreases b.len(),
{
    if b.len() == 0 {
        assert(a + b =~= a);
        assert(asts_chars(b) =~= seq![]);
    } else {
        let b1 = b.drop_last();
        let z = b.last();
        lemma_asts_chars_concat(a, b1);
        assert(a + b =~= (a + b1).push(z));
        assert(b =~= b1.push(z));
        lemma_asts_chars_push(a + b1, z);
        lemma_asts_chars_push(b1, z);
    }
}

proof fn lemma_asts_chars_cons(x: SpecAST, y: Seq<SpecAST>)
    ensures
        asts_chars(seq![x] + y) == ast_chars(x) + asts_chars(y),
{
    lemma_asts_chars_concat(seq![x], y);
    lemma_asts_chars_push(seq![], x);
    assert(seq![].push(x) =~= seq![x]);
    assert(asts_chars(seq![]) =~= seq![]);
    assert(seq![] + ast_chars(x) =~= ast_chars(x));
}

/// The syntax tree that a derivation of `s[i..j]` builds prints back as `s[i..j]`.
pub proof fn lemma_derivation_tree_prints_back(g: Grammar, env: Seq<Grammar>, s: Seq<char>, i: nat, j: nat, w: Witness)
    requires
        i <= s.len(),
        derives(g, env, s, i, j, w),
    ensures
        i <= j <= s.len(),
        ast_chars(tree_of(g, env, s, i, w)) == s.subrange(i as int, j as int),
    decreases w,
{
    match g {
        Grammar::Literal(_) => {
            assert(s.subrange(i as int, j as int) =~= seq![s[i as int]]);
        },
        Grammar::Alternation(gs) => {
            if let Witness::Alt(t, sub) = w {
                lemma_derivation_tree_prints_back(grammar_at(gs@, t as int), env, s, i, j, *sub);
            }
        },
        Grammar::Concatenation(gs) => {
            if let Witness::Into(sub) = w {
                lemma_seq_trees_print_back(gs@, 0, env, s, i, j, *sub);
            }
        },
        Grammar::Repetition(inner, range) => {
            if let Witness::Into(sub) = w {
                lemma_rep_trees_print_back(rc_inner(inner), range.start as nat, range.end as nat, 0, env, s, i, j, *sub);
            }
        },
        Grammar::Recurse(k) => {
            if let Witness::Into(sub) = w {
                lemma_derivation_tree_prints_back(recursion_target(env, k as nat), recursion_env(env, k as nat), s, i, j, *sub);
            }
        },
        Grammar::Recursive(body) => {
            if let Witness::Into(sub) = w {
                lemma_derivation_tree_prints_back(rc_inner(body), env_with(env, rc_inner(body)), s, i, j, *sub);
            }
        },
    }
}

proof fn lemma_seq_trees_print_back(gs: Seq<Rc<Grammar>>, next: nat, env: Seq<Grammar>, s: Seq<char>, i: nat, j: nat, w: Witness)
    requires
        i <= s.len(),
        derives_seq(gs, next, env, s, i, j, w),
    ensures
        i <= j <= s.len(),
        asts_chars(seq_trees(gs, next, env, s, i, w)) == s.subrange(i as int, j as int),
    decreases w,
{
    if let Witness::Cons(a, k, b) = w {
        if next < gs.len() {
            let x = tree_of(grammar_at(gs, next as int), env, s, i, *a);
            lemma_derivation_tree_prints_back(grammar_at(gs, next as int), env, s, i, k, *a);
            lemma_seq_trees_print_back(gs, next + 1, env, s, k, j, *b);
            lemma_asts_chars_cons(x, seq_trees(gs, next + 1, env, s, k, *b));
            assert(s.subrange(i as int, j as int) =~= s.subrange(i as int, k as int) + s.subrange(k as int, j as int));
        }
    } else {
        assert(asts_chars(seq![]) =~= seq![]);
        assert(s.subrange(i as int, j as int) =~= seq![]);
    }
}

proof fn lemma_rep_trees_print_back(
    g: Grammar,
    start: nat,
    end: nat,
    count: nat,
    env: Seq<Grammar>,
    s: Seq<char>,
    i: nat,
    j: nat,
    w: Witness,
)
    requires
        i <= s.len(),
        derives_rep(g, start, end, count, env, s, i, j, w),
    ensures
        i <= j <= s.len(),
        asts_chars(rep_trees(g, env, s, i, w)) == s.subrange(i as int, j as int),
    decreases w,
{
    if let Witness::Cons(a, k, b) = w {
        let x = tree_of(g, env, s, i, *a);
        lemma_derivation_tree_prints_back(g, env, s, i, k, *a);
        lemma_rep_trees_print_back(g, start, end, count + 1, env, s, k, j, *b);
        lemma_asts_chars_cons(x, rep_trees(g, env, s, k, *b));
        assert(s.subrange(i as int, j as int) =~= s.subrange(i as int, k as int) + s.subrange(k as int, j as int));
    } else {
        assert(asts_chars(seq![]) =~= seq![]);
        assert(s.subrange(i as int, j as int) =~= seq![]);
    }
}


/// The first parse of a string is the syntax tree that a derivation of the whole string
/// builds (`tree_of`).
pub proof fn lemma_parse_is_derivation_tree(g: Grammar, s: Seq<char>)
    requires
        first_parse(g, s) is Some,
    ensures
        exists|w: Witness|
            #[trigger] derives(g, seq![], s, 0, s.len(), w) && first_parse(g, s) == Some(tree_of(g, seq![], s, 0, w)),
{
    let fuel = choose|fuel: nat| !(#[trigger] solve(g, seq![], seq![], s, 0, Some(s.len()), fuel) is Stuck);
    let (k, w, ws) = lemma_solve_found(g, seq![], seq![], s, 0, s.len(), fuel);
    assert(derives(g, seq![], s, 0, s.len(), w));
}

/// The index where each part of the derivation `w` of consecutive parts from index `i`
/// starts, followed by the index where the last one ends.
pub open spec fn part_bounds(w: Witness, i: nat) -> Seq<nat>
    decreases w,
{
    match w {
        Witness::Cons(_, k, b) => seq![i] + part_bounds(*b, k),
        _ => seq![i],
    }
}

/// The derivation of the `k`-th part in the derivation `w` of consecutive parts.
pub open spec fn part_witness(w: Witness, k: nat) -> Witness
    decreases w,
{
    match w {
        Witness::Cons(a, _, b) => if k == 0 { *a } else { part_witness(*b, (k - 1) as nat) },
        _ => Witness::Nil,
    }
}

proof fn lemma_seq_parts(gs: Seq<Rc<Grammar>>, next: nat, env: Seq<Grammar>, s: Seq<char>, i: nat, j: nat, w: Witness)
    requires
        next <= gs.len(),
        i <= s.len(),
        derives_seq(gs, next, env, s, i, j, w),
    ensures
        seq_trees(gs, next, env, s, i, w).len() == gs.len() - next,
        part_bounds(w, i).len() == gs.len() - next + 1,
        part_bounds(w, i)[0] == i,
        part_bounds(w, i)[gs.len() - next] == j,
        forall|k: int|
            0 <= k < gs.len() - next ==> part_bounds(w, i)[k] <= #[trigger] part_bounds(w, i)[k + 1] <= s.len()
                && derives(
                grammar_at(gs, next + k),
                env,
                s,
                part_bounds(w, i)[k],
                part_bounds(w, i)[k + 1],
                part_witness(w, k as nat),
            ) && seq_trees(gs, next, env, s, i, w)[k] == tree_of(
                grammar_at(gs, next + k),
                env,
                s,
                part_bounds(w, i)[k],
                part_witness(w, k as nat),
            ),
    decreases w,
{
    if let Witness::Cons(a, m, b) = w {
        lemma_derivation_tree_prints_back(grammar_at(gs, next as int), env, s, i, m, *a);
        lemma_seq_parts(gs, next + 1, env, s, m, j, *b);
        let bs = part_bounds(w, i);
        let rb = part_bounds(*b, m);
        let ts = seq_trees(gs, next, env, s, i, w);
        let rt = seq_trees(gs, next + 1, env, s, m, *b);
        assert forall|k: int|
            0 <= k < gs.len() - next implies bs[k] <= #[trigger] bs[k + 1] <= s.len() && derives(
                grammar_at(gs, next + k),
                env,
                s,
                bs[k],
                bs[k + 1],
                part_witness(w, k as nat),
            ) && ts[k] == tree_of(grammar_at(gs, next + k), env, s, bs[k], part_witness(w, k as nat)) by {
            if k > 0 {
                assert(bs[k] == rb[k - 1]);
                assert(bs[k + 1] == rb[(k - 1) + 1]);
                assert(ts[k] == rt[k - 1]);
                assert(next + k == (next + 1) + (k - 1));
            }
        }
    }
}

/// The first parse of a string by a concatenation is a sequence of one syntax tree per
/// part, in order: the string splits into consecutive pieces, the `k`-th piece is derived
/// by the `k`-th part, and the `k`-th tree is the one that this derivation builds and
/// prints back as the piece.
pub proof fn lemma_concatenation_parse_part_by_part(gs: Vec<Rc<Grammar>>, s: Seq<char>)
    requires
        first_parse(Grammar::Concatenation(gs), s) is Some,
    ensures
        exists|parts: Seq<SpecAST>, bounds: Seq<nat>|
            {
                &&& first_parse(Grammar::Concatenation(gs), s) == Some(SpecAST::Sequence(parts))
                &&& parts.len() == gs@.len()
                &&& bounds.len() == gs@.len() + 1
                &&& bounds[0] == 0
                &&& bounds[gs@.len() as int] == s.len()
                &&& forall|k: int|
                    0 <= k < gs@.len() ==> bounds[k] <= #[trigger] bounds[k + 1] && exists|w: Witness|
                        derives(grammar_at(gs@, k), seq![], s, bounds[k], bounds[k + 1], w) && parts[k] == tree_of(
                            grammar_at(gs@, k),
                            seq![],
                            s,
                            bounds[k],
                            w,
                        ) && ast_chars(parts[k]) == s.subrange(bounds[k] as int, bounds[k + 1] as int)
            },
{
    let g = Grammar::Concatenation(gs);
    lemma_parse_is_derivation_tree(g, s);
    let w = choose|w: Witness| #[trigger] derives(g, seq![], s, 0, s.len(), w) && first_parse(g, s) == Some(tree_of(g, seq![], s, 0, w));
    if let Witness::Into(sub) = w {
        lemma_seq_parts(gs@, 0, seq![], s, 0, s.len(), *sub);
        let parts = seq_trees(gs@, 0, seq![], s, 0, *sub);
        let bounds = part_bounds(*sub, 0);
        assert forall|k: int|
            0 <= k < gs@.len() implies bounds[k] <= #[trigger] bounds[k + 1] && exists|v: Witness|
                derives(grammar_at(gs@, k), seq![], s, bounds[k], bounds[k + 1], v) && parts[k] == tree_of(
                    grammar_at(gs@, k),
                    seq![],
                    s,
                    bounds[k],
                    v,
                ) && ast_chars(parts[k]) == s.subrange(bounds[k] as int, bounds[k + 1] as int) by {
            let v = part_witness(*sub, k as nat);
            assert(0 + k == k);
            lemma_derivation_tree_prints_back(grammar_at(gs@, k), seq![], s, bounds[k], bounds[k + 1], v);
        }
    }
}


/// The pending frames, handed the syntax tree `ast` that ends at `j`, complete the parse `e`
/// (a tree and the index where it ends).
pub open spec fn resume_parse(frames: Seq<SpecFrame>, ast: SpecAST, j: nat, s: Seq<char>, e: (SpecAST, nat)) -> bool {
    exists|ws: Seq<(Witness, nat)>|
        #[trigger] frames_accept(frames, s, j, e.1, ws) && e.0 == frames_tree(frames, ast, s, j, ws)
}

/// A derivation of `g` from `i`, followed by the pending frames, completes the parse `e`.
pub open spec fn solve_parse(g: Grammar, env: Seq<Grammar>, frames: Seq<SpecFrame>, s: Seq<char>, i: nat, e: (SpecAST, nat)) -> bool {
    exists|k: nat, w: Witness|
        #[trigger] derives(g, env, s, i, k, w) && resume_parse(frames, tree_of(g, env, s, i, w), k, s, e)
}

/// A derivation of the rest of a repetition from `i`, followed by the pending frames,
/// completes the parse `e`.
pub open spec fn rep_parse(
    g: Grammar,
    start: nat,
    end: nat,
    count: nat,
    acc: Seq<SpecAST>,
    env: Seq<Grammar>,
    frames: Seq<SpecFrame>,
    s: Seq<char>,
    i: nat,
    e: (SpecAST, nat),
) -> bool {
    exists|k: nat, w: Witness|
        #[trigger] derives_rep(g, start, end, count, env, s, i, k, w) && resume_parse(
            frames,
            SpecAST::Sequence(acc + rep_trees(g, env, s, i, w)),
            k,
            s,
            e,
        )
}

proof fn lemma_solve_trees(g: Grammar, env: Seq<Grammar>, frames: Seq<SpecFrame>, s: Seq<char>, i: nat, fuel: nat)
    ensures
        solve(g, env, frames, s, i, None, fuel) matches Search::Done(l) ==> forall|x: int|
            0 <= x < l.len() ==> solve_parse(g, env, frames, s, i, #[trigger] l[x]),
    decreases fuel, 0nat,
{
    if fuel > 0 {
        let f = (fuel - 1) as nat;
        match g {
            Grammar::Literal(ranges) => {
                assert(solve(g, env, frames, s, i, None, fuel) == super::parser::literal_step(ranges@, frames, s, i, None, f));
                if i < s.len() && in_ranges(ranges@, s[i as int]) {
                    lemma_resume_trees(frames, token_at(s, i as int), i + 1, s, f);
                    if let Search::Done(l) = solve(g, env, frames, s, i, None, fuel) {
                        assert forall|x: int| 0 <= x < l.len() implies solve_parse(g, env, frames, s, i, #[trigger] l[x]) by {
                            assert(derives(g, env, s, i, i + 1, Witness::Char));
                            assert(tree_of(g, env, s, i, Witness::Char) == token_at(s, i as int));
                        }
                    }
                }
            },
            Grammar::Alternation(gs) => {
                lemma_alts_trees(gs@, 0, env, frames, s, i, f);
                if let Search::Done(l) = solve(g, env, frames, s, i, None, fuel) {
                    assert forall|x: int| 0 <= x < l.len() implies solve_parse(g, env, frames, s, i, #[trigger] l[x]) by {
                        let t = choose|t: nat| 0 <= t < gs@.len() && solve_parse(grammar_at(gs@, t as int), env, frames, s, i, l[x]);
                        let (k, w) = choose|k: nat, w: Witness|
                            #[trigger] derives(grammar_at(gs@, t as int), env, s, i, k, w) && resume_parse(
                                frames,
                                tree_of(grammar_at(gs@, t as int), env, s, i, w),
                                k,
                                s,
                                l[x],
                            );
                        let aw = Witness::Alt(t, Box::new(w));
                        assert(derives(g, env, s, i, k, aw));
                        assert(tree_of(g, env, s, i, aw) == tree_of(grammar_at(gs@, t as int), env, s, i, w));
                    }
                }
            },
            Grammar::Concatenation(gs) => {
                if gs@.len() > 0 {
                    let fr = SpecFrame::Concat { gs: gs@, next: 1, env, acc: seq![] };
                    let frames1 = frames.push(fr);
                    let g0 = grammar_at(gs@, 0);
                    lemma_solve_trees(g0, env, frames1, s, i, f);
                    assert(frames1.drop_last() =~= frames);
                    if let Search::Done(l) = solve(g, env, frames, s, i, None, fuel) {
                        assert forall|x: int| 0 <= x < l.len() implies solve_parse(g, env, frames, s, i, #[trigger] l[x]) by {
                            let e = l[x];
                            let (k1, a) = choose|k: nat, w: Witness|
                                #[trigger] derives(g0, env, s, i, k, w) && resume_parse(frames1, tree_of(g0, env, s, i, w), k, s, e);
                            let ta = tree_of(g0, env, s, i, a);
                            let ws1 = choose|ws: Seq<(Witness, nat)>|
                                #[trigger] frames_accept(frames1, s, k1, e.1, ws) && e.0 == frames_tree(frames1, ta, s, k1, ws);
                            let (b, k2) = ws1.last();
                            let sw = Witness::Cons(Box::new(a), k1, Box::new(b));
                            let w = Witness::Into(Box::new(sw));
                            assert(derives_seq(gs@, 0, env, s, i, k2, sw));
                            assert(derives(g, env, s, i, k2, w));
                            assert(seq![].push(ta) + seq_trees(gs@, 1, env, s, k1, b) =~= seq_trees(gs@, 0, env, s, i, sw));
                            assert(frames_accept(frames, s, k2, e.1, ws1.drop_last()));
                            assert(resume_parse(frames, tree_of(g, env, s, i, w), k2, s, e));
                        }
                    }
                }
            },
            Grammar::Repetition(inner, range) => {
                let gi = rc_inner(inner);
                lemma_rep_trees(gi, range.start as nat, range.end as nat, 0, seq![], env, frames, s, i, f);
                if let Search::Done(l) = solve(g, env, frames, s, i, None, fuel) {
                    assert forall|x: int| 0 <= x < l.len() implies solve_parse(g, env, frames, s, i, #[trigger] l[x]) by {
                        let (k, w) = choose|k: nat, w: Witness|
                            #[trigger] derives_rep(gi, range.start as nat, range.end as nat, 0, env, s, i, k, w) && resume_parse(
                                frames,
                                SpecAST::Sequence(seq![] + rep_trees(gi, env, s, i, w)),
                                k,
                                s,
                                l[x],
                            );
                        assert(seq![] + rep_trees(gi, env, s, i, w) =~= rep_trees(gi, env, s, i, w));
                        assert(derives(g, env, s, i, k, Witness::Into(Box::new(w))));
                    }
                }
            },
            Grammar::Recurse(r) => {
                if r < env.len() {
                    let gt = recursion_target(env, r as nat);
                    let et = recursion_env(env, r as nat);
                    lemma_solve_trees(gt, et, frames, s, i, f);
                    if let Search::Done(l) = solve(g, env, frames, s, i, None, fuel) {
                        assert forall|x: int| 0 <= x < l.len() implies solve_parse(g, env, frames, s, i, #[trigger] l[x]) by {
                            let (k, w) = choose|k: nat, w: Witness|
                                #[trigger] derives(gt, et, s, i, k, w) && resume_parse(frames, tree_of(gt, et, s, i, w), k, s, l[x]);
                            assert(derives(g, env, s, i, k, Witness::Into(Box::new(w))));
                        }
                    }
                }
            },
            Grammar::Recursive(body) => {
                let gb = rc_inner(body);
                let eb = env_with(env, gb);
                lemma_solve_trees(gb, eb, frames, s, i, f);
                if let Search::Done(l) = solve(g, env, frames, s, i, None, fuel) {
                    assert forall|x: int| 0 <= x < l.len() implies solve_parse(g, env, frames, s, i, #[trigger] l[x]) by {
                        let (k, w) = choose|k: nat, w: Witness|
                            #[trigger] derives(gb, eb, s, i, k, w) && resume_parse(frames, tree_of(gb, eb, s, i, w), k, s, l[x]);
                        assert(derives(g, env, s, i, k, Witness::Into(Box::new(w))));
                    }
                }
            },
        }
    }
}

proof fn lemma_resume_trees(frames: Seq<SpecFrame>, ast: SpecAST, j: nat, s: Seq<char>, fuel: nat)
    ensures
        resume(frames, ast, j, s, None, fuel) matches Search::Done(l) ==> forall|x: int|
            0 <= x < l.len() ==> resume_parse(frames, ast, j, s, #[trigger] l[x]),
    decreases fuel, 0nat,
{
    if fuel > 0 {
        let f = (fuel - 1) as nat;
        if frames.len() == 0 {
            if let Search::Done(l) = resume(frames, ast, j, s, None, fuel) {
                assert forall|x: int| 0 <= x < l.len() implies resume_parse(frames, ast, j, s, #[trigger] l[x]) by {
                    assert(frames_accept(frames, s, j, l[x].1, seq![]));
                }
            }
        } else {
            let rest = frames.drop_last();
            match frames.last() {
                SpecFrame::Concat { gs, next, env, acc } => {
                    let acc2 = acc.push(ast);
                    if next >= gs.len() {
                        lemma_resume_trees(rest, SpecAST::Sequence(acc2), j, s, f);
                        if let Search::Done(l) = resume(frames, ast, j, s, None, fuel) {
                            assert forall|x: int| 0 <= x < l.len() implies resume_parse(frames, ast, j, s, #[trigger] l[x]) by {
                                let e = l[x];
                                let ws = choose|ws: Seq<(Witness, nat)>|
                                    #[trigger] frames_accept(rest, s, j, e.1, ws) && e.0 == frames_tree(rest, SpecAST::Sequence(acc2), s, j, ws);
                                let r = ws.push((Witness::Nil, j));
                                assert(r.drop_last() =~= ws);
                                assert(acc2 + seq_trees(gs, next, env, s, j, Witness::Nil) =~= acc2);
                                assert(frames_accept(frames, s, j, e.1, r));
                                assert(frames_tree(frames, ast, s, j, r) == frames_tree(rest, SpecAST::Sequence(acc2), s, j, ws));
                            }
                        }
                    } else {
                        let fr = SpecFrame::Concat { gs, next: next + 1, env, acc: acc2 };
                        let frames1 = rest.push(fr);
                        let gn = grammar_at(gs, next as int);
                        lemma_solve_trees(gn, env, frames1, s, j, f);
                        assert(frames1.drop_last() =~= rest);
                        if let Search::Done(l) = resume(frames, ast, j, s, None, fuel) {
                            assert forall|x: int| 0 <= x < l.len() implies resume_parse(frames, ast, j, s, #[trigger] l[x]) by {
                                let e = l[x];
                                let (k1, a) = choose|k: nat, w: Witness|
                                    #[trigger] derives(gn, env, s, j, k, w) && resume_parse(frames1, tree_of(gn, env, s, j, w), k, s, e);
                                let ta = tree_of(gn, env, s, j, a);
                                let ws1 = choose|ws: Seq<(Witness, nat)>|
                                    #[trigger] frames_accept(frames1, s, k1, e.1, ws) && e.0 == frames_tree(frames1, ta, s, k1, ws);
                                let (b, k2) = ws1.last();
                                let w = Witness::Cons(Box::new(a), k1, Box::new(b));
                                assert(derives_seq(gs, next, env, s, j, k2, w));
                                let r = ws1.drop_last().push((w, k2));
                                assert(r.drop_last() =~= ws1.drop_last());
                                assert(acc2 + seq_trees(gs, next, env, s, j, w) =~= acc2.push(ta) + seq_trees(gs, next + 1, env, s, k1, b));
                                assert(frames_accept(frames, s, j, e.1, r));
                                assert(frames_tree(frames1, ta, s, k1, ws1) == frames_tree(
                                    rest,
                                    SpecAST::Sequence(acc2.push(ta) + seq_trees(gs, next + 1, env, s, k1, b)),
                                    s,
                                    k2,
                                    ws1.drop_last(),
                                ));
                                assert(frames_tree(frames, ast, s, j, r) == e.0);
                            }
                        }
                    }
                },
                SpecFrame::Repeat { g, start, end, count, env, acc } => {
                    lemma_rep_trees(g, start, end, count + 1, acc.push(ast), env, rest, s, j, f);
                    if let Search::Done(l) = resume(frames, ast, j, s, None, fuel) {
                        assert forall|x: int| 0 <= x < l.len() implies resume_parse(frames, ast, j, s, #[trigger] l[x]) by {
                            let e = l[x];
                            let (k2, w) = choose|k: nat, w: Witness|
                                #[trigger] derives_rep(g, start, end, count + 1, env, s, j, k, w) && resume_parse(
                                    rest,
                                    SpecAST::Sequence(acc.push(ast) + rep_trees(g, env, s, j, w)),
                                    k,
                                    s,
                                    e,
                                );
                            let ta = SpecAST::Sequence(acc.push(ast) + rep_trees(g, env, s, j, w));
                            let ws = choose|ws: Seq<(Witness, nat)>|
                                #[trigger] frames_accept(rest, s, k2, e.1, ws) && e.0 == frames_tree(rest, ta, s, k2, ws);
                            let r = ws.push((w, k2));
                            assert(r.drop_last() =~= ws);
                            assert(frames_accept(frames, s, j, e.1, r));
                            assert(frames_tree(frames, ast, s, j, r) == frames_tree(rest, ta, s, k2, ws));
                        }
                    }
                },
            }
        }
    }
}

proof fn lemma_rep_trees(
    g: Grammar,
    start: nat,
    end: nat,
    count: nat,
    acc: Seq<SpecAST>,
    env: Seq<Grammar>,
    frames: Seq<SpecFrame>,
    s: Seq<char>,
    i: nat,
    fuel: nat,
)
    ensures
        rep(g, start, end, count, acc, env, frames, s, i, None, fuel) matches Search::Done(l) ==> forall|x: int|
            0 <= x < l.len() ==> rep_parse(g, start, end, count, acc, env, frames, s, i, #[trigger] l[x]),
    decreases fuel, 1nat,
{
    if count < end {
        let stop = if start <= count {
            resume(frames, SpecAST::Sequence(acc), i, s, None, fuel)
        } else {
            Search::Done(seq![])
        };
        let fr = SpecFrame::Repeat { g, start, end, count, env, acc };
        let frames1 = frames.push(fr);
        let more = solve(g, env, frames1, s, i, None, fuel);
        assert(rep(g, start, end, count, acc, env, frames, s, i, None, fuel) == or_else(stop, more));
        lemma_or_else_found(stop, more);
        if start <= count {
            lemma_resume_trees(frames, SpecAST::Sequence(acc), i, s, fuel);
        }
        lemma_solve_trees(g, env, frames1, s, i, fuel);
        assert(frames1.drop_last() =~= frames);
        if let Search::Done(l) = or_else(stop, more) {
            let l1 = stop->Done_0;
            let l2 = more->Done_0;
            assert forall|x: int| 0 <= x < l.len() implies rep_parse(g, start, end, count, acc, env, frames, s, i, #[trigger] l[x]) by {
                let e = l[x];
                if x < l1.len() {
                    assert(e == l1[x]);
                    assert(acc + rep_trees(g, env, s, i, Witness::Nil) =~= acc);
                    assert(derives_rep(g, start, end, count, env, s, i, i, Witness::Nil));
                } else {
                    assert(e == l2[x - l1.len()]);
                    let (k1, a) = choose|k: nat, w: Witness|
                        #[trigger] derives(g, env, s, i, k, w) && resume_parse(frames1, tree_of(g, env, s, i, w), k, s, e);
                    let ta = tree_of(g, env, s, i, a);
                    let ws1 = choose|ws: Seq<(Witness, nat)>|
                        #[trigger] frames_accept(frames1, s, k1, e.1, ws) && e.0 == frames_tree(frames1, ta, s, k1, ws);
                    let (b, k2) = ws1.last();
                    let w = Witness::Cons(Box::new(a), k1, Box::new(b));
                    assert(derives_rep(g, start, end, count, env, s, i, k2, w));
                    assert(acc + rep_trees(g, env, s, i, w) =~= acc.push(ta) + rep_trees(g, env, s, k1, b));
                    assert(frames_accept(frames, s, k2, e.1, ws1.drop_last()));
                    assert(frames_tree(frames1, ta, s, k1, ws1) == frames_tree(
                        frames,
                        SpecAST::Sequence(acc.push(ta) + rep_trees(g, env, s, k1, b)),
                        s,
                        k2,
                        ws1.drop_last(),
                    ));
                    assert(resume_parse(frames, SpecAST::Sequence(acc + rep_trees(g, env, s, i, w)), k2, s, e));
                }
            }
        }
    }
}

proof fn lemma_alts_trees(gs: Seq<Rc<Grammar>>, kk: nat, env: Seq<Grammar>, frames: Seq<SpecFrame>, s: Seq<char>, i: nat, fuel: nat)
    ensures
        alts(gs, kk, env, frames, s, i, None, fuel) matches Search::Done(l) ==> forall|x: int|
            0 <= x < l.len() ==> exists|t: nat|
                kk <= t < gs.len() && solve_parse(grammar_at(gs, t as int), env, frames, s, i, #[trigger] l[x]),
    decreases fuel, gs.len() + 1 - kk,
{
    if kk < gs.len() {
        let first = solve(grammar_at(gs, kk as int), env, frames, s, i, None, fuel);
        let others = alts(gs, kk + 1, env, frames, s, i, None, fuel);
        lemma_solve_trees(grammar_at(gs, kk as int), env, frames, s, i, fuel);
        lemma_alts_trees(gs, kk + 1, env, frames, s, i, fuel);
        lemma_or_else_found(first, others);
        if let Search::Done(l) = or_else(first, others) {
            let l1 = first->Done_0;
            let l2 = others->Done_0;
            assert forall|x: int| 0 <= x < l.len() implies exists|t: nat|
                kk <= t < gs.len() && solve_parse(grammar_at(gs, t as int), env, frames, s, i, #[trigger] l[x]) by {
                if x < l1.len() {
                    assert(l[x] == l1[x]);
                    assert(solve_parse(grammar_at(gs, kk as int), env, frames, s, i, l[x]));
                } else {
                    assert(l[x] == l2[x - l1.len()]);
                }
            }
        }
    }
}

/// Every parse of a prefix of `s[i..]` is the syntax tree that a derivation of that
/// prefix builds (`tree_of`).
pub proof fn lemma_all_parses_are_derivation_trees(g: Grammar, s: Seq<char>, i: nat)
    ensures
        forall|x: int|
            0 <= x < all_parses(g, s, i).len() ==> exists|w: Witness|
                derives(g, seq![], s, i, (#[trigger] all_parses(g, s, i)[x]).1, w) && all_parses(g, s, i)[x].0 == tree_of(
                    g,
                    seq![],
                    s,
                    i,
                    w,
                ),
{
    let fuel = choose|fuel: nat| !(#[trigger] solve(g, seq![], seq![], s, i, None, fuel) is Stuck);
    lemma_solve_trees(g, seq![], seq![], s, i, fuel);
    let l = all_parses(g, s, i);
    assert forall|x: int| 0 <= x < l.len() implies exists|w: Witness|
        derives(g, seq![], s, i, (#[trigger] l[x]).1, w) && l[x].0 == tree_of(g, seq![], s, i, w) by {
        let e = l[x];
        let (k, w) = choose|k: nat, w: Witness|
            #[trigger] derives(g, seq![], s, i, k, w) && resume_parse(seq![], tree_of(g, seq![], s, i, w), k, s, e);
        let ws = choose|ws: Seq<(Witness, nat)>|
            #[trigger] frames_accept(seq![], s, k, e.1, ws) && e.0 == frames_tree(seq![], tree_of(g, seq![], s, i, w), s, k, ws);
        assert(k == e.1);
    }
}

} // verus!
