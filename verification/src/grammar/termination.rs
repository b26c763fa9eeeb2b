//! When the parser's search ends: on every grammar without left recursion, that is, whose
//! recursive grammars consume a character before they can recurse.

use super::grammar::{closed_at, Grammar};
use super::parser::{
    SpecFrame, Search, alts, grammar_at, in_ranges, lemma_alts_more_fuel, lemma_resume_more_fuel,
    lemma_solve_more_fuel, literal_step, or_else, rc_inner, rep, resume, solve, terminates, token_at,
};
use super::ast::SpecAST;
use std::rc::Rc;
use vstd::prelude::*;

verus! {

/// A grammar that holds no recursive grammar and no recursion point.
pub open spec fn recursion_free(g: Grammar) -> bool
    decreases g,
{
    match g {
        Grammar::Literal(_) => true,
        Grammar::Alternation(gs) => forall|k: int| 0 <= k < gs@.len() ==> recursion_free(*#[trigger] gs@[k]),
        Grammar::Concatenation(gs) => forall|k: int| 0 <= k < gs@.len() ==> recursion_free(*#[trigger] gs@[k]),
        Grammar::Repetition(inner, _) => recursion_free(*inner),
        Grammar::Recurse(_) => false,
        Grammar::Recursive(_) => false,
    }
}

proof fn lemma_or_else_ends(r1: Search, r2: Search)
    requires
        !(r1 is Stuck),
        !(r2 is Stuck),
    ensures
        !(or_else(r1, r2) is Stuck),
{
}

/// A grammar without recursion is closed at every depth: it holds no recursion point.
pub proof fn lemma_recursion_free_closed(g: Grammar, depth: nat)
    requires
        recursion_free(g),
    ensures
        closed_at(g, depth),
    decreases g,
{
    match g {
        Grammar::Alternation(gs) => {
            assert forall|k: int| 0 <= k < gs@.len() implies closed_at(*#[trigger] gs@[k], depth) by {
                lemma_recursion_free_closed(*gs@[k], depth);
            }
        },
        Grammar::Concatenation(gs) => {
            assert forall|k: int| 0 <= k < gs@.len() implies closed_at(*#[trigger] gs@[k], depth) by {
                lemma_recursion_free_closed(*gs@[k], depth);
            }
        },
        Grammar::Repetition(inner, _) => {
            lemma_recursion_free_closed(rc_inner(inner), depth);
        },
        _ => {},
    }
}

/// `g` may match without consuming a character; a recursion point is taken to be able to.
pub open spec fn may_be_empty(g: Grammar) -> bool
    decreases g,
{
    match g {
        Grammar::Literal(_) => false,
        Grammar::Alternation(gs) => exists|k: int| 0 <= k < gs@.len() && may_be_empty(*#[trigger] gs@[k]),
        Grammar::Concatenation(gs) => forall|k: int| 0 <= k < gs@.len() ==> may_be_empty(*#[trigger] gs@[k]),
        Grammar::Repetition(inner, range) => range.start == 0 || may_be_empty(*inner),
        Grammar::Recurse(_) => true,
        Grammar::Recursive(body) => may_be_empty(*body),
    }
}

/// A recursion point of `g` can be reached before `g` has consumed a character.
pub open spec fn recurses_first(g: Grammar) -> bool
    decreases g,
{
    match g {
        Grammar::Literal(_) => false,
        Grammar::Alternation(gs) => exists|k: int| 0 <= k < gs@.len() && recurses_first(*#[trigger] gs@[k]),
        Grammar::Concatenation(gs) => exists|k: int|
            0 <= k < gs@.len() && recurses_first(*#[trigger] gs@[k]) && forall|j: int| 0 <= j < k ==> may_be_empty(*#[trigger] gs@[j]),
        Grammar::Repetition(inner, _) => recurses_first(*inner),
        Grammar::Recurse(_) => true,
        Grammar::Recursive(body) => recurses_first(*body),
    }
}

/// Every recursive grammar in `g` consumes a character before it can reach a recursion
/// point: `g` has no left recursion.
pub open spec fn guarded(g: Grammar) -> bool
    decreases g,
{
    match g {
        Grammar::Literal(_) => true,
        Grammar::Alternation(gs) => forall|k: int| 0 <= k < gs@.len() ==> guarded(*#[trigger] gs@[k]),
        Grammar::Concatenation(gs) => forall|k: int| 0 <= k < gs@.len() ==> guarded(*#[trigger] gs@[k]),
        Grammar::Repetition(inner, _) => guarded(*inner),
        Grammar::Recurse(_) => true,
        Grammar::Recursive(body) => !recurses_first(*body) && guarded(*body),
    }
}

/// A bound on the search steps that `g` takes before it consumes a character. With `env`,
/// a recursion point counts the steps of the grammar it refers to; without, it counts none.
pub open spec fn early_steps(g: Grammar, env: Option<Seq<Grammar>>) -> nat
    decreases (if env is Some { 1nat } else { 0nat }), g, 1nat, 0nat,
{
    match g {
        Grammar::Literal(_) => 1,
        Grammar::Alternation(gs) => 1 + alt_steps(g, 0, env),
        Grammar::Concatenation(gs) => 1 + concat_steps(g, 0, env),
        Grammar::Repetition(inner, range) => 1 + range.end as nat * (early_steps(*inner, env) + 2),
        Grammar::Recurse(k) => match env {
            Some(e) => if k < e.len() {
                2 + early_steps(e[e.len() - 1 - k], None)
            } else {
                1
            },
            None => 0,
        },
        Grammar::Recursive(body) => 1 + early_steps(
            *body,
            match env {
                Some(e) => Some(e.push(*body)),
                None => None,
            },
        ),
    }
}

/// The early steps of the alternatives `k..` of an alternation, each with one more.
pub open spec fn alt_steps(g: Grammar, k: nat, env: Option<Seq<Grammar>>) -> nat
    decreases (if env is Some { 1nat } else { 0nat }), g, 0nat, (match g {
        Grammar::Alternation(gs) => gs@.len(),
        _ => 0,
    }) - k,
{
    match g {
        Grammar::Alternation(gs) => if k < gs@.len() {
            early_steps(*gs@[k as int], env) + 1 + alt_steps(g, k + 1, env)
        } else {
            0
        },
        _ => 0,
    }
}

/// The early steps of the parts `k..` of a concatenation, up to the first that cannot
/// match without consuming a character, plus one.
pub open spec fn concat_steps(g: Grammar, k: nat, env: Option<Seq<Grammar>>) -> nat
    decreases (if env is Some { 1nat } else { 0nat }), g, 0nat, (match g {
        Grammar::Concatenation(gs) => gs@.len(),
        _ => 0,
    }) - k,
{
    match g {
        Grammar::Concatenation(gs) => if k < gs@.len() {
            1 + early_steps(*gs@[k as int], env) + if may_be_empty(*gs@[k as int]) {
                concat_steps(g, k + 1, env)
            } else {
                0
            }
        } else {
            1
        },
        _ => 0,
    }
}

/// `alt_steps` over a sequence of alternatives.
pub open spec fn seq_alt_steps(gs: Seq<Rc<Grammar>>, k: nat, env: Seq<Grammar>) -> nat
    decreases gs.len() - k,
{
    if k < gs.len() {
        early_steps(grammar_at(gs, k as int), Some(env)) + 1 + seq_alt_steps(gs, k + 1, env)
    } else {
        0
    }
}

/// `concat_steps` over a sequence of parts.
pub open spec fn seq_concat_steps(gs: Seq<Rc<Grammar>>, k: nat, env: Seq<Grammar>) -> nat
    decreases gs.len() - k,
{
    if k < gs.len() {
        1 + early_steps(grammar_at(gs, k as int), Some(env)) + if may_be_empty(grammar_at(gs, k as int)) {
            seq_concat_steps(gs, k + 1, env)
        } else {
            0
        }
    } else {
        1
    }
}

/// Every grammar of `gs[k..]` may match without consuming a character.
pub open spec fn all_may_be_empty(gs: Seq<Rc<Grammar>>, k: nat) -> bool {
    forall|j: int| k <= j < gs.len() ==> may_be_empty(#[trigger] grammar_at(gs, j))
}

/// Some grammar of `gs[k..]` may match without consuming a character.
pub open spec fn some_may_be_empty(gs: Seq<Rc<Grammar>>, k: nat) -> bool {
    exists|j: int| k <= j < gs.len() && may_be_empty(#[trigger] grammar_at(gs, j))
}

/// A bound on the steps that the pending frames take before a character is consumed.
pub open spec fn frames_bound(frames: Seq<SpecFrame>) -> nat
    decreases frames.len(), 0nat,
{
    if frames.len() == 0 {
        0
    } else {
        let rest = frames.drop_last();
        match frames.last() {
            SpecFrame::Concat { gs, next, env, .. } => concat_frame_bound(gs, next, env, rest),
            SpecFrame::Repeat { g, start, end, count, env, .. } => 1 + rep_bound(g, start, end, count + 1, env, rest),
        }
    }
}

/// The bound of a pending concatenation whose parts `k..` are left, above `frames`.
pub open spec fn concat_frame_bound(gs: Seq<Rc<Grammar>>, k: nat, env: Seq<Grammar>, frames: Seq<SpecFrame>) -> nat
    decreases frames.len(), (if k < gs.len() { gs.len() + 1 - k } else { 1 }),
{
    if k < gs.len() {
        1 + early_steps(grammar_at(gs, k as int), Some(env)) + if may_be_empty(grammar_at(gs, k as int)) {
            concat_frame_bound(gs, k + 1, env, frames)
        } else {
            0
        }
    } else {
        1 + frames_bound(frames)
    }
}

/// The bound of a repetition of `g` that has matched `count` times, above `frames`.
pub open spec fn rep_bound(g: Grammar, start: nat, end: nat, count: nat, env: Seq<Grammar>, frames: Seq<SpecFrame>) -> nat
    decreases frames.len(), 1nat,
{
    if count >= end {
        0
    } else {
        (end - count) as nat * (early_steps(g, Some(env)) + 2) + if start <= count || may_be_empty(g) {
            frames_bound(frames)
        } else {
            0
        }
    }
}

/// The bound of the search through `g` followed by the pending frames.
pub open spec fn solve_bound(g: Grammar, env: Seq<Grammar>, frames: Seq<SpecFrame>) -> nat {
    early_steps(g, Some(env)) + if may_be_empty(g) {
        frames_bound(frames)
    } else {
        0
    }
}

/// The bound of the search through the alternatives `gs[k..]` followed by the pending frames.
pub open spec fn alts_bound(gs: Seq<Rc<Grammar>>, k: nat, env: Seq<Grammar>, frames: Seq<SpecFrame>) -> nat {
    seq_alt_steps(gs, k, env) + if some_may_be_empty(gs, k) {
        frames_bound(frames)
    } else {
        0
    }
}

proof fn lemma_alt_steps(gs: Vec<Rc<Grammar>>, k: nat, env: Seq<Grammar>)
    ensures
        alt_steps(Grammar::Alternation(gs), k, Some(env)) == seq_alt_steps(gs@, k, env),
    decreases gs@.len() - k,
{
    if k < gs@.len() {
        lemma_alt_steps(gs, k + 1, env);
    }
}

proof fn lemma_concat_steps(gs: Vec<Rc<Grammar>>, k: nat, env: Seq<Grammar>)
    ensures
        concat_steps(Grammar::Concatenation(gs), k, Some(env)) == seq_concat_steps(gs@, k, env),
    decreases gs@.len() - k,
{
    if k < gs@.len() {
        lemma_concat_steps(gs, k + 1, env);
    }
}

proof fn lemma_concat_frame_bound(gs: Seq<Rc<Grammar>>, k: nat, env: Seq<Grammar>, frames: Seq<SpecFrame>)
    ensures
        concat_frame_bound(gs, k, env, frames) == seq_concat_steps(gs, k, env) + if all_may_be_empty(gs, k) {
            frames_bound(frames)
        } else {
            0
        },
    decreases gs.len() - k,
{
    if k < gs.len() {
        lemma_concat_frame_bound(gs, k + 1, env, frames);
        assert(all_may_be_empty(gs, k) == (may_be_empty(grammar_at(gs, k as int)) && all_may_be_empty(gs, k + 1)));
    }
}

proof fn lemma_early_steps_env(g: Grammar, env: Seq<Grammar>)
    requires
        !recurses_first(g),
    ensures
        early_steps(g, Some(env)) == early_steps(g, None),
    decreases g, 1nat, 0nat,
{
    match g {
        Grammar::Alternation(gs) => {
            lemma_alt_steps_env(g, 0, env);
        },
        Grammar::Concatenation(gs) => {
            lemma_concat_steps_env(g, 0, env);
        },
        Grammar::Repetition(inner, _) => {
            lemma_early_steps_env(rc_inner(inner), env);
        },
        Grammar::Recursive(body) => {
            lemma_early_steps_env(rc_inner(body), env.push(rc_inner(body)));
        },
        _ => {},
    }
}

proof fn lemma_alt_steps_env(g: Grammar, k: nat, env: Seq<Grammar>)
    requires
        g is Alternation,
        !recurses_first(g),
    ensures
        alt_steps(g, k, Some(env)) == alt_steps(g, k, None),
    decreases g, 0nat, (match g {
        Grammar::Alternation(gs) => gs@.len(),
        _ => 0,
    }) - k,
{
    if let Grammar::Alternation(gs) = g {
        if k < gs@.len() {
            assert(!recurses_first(*gs@[k as int]));
            lemma_early_steps_env(grammar_at(gs@, k as int), env);
            lemma_alt_steps_env(g, k + 1, env);
        }
    }
}

proof fn lemma_concat_steps_env(g: Grammar, k: nat, env: Seq<Grammar>)
    requires
        g is Concatenation,
        !recurses_first(g),
        forall|j: int| 0 <= j < k ==> may_be_empty(*#[trigger] g->Concatenation_0@[j]),
    ensures
        concat_steps(g, k, Some(env)) == concat_steps(g, k, None),
    decreases g, 0nat, (match g {
        Grammar::Concatenation(gs) => gs@.len(),
        _ => 0,
    }) - k,
{
    if let Grammar::Concatenation(gs) = g {
        if k < gs@.len() {
            assert(!recurses_first(*gs@[k as int]));
            lemma_early_steps_env(grammar_at(gs@, k as int), env);
            if may_be_empty(grammar_at(gs@, k as int)) {
                lemma_concat_steps_env(g, k + 1, env);
            }
        }
    }
}

/// The grammars that recursion points refer to are without left recursion.
pub open spec fn env_guarded(env: Seq<Grammar>) -> bool {
    forall|k: int| 0 <= k < env.len() ==> guarded(#[trigger] env[k]) && !recurses_first(env[k])
}

/// The grammars of a pending frame are without left recursion.
pub open spec fn frame_guarded(f: SpecFrame) -> bool {
    match f {
        SpecFrame::Concat { gs, env, .. } => env_guarded(env) && forall|k: int| 0 <= k < gs.len() ==> guarded(#[trigger] grammar_at(gs, k)),
        SpecFrame::Repeat { g, env, .. } => env_guarded(env) && guarded(g),
    }
}

/// The grammars of all the pending frames are without left recursion.
pub open spec fn frames_guarded(frames: Seq<SpecFrame>) -> bool {
    forall|n: int| 0 <= n < frames.len() ==> frame_guarded(#[trigger] frames[n])
}

proof fn lemma_frames_guarded_push(frames: Seq<SpecFrame>, f: SpecFrame)
    requires
        frames_guarded(frames),
        frame_guarded(f),
    ensures
        frames_guarded(frames.push(f)),
        frames.push(f).drop_last() == frames,
        frames.push(f).last() == f,
{
    assert(frames.push(f).drop_last() =~= frames);
    assert forall|n: int| 0 <= n < frames.push(f).len() implies frame_guarded(#[trigger] frames.push(f)[n]) by {
        if n < frames.len() {
            assert(frames.push(f)[n] == frames[n]);
        }
    }
}

proof fn lemma_frames_guarded_pop(frames: Seq<SpecFrame>)
    requires
        frames_guarded(frames),
        frames.len() > 0,
    ensures
        frames_guarded(frames.drop_last()),
        frame_guarded(frames.last()),
{
    assert(frame_guarded(frames[frames.len() - 1]));
    assert forall|n: int| 0 <= n < frames.drop_last().len() implies frame_guarded(#[trigger] frames.drop_last()[n]) by {
        assert(frames.drop_last()[n] == frames[n]);
    }
}

proof fn lemma_solve_terminates(
    g: Grammar,
    env: Seq<Grammar>,
    frames: Seq<SpecFrame>,
    s: Seq<char>,
    i: nat,
    target: Option<nat>,
)
    requires
        guarded(g),
        env_guarded(env),
        frames_guarded(frames),
    ensures
        exists|fuel: nat| !(#[trigger] solve(g, env, frames, s, i, target, fuel) is Stuck),
    decreases (if i <= s.len() { s.len() - i } else { 0 }), solve_bound(g, env, frames),
{
    match g {
        Grammar::Literal(ranges) => {
            if i < s.len() && in_ranges(ranges@, s[i as int]) {
                lemma_resume_terminates(frames, token_at(s, i as int), i + 1, s, target);
                let f = choose|f: nat| !(#[trigger] resume(frames, token_at(s, i as int), i + 1, s, target, f) is Stuck);
                assert(solve(g, env, frames, s, i, target, f + 1) == literal_step(ranges@, frames, s, i, target, f));
                assert(!(solve(g, env, frames, s, i, target, f + 1) is Stuck));
            } else {
                assert(solve(g, env, frames, s, i, target, 1) == literal_step(ranges@, frames, s, i, target, 0));
                assert(!(solve(g, env, frames, s, i, target, 1) is Stuck));
            }
        },
        Grammar::Alternation(gs) => {
            lemma_alt_steps(gs, 0, env);
            if may_be_empty(g) {
                let k = choose|k: int| 0 <= k < gs@.len() && may_be_empty(*#[trigger] gs@[k]);
                assert(may_be_empty(grammar_at(gs@, k)));
            }
            if some_may_be_empty(gs@, 0) {
                let k = choose|k: int| 0 <= k < gs@.len() && may_be_empty(#[trigger] grammar_at(gs@, k));
                assert(may_be_empty(*gs@[k]));
            }
            assert(may_be_empty(g) == some_may_be_empty(gs@, 0));
            assert forall|k: int| 0 <= k < gs@.len() implies guarded(#[trigger] grammar_at(gs@, k)) by {
                assert(guarded(*gs@[k]));
            }
            lemma_alts_terminates(gs@, 0, env, frames, s, i, target);
            let f = choose|f: nat| !(#[trigger] alts(gs@, 0, env, frames, s, i, target, f) is Stuck);
            assert(!(solve(g, env, frames, s, i, target, f + 1) is Stuck));
        },
        Grammar::Concatenation(gs) => {
            if gs@.len() == 0 {
                assert(!(solve(g, env, frames, s, i, target, 1) is Stuck));
            } else {
                let fr = SpecFrame::Concat { gs: gs@, next: 1, env, acc: seq![] };
                assert forall|k: int| 0 <= k < gs@.len() implies guarded(#[trigger] grammar_at(gs@, k)) by {
                    assert(guarded(*gs@[k]));
                }
                lemma_frames_guarded_push(frames, fr);
                let frames1 = frames.push(fr);
                lemma_concat_steps(gs, 0, env);
                lemma_concat_frame_bound(gs@, 1, env, frames);
                if may_be_empty(g) {
                    assert forall|k: int| 0 <= k < gs@.len() implies may_be_empty(#[trigger] grammar_at(gs@, k)) by {
                        assert(may_be_empty(*gs@[k]));
                    }
                }
                if all_may_be_empty(gs@, 0) {
                    assert forall|k: int| 0 <= k < gs@.len() implies may_be_empty(*#[trigger] gs@[k]) by {
                        assert(may_be_empty(grammar_at(gs@, k)));
                    }
                }
                assert(may_be_empty(g) == all_may_be_empty(gs@, 0));
                assert(all_may_be_empty(gs@, 0) == (may_be_empty(grammar_at(gs@, 0)) && all_may_be_empty(gs@, 1)));
                assert(frames_bound(frames1) == concat_frame_bound(gs@, 1, env, frames));
                let g0 = grammar_at(gs@, 0);
                lemma_solve_terminates(g0, env, frames1, s, i, target);
                let f = choose|f: nat| !(#[trigger] solve(g0, env, frames1, s, i, target, f) is Stuck);
                assert(!(solve(g, env, frames, s, i, target, f + 1) is Stuck));
            }
        },
        Grammar::Repetition(inner, range) => {
            let gi = rc_inner(inner);
            lemma_rep_terminates(gi, range.start as nat, range.end as nat, 0, seq![], env, frames, s, i, target);
            let f = choose|f: nat|
                !(#[trigger] rep(gi, range.start as nat, range.end as nat, 0, seq![], env, frames, s, i, target, f) is Stuck);
            assert(!(solve(g, env, frames, s, i, target, f + 1) is Stuck));
        },
        Grammar::Recurse(k) => {
            if k < env.len() {
                let gt = env[env.len() - 1 - k];
                let et = env.take(env.len() - k);
                assert(guarded(env[env.len() - 1 - k]) && !recurses_first(env[env.len() - 1 - k]));
                assert(env_guarded(et)) by {
                    assert forall|j: int| 0 <= j < et.len() implies guarded(#[trigger] et[j]) && !recurses_first(et[j]) by {
                        assert(et[j] == env[j]);
                    }
                }
                assert(et[et.len() - 1] == gt);
                lemma_early_steps_env(gt, et);
                lemma_solve_terminates(gt, et, frames, s, i, target);
                let f = choose|f: nat| !(#[trigger] solve(gt, et, frames, s, i, target, f) is Stuck);
                assert(!(solve(g, env, frames, s, i, target, f + 1) is Stuck));
            } else {
                assert(!(solve(g, env, frames, s, i, target, 1) is Stuck));
            }
        },
        Grammar::Recursive(body) => {
            let gb = rc_inner(body);
            let eb = env.push(gb);
            assert(env_guarded(eb)) by {
                assert forall|j: int| 0 <= j < eb.len() implies guarded(#[trigger] eb[j]) && !recurses_first(eb[j]) by {
                    if j < env.len() {
                        assert(eb[j] == env[j]);
                    }
                }
            }
            lemma_solve_terminates(gb, eb, frames, s, i, target);
            let f = choose|f: nat| !(#[trigger] solve(gb, eb, frames, s, i, target, f) is Stuck);
            assert(!(solve(g, env, frames, s, i, target, f + 1) is Stuck));
        },
    }
}

proof fn lemma_resume_terminates(frames: Seq<SpecFrame>, ast: SpecAST, j: nat, s: Seq<char>, target: Option<nat>)
    requires
        frames_guarded(frames),
    ensures
        exists|fuel: nat| !(#[trigger] resume(frames, ast, j, s, target, fuel) is Stuck),
    decreases (if j <= s.len() { s.len() - j } else { 0 }), frames_bound(frames),
{
    if frames.len() == 0 {
        assert(!(resume(frames, ast, j, s, target, 1) is Stuck));
    } else {
        let rest = frames.drop_last();
        lemma_frames_guarded_pop(frames);
        match frames.last() {
            SpecFrame::Concat { gs, next, env, acc } => {
                let acc2 = acc.push(ast);
                if next >= gs.len() {
                    lemma_resume_terminates(rest, SpecAST::Sequence(acc2), j, s, target);
                    let f = choose|f: nat| !(#[trigger] resume(rest, SpecAST::Sequence(acc2), j, s, target, f) is Stuck);
                    assert(!(resume(frames, ast, j, s, target, f + 1) is Stuck));
                } else {
                    let fr = SpecFrame::Concat { gs, next: next + 1, env, acc: acc2 };
                    lemma_frames_guarded_push(rest, fr);
                    let frames1 = rest.push(fr);
                    let gn = grammar_at(gs, next as int);
                    assert(frames_bound(frames1) == concat_frame_bound(gs, next + 1, env, rest));
                    lemma_solve_terminates(gn, env, frames1, s, j, target);
                    let f = choose|f: nat| !(#[trigger] solve(gn, env, frames1, s, j, target, f) is Stuck);
                    assert(!(resume(frames, ast, j, s, target, f + 1) is Stuck));
                }
            },
            SpecFrame::Repeat { g, start, end, count, env, acc } => {
                lemma_rep_terminates(g, start, end, count + 1, acc.push(ast), env, rest, s, j, target);
                let f = choose|f: nat| !(#[trigger] rep(g, start, end, count + 1, acc.push(ast), env, rest, s, j, target, f) is Stuck);
                assert(!(resume(frames, ast, j, s, target, f + 1) is Stuck));
            },
        }
    }
}

proof fn lemma_rep_terminates(
    g: Grammar,
    start: nat,
    end: nat,
    count: nat,
    acc: Seq<SpecAST>,
    env: Seq<Grammar>,
    frames: Seq<SpecFrame>,
    s: Seq<char>,
    i: nat,
    target: Option<nat>,
)
    requires
        guarded(g),
        env_guarded(env),
        frames_guarded(frames),
    ensures
        exists|fuel: nat| !(#[trigger] rep(g, start, end, count, acc, env, frames, s, i, target, fuel) is Stuck),
    decreases (if i <= s.len() { s.len() - i } else { 0 }), rep_bound(g, start, end, count, env, frames),
{
    if count >= end {
        assert(!(rep(g, start, end, count, acc, env, frames, s, i, target, 0) is Stuck));
    } else {
        let fr = SpecFrame::Repeat { g, start, end, count, env, acc };
        lemma_frames_guarded_push(frames, fr);
        let frames1 = frames.push(fr);
        let e = early_steps(g, Some(env));
        let m = (end - count - 1) as nat;
        assert((m + 1) * (e + 2) == m * (e + 2) + e + 2) by (nonlinear_arith);
        assert(((end - count) as nat) == m + 1);
        assert(frames_bound(frames1) == 1 + rep_bound(g, start, end, count + 1, env, frames));
        assert(rep_bound(g, start, end, count + 1, env, frames) <= m * (e + 2) + frames_bound(frames));
        lemma_solve_terminates(g, env, frames1, s, i, target);
        let f2 = choose|f: nat| !(#[trigger] solve(g, env, frames1, s, i, target, f) is Stuck);
        let mut f1: nat = 0;
        if start <= count {
            lemma_resume_terminates(frames, SpecAST::Sequence(acc), i, s, target);
            f1 = choose|f: nat| !(#[trigger] resume(frames, SpecAST::Sequence(acc), i, s, target, f) is Stuck);
        }
        let fuel = if f1 <= f2 { f2 } else { f1 };
        lemma_solve_more_fuel(g, env, frames1, s, i, target, f2, fuel);
        if start <= count {
            lemma_resume_more_fuel(frames, SpecAST::Sequence(acc), i, s, target, f1, fuel);
        }
        let stop = if start <= count {
            resume(frames, SpecAST::Sequence(acc), i, s, target, fuel)
        } else {
            Search::Done(seq![])
        };
        assert(rep(g, start, end, count, acc, env, frames, s, i, target, fuel) == or_else(stop, solve(g, env, frames1, s, i, target, fuel)));
        lemma_or_else_ends(stop, solve(g, env, frames1, s, i, target, fuel));
    }
}

proof fn lemma_alts_terminates(
    gs: Seq<Rc<Grammar>>,
    k: nat,
    env: Seq<Grammar>,
    frames: Seq<SpecFrame>,
    s: Seq<char>,
    i: nat,
    target: Option<nat>,
)
    requires
        forall|j: int| 0 <= j < gs.len() ==> guarded(#[trigger] grammar_at(gs, j)),
        env_guarded(env),
        frames_guarded(frames),
    ensures
        exists|fuel: nat| !(#[trigger] alts(gs, k, env, frames, s, i, target, fuel) is Stuck),
    decreases (if i <= s.len() { s.len() - i } else { 0 }), alts_bound(gs, k, env, frames),
{
    if k >= gs.len() {
        assert(!(alts(gs, k, env, frames, s, i, target, 0) is Stuck));
    } else {
        let gk = grammar_at(gs, k as int);
        assert(some_may_be_empty(gs, k) == (may_be_empty(gk) || some_may_be_empty(gs, k + 1)));
        lemma_solve_terminates(gk, env, frames, s, i, target);
        lemma_alts_terminates(gs, k + 1, env, frames, s, i, target);
        let f1 = choose|f: nat| !(#[trigger] solve(gk, env, frames, s, i, target, f) is Stuck);
        let f2 = choose|f: nat| !(#[trigger] alts(gs, k + 1, env, frames, s, i, target, f) is Stuck);
        let fuel = if f1 <= f2 { f2 } else { f1 };
        lemma_solve_more_fuel(gk, env, frames, s, i, target, f1, fuel);
        lemma_alts_more_fuel(gs, k + 1, env, frames, s, i, target, f2, fuel);
        lemma_or_else_ends(solve(gk, env, frames, s, i, target, fuel), alts(gs, k + 1, env, frames, s, i, target, fuel));
        assert(!(alts(gs, k, env, frames, s, i, target, fuel) is Stuck));
    }
}

/// The search through a grammar without left recursion always ends, whatever the string,
/// the index it starts from and the index it must reach.
pub proof fn lemma_guarded_terminates(g: Grammar, s: Seq<char>, i: nat, target: Option<nat>)
    requires
        guarded(g),
    ensures
        terminates(g, s, i, target),
{
    assert(frames_guarded(seq![]));
    assert(env_guarded(seq![]));
    lemma_solve_terminates(g, seq![], seq![], s, i, target);
}

/// A grammar without recursion has no left recursion.
pub proof fn lemma_recursion_free_guarded(g: Grammar)
    requires
        recursion_free(g),
    ensures
        guarded(g),
    decreases g,
{
    match g {
        Grammar::Alternation(gs) => {
            assert forall|k: int| 0 <= k < gs@.len() implies guarded(*#[trigger] gs@[k]) by {
                lemma_recursion_free_guarded(*gs@[k]);
            }
        },
        Grammar::Concatenation(gs) => {
            assert forall|k: int| 0 <= k < gs@.len() implies guarded(*#[trigger] gs@[k]) by {
                lemma_recursion_free_guarded(*gs@[k]);
            }
        },
        Grammar::Repetition(inner, _) => {
            lemma_recursion_free_guarded(rc_inner(inner));
        },
        _ => {},
    }
}

/// The search through a grammar without recursion always ends, whatever the string, the
/// index it starts from and the index it must reach.
pub proof fn lemma_recursion_free_terminates(g: Grammar, s: Seq<char>, i: nat, target: Option<nat>)
    requires
        recursion_free(g),
    ensures
        terminates(g, s, i, target),
{
    lemma_recursion_free_guarded(g);
    lemma_guarded_terminates(g, s, i, target);
}

}
