use super::ast::{SpecAST, AST, ast_chars, asts_chars, asts_view};
use super::grammar::{closed_at, Grammar};
use crate::char::{len_utf8, lemma_utf8_offset_increases, utf8_len, utf8_offset};
use super::language::{
    Witness, derivable, derives, in_language, lemma_all_parses_are_derivation_trees, lemma_all_parses_exact,
    lemma_parse_iff_in_language, lemma_parse_is_derivation_tree, tree_of,
};
use std::rc::Rc;
use vstd::prelude::*;

verus! {

/// A pending step of the backtracking parser, as a mathematical value: the rest of a
/// concatenation, or the continuation of a repetition.
pub enum SpecFrame {
    Concat { gs: Seq<Rc<Grammar>>, next: nat, env: Seq<Grammar>, acc: Seq<SpecAST> },
    Repeat { g: Grammar, start: nat, end: nat, count: nat, env: Seq<Grammar>, acc: Seq<SpecAST> },
}

/// The outcome of a depth-first search through the parses of a string: the first syntax
/// tree that reaches the target index, or all the parses that were completed (in order,
/// each with the index where it ends) when no target is given; `Stuck` when the search
/// needs more steps than it was given.
pub enum Search {
    Found(SpecAST),
    Done(Seq<(SpecAST, nat)>),
    Stuck,
}

/// The `k`-th grammar of a sequence of shared grammars.
pub open spec fn grammar_at(gs: Seq<Rc<Grammar>>, k: int) -> Grammar {
    *gs[k]
}

/// The grammar a shared pointer points to.
pub open spec fn rc_inner(r: Rc<Grammar>) -> Grammar {
    *r
}

/// The grammars that recursion points refer to, innermost last.
pub open spec fn env_view<'a>(env: Seq<&'a Grammar>) -> Seq<Grammar> {
    Seq::new(env.len(), |i: int| *env[i])
}

/// A character belongs to one of the inclusive ranges `ranges[k..]`.
pub open spec fn in_ranges_from(ranges: Seq<(char, char)>, c: char, k: int) -> bool
    decreases ranges.len() - k,
{
    if k < 0 || k >= ranges.len() {
        false
    } else {
        (ranges[k].0 <= c && c <= ranges[k].1) || in_ranges_from(ranges, c, k + 1)
    }
}

/// A character belongs to one of the inclusive ranges.
pub open spec fn in_ranges(ranges: Seq<(char, char)>, c: char) -> bool {
    in_ranges_from(ranges, c, 0)
}

/// What the search does with a complete parse ending at `j`.
pub open spec fn leaf(ast: SpecAST, j: nat, target: Option<nat>) -> Search {
    match target {
        Some(n) => if j == n { Search::Found(ast) } else { Search::Done(seq![]) },
        None => Search::Done(seq![(ast, j)]),
    }
}

/// The search tries `r1` first and then, unless it stopped there, `r2`.
pub open spec fn or_else(r1: Search, r2: Search) -> Search {
    match r1 {
        Search::Done(l1) => match r2 {
            Search::Done(l2) => Search::Done(l1 + l2),
            other => other,
        },
        other => other,
    }
}

/// Parses `g` at index `i` of `s`, then continues with the pending `frames`.
pub open spec fn solve(
    g: Grammar,
    env: Seq<Grammar>,
    frames: Seq<SpecFrame>,
    s: Seq<char>,
    i: nat,
    target: Option<nat>,
    fuel: nat,
) -> Search
    decreases fuel, 0nat,
{
    if fuel == 0 {
        Search::Stuck
    } else {
        let f = (fuel - 1) as nat;
        match g {
            Grammar::Literal(ranges) => literal_step(ranges@, frames, s, i, target, f),
            Grammar::Alternation(gs) => alts(gs@, 0, env, frames, s, i, target, f),
            Grammar::Concatenation(gs) => if gs@.len() == 0 {
                Search::Done(seq![])
            } else {
                solve(
                    *gs@[0],
                    env,
                    frames.push(SpecFrame::Concat { gs: gs@, next: 1, env, acc: seq![] }),
                    s,
                    i,
                    target,
                    f,
                )
            },
            Grammar::Repetition(inner, range) => rep(
                *inner,
                range.start as nat,
                range.end as nat,
                0,
                seq![],
                env,
                frames,
                s,
                i,
                target,
                f,
            ),
            Grammar::Recurse(k) => if k < env.len() {
                solve(env[env.len() - 1 - k], env.take(env.len() - k), frames, s, i, target, f)
            } else {
                Search::Done(seq![])
            },
            Grammar::Recursive(body) => solve(*body, env.push(*body), frames, s, i, target, f),
        }
    }
}

/// The syntax tree of the single character at index `i` of `s`.
pub open spec fn token_at(s: Seq<char>, i: int) -> SpecAST {
    SpecAST::Token(s[i])
}

/// A literal matches the character at index `i` when it belongs to one of its ranges.
pub open spec fn literal_step(
    ranges: Seq<(char, char)>,
    frames: Seq<SpecFrame>,
    s: Seq<char>,
    i: nat,
    target: Option<nat>,
    fuel: nat,
) -> Search
    decreases fuel, 1nat,
{
    if i < s.len() && in_ranges(ranges, s[i as int]) {
        resume(frames, token_at(s, i as int), i + 1, s, target, fuel)
    } else {
        Search::Done(seq![])
    }
}

/// Hands a complete syntax tree, ending at `j`, to the innermost pending frame.
pub open spec fn resume(
    frames: Seq<SpecFrame>,
    ast: SpecAST,
    j: nat,
    s: Seq<char>,
    target: Option<nat>,
    fuel: nat,
) -> Search
    decreases fuel, 0nat,
{
    if fuel == 0 {
        Search::Stuck
    } else {
        let f = (fuel - 1) as nat;
        if frames.len() == 0 {
            leaf(ast, j, target)
        } else {
            let rest = frames.drop_last();
            match frames.last() {
                SpecFrame::Concat { gs, next, env, acc } => {
                    let acc2 = acc.push(ast);
                    if next >= gs.len() {
                        resume(rest, SpecAST::Sequence(acc2), j, s, target, f)
                    } else {
                        solve(
                            *gs[next as int],
                            env,
                            rest.push(SpecFrame::Concat { gs, next: next + 1, env, acc: acc2 }),
                            s,
                            j,
                            target,
                            f,
                        )
                    }
                },
                SpecFrame::Repeat { g, start, end, count, env, acc } => rep(
                    g,
                    start,
                    end,
                    count + 1,
                    acc.push(ast),
                    env,
                    rest,
                    s,
                    j,
                    target,
                    f,
                ),
            }
        }
    }
}

/// Tries the alternatives `gs[k..]` in order.
pub open spec fn alts(
    gs: Seq<Rc<Grammar>>,
    k: nat,
    env: Seq<Grammar>,
    frames: Seq<SpecFrame>,
    s: Seq<char>,
    i: nat,
    target: Option<nat>,
    fuel: nat,
) -> Search
    decreases fuel, gs.len() + 1 - k,
{
    if k >= gs.len() {
        Search::Done(seq![])
    } else {
        or_else(
            solve(*gs[k as int], env, frames, s, i, target, fuel),
            alts(gs, k + 1, env, frames, s, i, target, fuel),
        )
    }
}

/// A repetition that has matched `count` times, with the syntax trees `acc`: it first
/// stops there if `count` is enough, then tries to match once more.
pub open spec fn rep(
    g: Grammar,
    start: nat,
    end: nat,
    count: nat,
    acc: Seq<SpecAST>,
    env: Seq<Grammar>,
    frames: Seq<SpecFrame>,
    s: Seq<char>,
    i: nat,
    target: Option<nat>,
    fuel: nat,
) -> Search
    decreases fuel, 1nat,
{
    if count >= end {
        Search::Done(seq![])
    } else {
        let stop = if start <= count {
            resume(frames, SpecAST::Sequence(acc), i, s, target, fuel)
        } else {
            Search::Done(seq![])
        };
        or_else(
            stop,
            solve(
                g,
                env,
                frames.push(SpecFrame::Repeat { g, start, end, count, env, acc }),
                s,
                i,
                target,
                fuel,
            ),
        )
    }
}


/// A pending step of the backtracking parser.
pub enum Frame<'a> {
    Concat { gs: &'a Vec<Rc<Grammar>>, next: usize, env: Vec<&'a Grammar>, acc: Vec<AST> },
    Repeat {
        g: &'a Grammar,
        start: usize,
        end: usize,
        count: usize,
        env: Vec<&'a Grammar>,
        acc: Vec<AST>,
    },
}

impl<'a> Frame<'a> {
    /// The mathematical model of this frame.
    pub open spec fn model(&self) -> SpecFrame {
        match self {
            Frame::Concat { gs, next, env, acc } => SpecFrame::Concat {
                gs: gs@,
                next: *next as nat,
                env: env_view(env@),
                acc: asts_view(acc@),
            },
            Frame::Repeat { g, start, end, count, env, acc } => SpecFrame::Repeat {
                g: **g,
                start: *start as nat,
                end: *end as nat,
                count: *count as nat,
                env: env_view(env@),
                acc: asts_view(acc@),
            },
        }
    }
}

/// The models of the pending frames, innermost last.
pub open spec fn frames_view<'a>(frames: Seq<Frame<'a>>) -> Seq<SpecFrame> {
    Seq::new(frames.len(), |i: int| frames[i].model())
}

/// Every pending repetition can still match once more.
pub open spec fn frames_wf(frames: Seq<SpecFrame>) -> bool {
    forall|i: int|
        0 <= i < frames.len() ==> (#[trigger] frames[i] matches SpecFrame::Repeat { count, end, .. }
            ==> count < end)
}

/// The models of the complete parses, each with the index where it ends.
pub open spec fn leaves_view(out: Seq<(AST, usize)>) -> Seq<(SpecAST, nat)> {
    Seq::new(out.len(), |i: int| (out[i].0@, out[i].1 as nat))
}

/// The target index, as a mathematical value.
pub open spec fn target_view(target: Option<usize>) -> Option<nat> {
    match target {
        Some(n) => Some(n as nat),
        None => None,
    }
}

/// The executable search returned what the mathematical one describes; when it found
/// nothing, it appended the completed parses to `out` and left the frames as they were.
pub open spec fn search_done<'a>(
    r: Option<AST>,
    out0: Seq<(AST, usize)>,
    out1: Seq<(AST, usize)>,
    frames0: Seq<Frame<'a>>,
    frames1: Seq<Frame<'a>>,
    res: Search,
) -> bool {
    match res {
        Search::Found(a) => r matches Some(x) && x@ == a,
        Search::Done(l) => {
            &&& r is None
            &&& leaves_view(out1) == leaves_view(out0) + l
            &&& frames_view(frames1) == frames_view(frames0)
        },
        Search::Stuck => false,
    }
}

proof fn lemma_frames_push<'a>(before: Seq<Frame<'a>>, f: Frame<'a>)
    ensures
        frames_view(before.push(f)) == frames_view(before).push(f.model()),
{
    assert(frames_view(before.push(f)) =~= frames_view(before).push(f.model()));
}

proof fn lemma_frames_pop<'a>(before: Seq<Frame<'a>>)
    requires
        before.len() > 0,
    ensures
        frames_view(before.subrange(0, before.len() - 1)) == frames_view(before).drop_last(),
        before[before.len() - 1].model() == frames_view(before).last(),
{
    assert(frames_view(before.subrange(0, before.len() - 1)) =~= frames_view(before).drop_last());
}

proof fn lemma_asts_push(before: Seq<AST>, a: AST)
    ensures
        asts_view(before.push(a)) == asts_view(before).push(a@),
{
    assert(asts_view(before.push(a)) =~= asts_view(before).push(a@));
}

proof fn lemma_asts_pop(before: Seq<AST>)
    requires
        before.len() > 0,
    ensures
        asts_view(before.subrange(0, before.len() - 1)) == asts_view(before).drop_last(),
{
    assert(asts_view(before.subrange(0, before.len() - 1)) =~= asts_view(before).drop_last());
}

fn copy_env<'a>(env: &Vec<&'a Grammar>) -> (r: Vec<&'a Grammar>)
    ensures
        r@ == env@,
{
    let mut r: Vec<&'a Grammar> = Vec::new();
    let mut i: usize = 0;
    while i < env.len()
        invariant
            i <= env@.len(),
            r@ == env@.take(i as int),
        decreases env@.len() - i,
    {
        r.push(env[i]);
        assert(env@.take(i + 1) =~= env@.take(i as int).push(env@[i as int]));
        i = i + 1;
    }
    assert(env@.take(env@.len() as int) =~= env@);
    r
}

fn prefix_env<'a>(env: &Vec<&'a Grammar>, len: usize) -> (r: Vec<&'a Grammar>)
    requires
        len <= env@.len(),
    ensures
        r@ == env@.take(len as int),
{
    let mut r: Vec<&'a Grammar> = Vec::new();
    let mut i: usize = 0;
    while i < len
        invariant
            i <= len <= env@.len(),
            r@ == env@.take(i as int),
        decreases len - i,
    {
        r.push(env[i]);
        assert(env@.take(i + 1) =~= env@.take(i as int).push(env@[i as int]));
        i = i + 1;
    }
    r
}

fn copy_asts(v: &Vec<AST>) -> (r: Vec<AST>)
    ensures
        asts_view(r@) == asts_view(v@),
{
    let mut r: Vec<AST> = Vec::new();
    let mut i: usize = 0;
    while i < v.len()
        invariant
            i <= v@.len(),
            r@.len() == i,
            forall|k: int| 0 <= k < i ==> #[trigger] r@[k]@ == v@[k]@,
        decreases v@.len() - i,
    {
        let c = v[i].deep_copy();
        r.push(c);
        i = i + 1;
    }
    assert(asts_view(r@) =~= asts_view(v@));
    r
}

fn in_ranges_exec(ranges: &Vec<(char, char)>, c: char) -> (b: bool)
    ensures
        b == in_ranges(ranges@, c),
{
    let mut k: usize = 0;
    while k < ranges.len()
        invariant
            k <= ranges@.len(),
            in_ranges(ranges@, c) == in_ranges_from(ranges@, c, k as int),
        decreases ranges@.len() - k,
    {
        let (lo, hi) = ranges[k];
        if lo <= c && c <= hi {
            return true;
        }
        k = k + 1;
    }
    false
}


fn solve_exec<'a>(
    g: &'a Grammar,
    env: &Vec<&'a Grammar>,
    frames: &mut Vec<Frame<'a>>,
    s: &Vec<char>,
    i: usize,
    target: Option<usize>,
    out: &mut Vec<(AST, usize)>,
    Ghost(fuel): Ghost<nat>,
) -> (r: Option<AST>)
    requires
        i <= s@.len(),
        frames_wf(frames_view(old(frames)@)),
        !(solve(*g, env_view(env@), frames_view(old(frames)@), s@, i as nat, target_view(target), fuel) is Stuck),
    ensures
        search_done(
            r,
            old(out)@,
            final(out)@,
            old(frames)@,
            final(frames)@,
            solve(*g, env_view(env@), frames_view(old(frames)@), s@, i as nat, target_view(target), fuel),
        ),
    decreases fuel, 0nat,
{
    let ghost f = (fuel - 1) as nat;
    let ghost fr0 = frames_view(frames@);
    match g {
        Grammar::Literal(ranges) => {
            if i < s.len() && in_ranges_exec(ranges, s[i]) {
                let c = s[i];
                let t = AST::Token(c);
                proof { super::ast::lemma_token_model(c); }
                let j = i + 1;
                assert(literal_step(ranges@, fr0, s@, i as nat, target_view(target), f) == resume(fr0, SpecAST::Token(c), j as nat, s@, target_view(target), f));
                resume_exec(frames, t, j, s, target, out, Ghost(f))
            } else {
                assert(leaves_view(out@) =~= leaves_view(out@) + seq![]);
                None
            }
        },
        Grammar::Alternation(gs) => alts_exec(gs, 0, env, frames, s, i, target, out, Ghost(f)),
        Grammar::Concatenation(gs) => {
            if gs.len() == 0 {
                assert(leaves_view(out@) =~= leaves_view(out@) + seq![]);
                None
            } else {
                let empty: Vec<AST> = Vec::new();
                assert(asts_view(empty@) =~= Seq::<SpecAST>::empty());
                let fr = Frame::Concat { gs, next: 1, env: copy_env(env), acc: empty };
                let ghost pushed = fr0.push(SpecFrame::Concat { gs: gs@, next: 1, env: env_view(env@), acc: seq![] });
                proof { lemma_frames_push(frames@, fr); }
                frames.push(fr);
                assert(frames_view(frames@) =~= pushed);
                let r = solve_exec(&*gs[0], env, frames, s, i, target, out, Ghost(f));
                if r.is_some() {
                    return r;
                }
                proof { lemma_frames_pop(frames@); }
                let _ = frames.pop();
                assert(frames_view(frames@) =~= fr0);
                r
            }
        },
        Grammar::Repetition(inner, range) => {
            let mut acc: Vec<AST> = Vec::new();
            assert(asts_view(acc@) =~= Seq::<SpecAST>::empty());
            rep_exec(&*inner, range.start, range.end, 0, &mut acc, env, frames, s, i, target, out, Ghost(f))
        },
        Grammar::Recurse(k) => {
            if *k < env.len() {
                let n = env.len() - *k;
                let body: &'a Grammar = env[n - 1];
                let env2 = prefix_env(env, n);
                assert(env_view(env2@) =~= env_view(env@).take(env@.len() - *k));
                solve_exec(body, &env2, frames, s, i, target, out, Ghost(f))
            } else {
                assert(leaves_view(out@) =~= leaves_view(out@) + seq![]);
                None
            }
        },
        Grammar::Recursive(body) => {
            let b: &'a Grammar = &*body;
            let mut env2 = copy_env(env);
            env2.push(b);
            assert(env_view(env2@) =~= env_view(env@).push(*b));
            solve_exec(b, &env2, frames, s, i, target, out, Ghost(f))
        },
    }
}

fn resume_exec<'a>(
    frames: &mut Vec<Frame<'a>>,
    ast: AST,
    j: usize,
    s: &Vec<char>,
    target: Option<usize>,
    out: &mut Vec<(AST, usize)>,
    Ghost(fuel): Ghost<nat>,
) -> (r: Option<AST>)
    requires
        j <= s@.len(),
        frames_wf(frames_view(old(frames)@)),
        !(resume(frames_view(old(frames)@), ast@, j as nat, s@, target_view(target), fuel) is Stuck),
    ensures
        search_done(
            r,
            old(out)@,
            final(out)@,
            old(frames)@,
            final(frames)@,
            resume(frames_view(old(frames)@), ast@, j as nat, s@, target_view(target), fuel),
        ),
    decreases fuel, 0nat,
{
    let ghost f = (fuel - 1) as nat;
    let ghost fr0 = frames_view(frames@);
    let ghost a = ast@;
    if frames.len() == 0 {
        match target {
            Some(n) => {
                if j == n {
                    Some(ast)
                } else {
                    assert(leaves_view(out@) =~= leaves_view(out@) + seq![]);
                    None
                }
            },
            None => {
                let ghost out0 = leaves_view(out@);
                out.push((ast, j));
                assert(leaves_view(out@) =~= out0 + seq![(a, j as nat)]);
                None
            },
        }
    } else {
        proof { lemma_frames_pop(frames@); }
        let top = frames.pop().unwrap();
        let ghost rest = frames_view(frames@);
        assert(rest =~= fr0.drop_last());
        assert(top.model() == fr0.last());
        match top {
            Frame::Concat { gs, next, env, mut acc } => {
                let ghost acc0 = asts_view(acc@);
                proof { lemma_asts_push(acc@, ast); }
                acc.push(ast);
                assert(asts_view(acc@) =~= acc0.push(a));
                if next >= gs.len() {
                    let seq_ast = AST::Sequence(copy_asts(&acc));
                    proof { super::ast::lemma_sequence_model(seq_ast->Sequence_0); }
                    let r = resume_exec(frames, seq_ast, j, s, target, out, Ghost(f));
                    if r.is_some() {
                        return r;
                    }
                    proof { lemma_asts_pop(acc@); }
                    acc.pop();
                    assert(asts_view(acc@) =~= acc0);
                    let fr_new = Frame::Concat { gs, next, env, acc };
                    proof { lemma_frames_push(frames@, fr_new); }
                    frames.push(fr_new);
                    assert(frames_view(frames@) =~= fr0);
                    r
                } else {
                    let env2 = copy_env(&env);
                    let ghost pushed_model = SpecFrame::Concat { gs: gs@, next: next as nat + 1, env: env_view(env@), acc: acc0.push(a) };
                    let fr_new = Frame::Concat { gs, next: next + 1, env, acc };
                    proof { lemma_frames_push(frames@, fr_new); }
                    frames.push(fr_new);
                    assert(frames_view(frames@) =~= rest.push(pushed_model));
                    let r = solve_exec(&*gs[next], &env2, frames, s, j, target, out, Ghost(f));
                    if r.is_some() {
                        return r;
                    }
                    proof { lemma_frames_pop(frames@); }
                    let back = frames.pop().unwrap();
                    match back {
                        Frame::Concat { gs: gs_b, next: _, env: env_b, acc: mut acc_b } => {
                            proof { lemma_asts_pop(acc_b@); }
                            acc_b.pop();
                            assert(asts_view(acc_b@) =~= acc0);
                            let fr_new = Frame::Concat { gs: gs_b, next, env: env_b, acc: acc_b };
                            proof { lemma_frames_push(frames@, fr_new); }
                            frames.push(fr_new);
                            assert(frames_view(frames@) =~= fr0);
                        },
                        Frame::Repeat { .. } => {
                            assert(false);
                        },
                    }
                    r
                }
            },
            Frame::Repeat { g, start, end, count, env, mut acc } => {
                let ghost acc0 = asts_view(acc@);
                proof { lemma_asts_push(acc@, ast); }
                acc.push(ast);
                assert(asts_view(acc@) =~= acc0.push(a));
                let r = rep_exec(g, start, end, count + 1, &mut acc, &env, frames, s, j, target, out, Ghost(f));
                if r.is_some() {
                    return r;
                }
                proof { lemma_asts_pop(acc@); }
                acc.pop();
                assert(asts_view(acc@) =~= acc0);
                let fr_new = Frame::Repeat { g, start, end, count, env, acc };
                proof { lemma_frames_push(frames@, fr_new); }
                frames.push(fr_new);
                assert(frames_view(frames@) =~= fr0);
                r
            },
        }
    }
}

fn alts_exec<'a>(
    gs: &'a Vec<Rc<Grammar>>,
    k: usize,
    env: &Vec<&'a Grammar>,
    frames: &mut Vec<Frame<'a>>,
    s: &Vec<char>,
    i: usize,
    target: Option<usize>,
    out: &mut Vec<(AST, usize)>,
    Ghost(fuel): Ghost<nat>,
) -> (r: Option<AST>)
    requires
        i <= s@.len(),
        k <= gs@.len(),
        frames_wf(frames_view(old(frames)@)),
        !(alts(gs@, k as nat, env_view(env@), frames_view(old(frames)@), s@, i as nat, target_view(target), fuel) is Stuck),
    ensures
        search_done(
            r,
            old(out)@,
            final(out)@,
            old(frames)@,
            final(frames)@,
            alts(gs@, k as nat, env_view(env@), frames_view(old(frames)@), s@, i as nat, target_view(target), fuel),
        ),
    decreases fuel, gs@.len() + 1 - k,
{
    if k >= gs.len() {
        assert(leaves_view(out@) =~= leaves_view(out@) + seq![]);
        None
    } else {
        let ghost out0 = leaves_view(out@);
        let r = solve_exec(&*gs[k], env, frames, s, i, target, out, Ghost(fuel));
        if r.is_some() {
            return r;
        }
        let ghost out1 = leaves_view(out@);
        let r2 = alts_exec(gs, k + 1, env, frames, s, i, target, out, Ghost(fuel));
        proof {
            let r1s = solve(grammar_at(gs@, k as int), env_view(env@), frames_view(old(frames)@), s@, i as nat, target_view(target), fuel);
            if let Search::Done(l1) = r1s {
                let r2s = alts(gs@, k as nat + 1, env_view(env@), frames_view(old(frames)@), s@, i as nat, target_view(target), fuel);
                if let Search::Done(l2) = r2s {
                    assert(leaves_view(out@) =~= out0 + (l1 + l2));
                }
            }
        }
        r2
    }
}

fn rep_exec<'a>(
    g: &'a Grammar,
    start: usize,
    end: usize,
    count: usize,
    acc: &mut Vec<AST>,
    env: &Vec<&'a Grammar>,
    frames: &mut Vec<Frame<'a>>,
    s: &Vec<char>,
    i: usize,
    target: Option<usize>,
    out: &mut Vec<(AST, usize)>,
    Ghost(fuel): Ghost<nat>,
) -> (r: Option<AST>)
    requires
        i <= s@.len(),
        frames_wf(frames_view(old(frames)@)),
        !(rep(*g, start as nat, end as nat, count as nat, asts_view(old(acc)@), env_view(env@), frames_view(old(frames)@), s@, i as nat, target_view(target), fuel) is Stuck),
    ensures
        search_done(
            r,
            old(out)@,
            final(out)@,
            old(frames)@,
            final(frames)@,
            rep(*g, start as nat, end as nat, count as nat, asts_view(old(acc)@), env_view(env@), frames_view(old(frames)@), s@, i as nat, target_view(target), fuel),
        ),
        r is None ==> asts_view(final(acc)@) == asts_view(old(acc)@),
    decreases fuel, 1nat,
{
    let ghost fr0 = frames_view(frames@);
    let ghost acc0 = asts_view(acc@);
    let ghost out0 = leaves_view(out@);
    if count >= end {
        assert(leaves_view(out@) =~= leaves_view(out@) + seq![]);
        return None;
    }
    if start <= count {
        let stop = AST::Sequence(copy_asts(acc));
        proof { super::ast::lemma_sequence_model(stop->Sequence_0); }
        let r = resume_exec(frames, stop, i, s, target, out, Ghost(fuel));
        if r.is_some() {
            return r;
        }
    } else {
        assert(leaves_view(out@) =~= leaves_view(out@) + seq![]);
    }
    let ghost out1 = leaves_view(out@);
    let mut mine: Vec<AST> = Vec::new();
    std::mem::swap(acc, &mut mine);
    let ghost pushed_model = SpecFrame::Repeat { g: *g, start: start as nat, end: end as nat, count: count as nat, env: env_view(env@), acc: acc0 };
    let fr_new = Frame::Repeat { g, start, end, count, env: copy_env(env), acc: mine };
    proof { lemma_frames_push(frames@, fr_new); }
    frames.push(fr_new);
    assert(frames_view(frames@) =~= fr0.push(pushed_model));
    let r = solve_exec(g, env, frames, s, i, target, out, Ghost(fuel));
    if r.is_some() {
        return r;
    }
    proof { lemma_frames_pop(frames@); }
    let back = frames.pop().unwrap();
    match back {
        Frame::Repeat { acc: acc_b, .. } => {
            *acc = acc_b;
        },
        Frame::Concat { .. } => {
            assert(false);
        },
    }
    assert(frames_view(frames@) =~= fr0);
    proof {
        let stop_s = if start <= count {
            resume(fr0, SpecAST::Sequence(acc0), i as nat, s@, target_view(target), fuel)
        } else {
            Search::Done(seq![])
        };
        let more = solve(*g, env_view(env@), fr0.push(pushed_model), s@, i as nat, target_view(target), fuel);
        if let Search::Done(l1) = stop_s {
            if let Search::Done(l2) = more {
                assert(leaves_view(out@) =~= out0 + (l1 + l2));
            }
        }
    }
    r
}

} // verus!
verus! {

/// The characters of a string slice, in order.
fn chars_of(string: &str) -> (v: Vec<char>)
    ensures
        v@ == string@,
{
    let mut v: Vec<char> = Vec::new();
    for c in it: string.chars()
        invariant
            v@ == it.seq().take(it.index() as int),
    {
        v.push(c);
    }
    v
}


/// The syntax trees already gathered by a frame.
pub open spec fn frame_acc(f: SpecFrame) -> Seq<SpecAST> {
    match f {
        SpecFrame::Concat { acc, .. } => acc,
        SpecFrame::Repeat { acc, .. } => acc,
    }
}

/// The characters covered by the syntax trees gathered by the pending frames, outermost
/// first.
pub open spec fn frames_chars(frames: Seq<SpecFrame>) -> Seq<char>
    decreases frames.len(),
{
    if frames.len() == 0 {
        seq![]
    } else {
        frames_chars(frames.drop_last()) + asts_chars(frame_acc(frames.last()))
    }
}

/// Every syntax tree the search produced prints back as the part of `s` it was parsed
/// from (which starts at `base`), and a search without a target never stops early.
pub open spec fn sound(res: Search, s: Seq<char>, base: nat, target: Option<nat>) -> bool {
    match res {
        Search::Found(a) => target matches Some(n) && base <= n <= s.len() && ast_chars(a) == s.subrange(base as int, n as int),
        Search::Done(l) => {
            &&& target is Some ==> l.len() == 0
            &&& forall|k: int| 0 <= k < l.len() ==> base <= (#[trigger] l[k]).1 <= s.len()
                && ast_chars(l[k].0) == s.subrange(base as int, l[k].1 as int)
        },
        Search::Stuck => true,
    }
}

proof fn lemma_asts_chars_prefix(v: Seq<SpecAST>, a: SpecAST, n: int)
    requires
        0 <= n <= v.len(),
    ensures
        super::ast::asts_chars_upto(v.push(a), n) == super::ast::asts_chars_upto(v, n),
    decreases n,
{
    if n > 0 {
        lemma_asts_chars_prefix(v, a, n - 1);
        assert(v.push(a)[n - 1] == v[n - 1]);
    }
}

pub(crate) proof fn lemma_asts_chars_push(v: Seq<SpecAST>, a: SpecAST)
    ensures
        asts_chars(v.push(a)) == asts_chars(v) + ast_chars(a),
{
    lemma_asts_chars_prefix(v, a, v.len() as int);
    assert(v.push(a)[v.len() as int] == a);
}

proof fn lemma_frames_chars_push(frames: Seq<SpecFrame>, f: SpecFrame)
    ensures
        frames_chars(frames.push(f)) == frames_chars(frames) + asts_chars(frame_acc(f)),
{
    assert(frames.push(f).drop_last() =~= frames);
}

proof fn lemma_or_else_sound(r1: Search, r2: Search, s: Seq<char>, base: nat, target: Option<nat>)
    requires
        sound(r1, s, base, target),
        r1 is Done ==> sound(r2, s, base, target),
    ensures
        sound(or_else(r1, r2), s, base, target),
{
    if let Search::Done(l1) = r1 {
        if let Search::Done(l2) = r2 {
            let l = l1 + l2;
            assert forall|k: int| 0 <= k < l.len() implies base <= (#[trigger] l[k]).1 <= s.len()
                && ast_chars(l[k].0) == s.subrange(base as int, l[k].1 as int) by {
                if k < l1.len() {
                    assert(l[k] == l1[k]);
                } else {
                    assert(l[k] == l2[k - l1.len()]);
                }
            }
        }
    }
}

proof fn lemma_solve_sound(
    g: Grammar,
    env: Seq<Grammar>,
    frames: Seq<SpecFrame>,
    s: Seq<char>,
    base: nat,
    i: nat,
    target: Option<nat>,
    fuel: nat,
)
    requires
        base <= i <= s.len(),
        frames_chars(frames) == s.subrange(base as int, i as int),
    ensures
        sound(solve(g, env, frames, s, i, target, fuel), s, base, target),
    decreases fuel, 0nat,
{
    if fuel > 0 {
        let f = (fuel - 1) as nat;
        match g {
            Grammar::Literal(ranges) => {
                lemma_literal_sound(ranges@, frames, s, base, i, target, f);
            },
            Grammar::Alternation(gs) => {
                lemma_alts_sound(gs@, 0, env, frames, s, base, i, target, f);
            },
            Grammar::Concatenation(gs) => {
                if gs@.len() > 0 {
                    let fr = SpecFrame::Concat { gs: gs@, next: 1, env, acc: seq![] };
                    lemma_frames_chars_push(frames, fr);
                    assert(asts_chars(seq![]) == Seq::<char>::empty());
                    assert(frames_chars(frames.push(fr)) =~= frames_chars(frames));
                    lemma_solve_sound(grammar_at(gs@, 0), env, frames.push(fr), s, base, i, target, f);
                }
            },
            Grammar::Repetition(inner, range) => {
                assert(asts_chars(seq![]) == Seq::<char>::empty());
                assert(frames_chars(frames) + asts_chars(seq![]) =~= frames_chars(frames));
                lemma_rep_sound(rc_inner(inner), range.start as nat, range.end as nat, 0, seq![], env, frames, s, base, i, target, f);
            },
            Grammar::Recurse(k) => {
                if k < env.len() {
                    lemma_solve_sound(env[env.len() - 1 - k], env.take(env.len() - k), frames, s, base, i, target, f);
                }
            },
            Grammar::Recursive(body) => {
                lemma_solve_sound(rc_inner(body), env.push(rc_inner(body)), frames, s, base, i, target, f);
            },
        }
    }
}

proof fn lemma_literal_sound(
    ranges: Seq<(char, char)>,
    frames: Seq<SpecFrame>,
    s: Seq<char>,
    base: nat,
    i: nat,
    target: Option<nat>,
    fuel: nat,
)
    requires
        base <= i <= s.len(),
        frames_chars(frames) == s.subrange(base as int, i as int),
    ensures
        sound(literal_step(ranges, frames, s, i, target, fuel), s, base, target),
    decreases fuel, 1nat,
{
    if i < s.len() && in_ranges(ranges, s[i as int]) {
        assert(ast_chars(token_at(s, i as int)) == seq![s[i as int]]);
        assert(frames_chars(frames) + ast_chars(token_at(s, i as int)) =~= s.subrange(base as int, (i + 1) as int));
        lemma_resume_sound(frames, token_at(s, i as int), s, base, i + 1, target, fuel);
    }
}

proof fn lemma_resume_sound(
    frames: Seq<SpecFrame>,
    ast: SpecAST,
    s: Seq<char>,
    base: nat,
    j: nat,
    target: Option<nat>,
    fuel: nat,
)
    requires
        base <= j <= s.len(),
        frames_chars(frames) + ast_chars(ast) == s.subrange(base as int, j as int),
    ensures
        sound(resume(frames, ast, j, s, target, fuel), s, base, target),
    decreases fuel, 0nat,
{
    if fuel > 0 {
        let f = (fuel - 1) as nat;
        if frames.len() == 0 {
            assert(frames_chars(frames) + ast_chars(ast) =~= ast_chars(ast));
            if let Search::Done(l) = leaf(ast, j, target) {
                if target is None {
                    assert(l[0] == (ast, j));
                }
            }
        } else {
            let rest = frames.drop_last();
            assert(frames_chars(frames) == frames_chars(rest) + asts_chars(frame_acc(frames.last())));
            match frames.last() {
                SpecFrame::Concat { gs, next, env, acc } => {
                    let acc2 = acc.push(ast);
                    lemma_asts_chars_push(acc, ast);
                    assert(frames_chars(rest) + asts_chars(acc2) =~= frames_chars(frames) + ast_chars(ast));
                    if next >= gs.len() {
                        assert(ast_chars(SpecAST::Sequence(acc2)) == asts_chars(acc2));
                        lemma_resume_sound(rest, SpecAST::Sequence(acc2), s, base, j, target, f);
                    } else {
                        let fr = SpecFrame::Concat { gs, next: next + 1, env, acc: acc2 };
                        lemma_frames_chars_push(rest, fr);
                        lemma_solve_sound(grammar_at(gs, next as int), env, rest.push(fr), s, base, j, target, f);
                    }
                },
                SpecFrame::Repeat { g, start, end, count, env, acc } => {
                    lemma_asts_chars_push(acc, ast);
                    assert(frames_chars(rest) + asts_chars(acc.push(ast)) =~= frames_chars(frames) + ast_chars(ast));
                    lemma_rep_sound(g, start, end, count + 1, acc.push(ast), env, rest, s, base, j, target, f);
                },
            }
        }
    }
}

proof fn lemma_alts_sound(
    gs: Seq<Rc<Grammar>>,
    k: nat,
    env: Seq<Grammar>,
    frames: Seq<SpecFrame>,
    s: Seq<char>,
    base: nat,
    i: nat,
    target: Option<nat>,
    fuel: nat,
)
    requires
        base <= i <= s.len(),
        frames_chars(frames) == s.subrange(base as int, i as int),
    ensures
        sound(alts(gs, k, env, frames, s, i, target, fuel), s, base, target),
    decreases fuel, gs.len() + 1 - k,
{
    if k < gs.len() {
        lemma_solve_sound(grammar_at(gs, k as int), env, frames, s, base, i, target, fuel);
        lemma_alts_sound(gs, k + 1, env, frames, s, base, i, target, fuel);
        lemma_or_else_sound(
            solve(grammar_at(gs, k as int), env, frames, s, i, target, fuel),
            alts(gs, k + 1, env, frames, s, i, target, fuel),
            s,
            base,
            target,
        );
    }
}

proof fn lemma_rep_sound(
    g: Grammar,
    start: nat,
    end: nat,
    count: nat,
    acc: Seq<SpecAST>,
    env: Seq<Grammar>,
    frames: Seq<SpecFrame>,
    s: Seq<char>,
    base: nat,
    i: nat,
    target: Option<nat>,
    fuel: nat,
)
    requires
        base <= i <= s.len(),
        frames_chars(frames) + asts_chars(acc) == s.subrange(base as int, i as int),
    ensures
        sound(rep(g, start, end, count, acc, env, frames, s, i, target, fuel), s, base, target),
    decreases fuel, 1nat,
{
    if count < end {
        if start <= count {
            assert(ast_chars(SpecAST::Sequence(acc)) == asts_chars(acc));
            lemma_resume_sound(frames, SpecAST::Sequence(acc), s, base, i, target, fuel);
        }
        let fr = SpecFrame::Repeat { g, start, end, count, env, acc };
        lemma_frames_chars_push(frames, fr);
        lemma_solve_sound(g, env, frames.push(fr), s, base, i, target, fuel);
        let stop = if start <= count {
            resume(frames, SpecAST::Sequence(acc), i, s, target, fuel)
        } else {
            Search::Done(seq![])
        };
        lemma_or_else_sound(stop, solve(g, env, frames.push(fr), s, i, target, fuel), s, base, target);
    }
}

/// The search from index `i` of `s` ends within some number of steps (it does not for
/// grammars that can recurse without consuming a character).
pub open spec fn terminates(g: Grammar, s: Seq<char>, i: nat, target: Option<nat>) -> bool {
    exists|fuel: nat| !(#[trigger] solve(g, seq![], seq![], s, i, target, fuel) is Stuck)
}

/// The outcome of the search from index `i` of `s`, given enough steps.
pub open spec fn search_result(g: Grammar, s: Seq<char>, i: nat, target: Option<nat>) -> Search {
    solve(g, seq![], seq![], s, i, target, choose|fuel: nat| !(#[trigger] solve(g, seq![], seq![], s, i, target, fuel) is Stuck))
}

/// More steps do not change the outcome of a search that ended: it is the same with any
/// greater number of steps.
pub proof fn lemma_solve_more_fuel(
    g: Grammar,
    env: Seq<Grammar>,
    frames: Seq<SpecFrame>,
    s: Seq<char>,
    i: nat,
    target: Option<nat>,
    f1: nat,
    f2: nat,
)
    requires
        f1 <= f2,
        !(solve(g, env, frames, s, i, target, f1) is Stuck),
    ensures
        solve(g, env, frames, s, i, target, f2) == solve(g, env, frames, s, i, target, f1),
    decreases f1, 0nat,
{
    let e1 = (f1 - 1) as nat;
    let e2 = (f2 - 1) as nat;
    match g {
        Grammar::Literal(ranges) => {
            assert(solve(g, env, frames, s, i, target, f1) == literal_step(ranges@, frames, s, i, target, e1));
            assert(solve(g, env, frames, s, i, target, f2) == literal_step(ranges@, frames, s, i, target, e2));
            if i < s.len() && in_ranges(ranges@, s[i as int]) {
                lemma_resume_more_fuel(frames, token_at(s, i as int), i + 1, s, target, e1, e2);
            }
        },
        Grammar::Alternation(gs) => {
            lemma_alts_more_fuel(gs@, 0, env, frames, s, i, target, e1, e2);
        },
        Grammar::Concatenation(gs) => {
            if gs@.len() > 0 {
                lemma_solve_more_fuel(
                    grammar_at(gs@, 0),
                    env,
                    frames.push(SpecFrame::Concat { gs: gs@, next: 1, env, acc: seq![] }),
                    s,
                    i,
                    target,
                    e1,
                    e2,
                );
            }
        },
        Grammar::Repetition(inner, range) => {
            lemma_rep_more_fuel(rc_inner(inner), range.start as nat, range.end as nat, 0, seq![], env, frames, s, i, target, e1, e2);
        },
        Grammar::Recurse(k) => {
            if k < env.len() {
                lemma_solve_more_fuel(env[env.len() - 1 - k], env.take(env.len() - k), frames, s, i, target, e1, e2);
            }
        },
        Grammar::Recursive(body) => {
            lemma_solve_more_fuel(rc_inner(body), env.push(rc_inner(body)), frames, s, i, target, e1, e2);
        },
    }
}

pub(crate) proof fn lemma_resume_more_fuel(
    frames: Seq<SpecFrame>,
    ast: SpecAST,
    j: nat,
    s: Seq<char>,
    target: Option<nat>,
    f1: nat,
    f2: nat,
)
    requires
        f1 <= f2,
        !(resume(frames, ast, j, s, target, f1) is Stuck),
    ensures
        resume(frames, ast, j, s, target, f2) == resume(frames, ast, j, s, target, f1),
    decreases f1, 0nat,
{
    let e1 = (f1 - 1) as nat;
    let e2 = (f2 - 1) as nat;
    if frames.len() > 0 {
        let rest = frames.drop_last();
        match frames.last() {
            SpecFrame::Concat { gs, next, env, acc } => {
                let acc2 = acc.push(ast);
                if next >= gs.len() {
                    lemma_resume_more_fuel(rest, SpecAST::Sequence(acc2), j, s, target, e1, e2);
                } else {
                    lemma_solve_more_fuel(
                        grammar_at(gs, next as int),
                        env,
                        rest.push(SpecFrame::Concat { gs, next: next + 1, env, acc: acc2 }),
                        s,
                        j,
                        target,
                        e1,
                        e2,
                    );
                }
            },
            SpecFrame::Repeat { g, start, end, count, env, acc } => {
                lemma_rep_more_fuel(g, start, end, count + 1, acc.push(ast), env, rest, s, j, target, e1, e2);
            },
        }
    }
}

pub(crate) proof fn lemma_rep_more_fuel(
    g: Grammar,
    start: nat,
    end: nat,
    count: nat,
    acc: Seq<SpecAST>,
    env: Seq<Grammar>,
    frames: Seq<SpecFrame>,
    s: Seq<char>,
    i: nat,
    target: Option<nat>,
    f1: nat,
    f2: nat,
)
    requires
        f1 <= f2,
        !(rep(g, start, end, count, acc, env, frames, s, i, target, f1) is Stuck),
    ensures
        rep(g, start, end, count, acc, env, frames, s, i, target, f2) == rep(g, start, end, count, acc, env, frames, s, i, target, f1),
    decreases f1, 1nat,
{
    if count < end {
        let fr = SpecFrame::Repeat { g, start, end, count, env, acc };
        let stop1 = if start <= count {
            resume(frames, SpecAST::Sequence(acc), i, s, target, f1)
        } else {
            Search::Done(seq![])
        };
        let more1 = solve(g, env, frames.push(fr), s, i, target, f1);
        assert(rep(g, start, end, count, acc, env, frames, s, i, target, f1) == or_else(stop1, more1));
        if start <= count {
            lemma_resume_more_fuel(frames, SpecAST::Sequence(acc), i, s, target, f1, f2);
        }
        if stop1 is Done {
            lemma_solve_more_fuel(g, env, frames.push(fr), s, i, target, f1, f2);
        }
    }
}

pub(crate) proof fn lemma_alts_more_fuel(
    gs: Seq<Rc<Grammar>>,
    k: nat,
    env: Seq<Grammar>,
    frames: Seq<SpecFrame>,
    s: Seq<char>,
    i: nat,
    target: Option<nat>,
    f1: nat,
    f2: nat,
)
    requires
        f1 <= f2,
        !(alts(gs, k, env, frames, s, i, target, f1) is Stuck),
    ensures
        alts(gs, k, env, frames, s, i, target, f2) == alts(gs, k, env, frames, s, i, target, f1),
    decreases f1, gs.len() + 1 - k,
{
    if k < gs.len() {
        let first = solve(grammar_at(gs, k as int), env, frames, s, i, target, f1);
        lemma_solve_more_fuel(grammar_at(gs, k as int), env, frames, s, i, target, f1, f2);
        if first is Done {
            lemma_alts_more_fuel(gs, k + 1, env, frames, s, i, target, f1, f2);
        }
    }
}

/// The outcome of a search that ends is the same for every number of steps that lets it
/// end: `search_result` does not depend on the number it picks.
pub proof fn lemma_search_result_any_fuel(g: Grammar, s: Seq<char>, i: nat, target: Option<nat>, fuel: nat)
    requires
        !(solve(g, seq![], seq![], s, i, target, fuel) is Stuck),
    ensures
        search_result(g, s, i, target) == solve(g, seq![], seq![], s, i, target, fuel),
{
    let c = choose|fuel: nat| !(#[trigger] solve(g, seq![], seq![], s, i, target, fuel) is Stuck);
    if c <= fuel {
        lemma_solve_more_fuel(g, seq![], seq![], s, i, target, c, fuel);
    } else {
        lemma_solve_more_fuel(g, seq![], seq![], s, i, target, fuel, c);
    }
}

/// The first parse of the whole of `s`, in the order in which the parser tries them. When
/// the search ends, this does not depend on the number of steps it is given
/// (`lemma_search_result_any_fuel`).
pub open spec fn first_parse(g: Grammar, s: Seq<char>) -> Option<SpecAST> {
    match search_result(g, s, 0, Some(s.len())) {
        Search::Found(a) => Some(a),
        _ => None,
    }
}

/// All the parses of a prefix of `s[i..]`, in the order in which the parser finds them,
/// each with the index where it ends. When the search ends, this does not depend on the
/// number of steps it is given (`lemma_search_result_any_fuel`).
pub open spec fn all_parses(g: Grammar, s: Seq<char>, i: nat) -> Seq<(SpecAST, nat)> {
    match search_result(g, s, i, None) {
        Search::Done(l) => l,
        _ => seq![],
    }
}

/// Parses the whole of `string` with `grammar`: the first syntax tree, in the order in
/// which the parser tries them, whose characters are all of `string`. There is one exactly
/// when `string` belongs to the language of `grammar`, and it is the syntax tree of a
/// derivation of `string`. Every recursion point of the grammar must refer to an
/// enclosing recursive grammar, and the search must end (it does not for a grammar that
/// can recurse without consuming a character; it does for one without left recursion).
pub fn parse_from_grammar(string: &str, grammar: Rc<Grammar>) -> (r: Option<AST>)
    requires
        closed_at(*grammar, 0),
        terminates(*grammar, string@, 0, Some(string@.len())),
    ensures
        match r {
            Some(a) => first_parse(*grammar, string@) == Some(a@),
            None => first_parse(*grammar, string@) is None,
        },
        r is Some <==> in_language(*grammar, string@),
        r matches Some(a) ==> ast_chars(a@) == string@,
        r matches Some(a) ==> exists|w: Witness|
            #[trigger] derives(*grammar, seq![], string@, 0, string@.len(), w) && a@ == tree_of(*grammar, seq![], string@, 0, w),
{
    let chars = chars_of(string);
    let ghost fuel = choose|fuel: nat| !(#[trigger] solve(*grammar, seq![], seq![], string@, 0, Some(string@.len()), fuel) is Stuck);
    let mut frames: Vec<Frame> = Vec::new();
    let mut out: Vec<(AST, usize)> = Vec::new();
    let env: Vec<&Grammar> = Vec::new();
    assert(frames_view(frames@) =~= Seq::<SpecFrame>::empty());
    assert(env_view(env@) =~= Seq::<Grammar>::empty());
    let r = solve_exec(&*grammar, &env, &mut frames, &chars, 0, Some(chars.len()), &mut out, Ghost(fuel));
    proof {
        lemma_parse_iff_in_language(rc_inner(grammar), string@);
        lemma_parse_prints_back(rc_inner(grammar), string@);
        if r is Some {
            lemma_parse_is_derivation_tree(rc_inner(grammar), string@);
        }
    }
    r
}

/// All the parses of a prefix of the characters `chars[idx..]` of `string`, with the
/// index of the character where each ends.
fn char_parses(string: &str, chars: &Vec<char>, idx: usize, grammar: Rc<Grammar>) -> (r: Vec<(AST, usize)>)
    requires
        chars@ == string@,
        idx <= string@.len(),
        closed_at(*grammar, 0),
        terminates(*grammar, string@, idx as nat, None),
    ensures
        leaves_view(r@) == all_parses(*grammar, string@, idx as nat),
        forall|x: int| 0 <= x < r@.len() ==> derivable(*grammar, string@, idx as nat, #[trigger] r@[x].1 as nat),
        forall|j: nat|
            derivable(*grammar, string@, idx as nat, j) ==> exists|x: int| 0 <= x < r@.len() && #[trigger] r@[x].1 == j,
        forall|x: int|
            0 <= x < r@.len() ==> idx <= (#[trigger] r@[x]).1 <= string@.len() && ast_chars(r@[x].0@) == string@.subrange(
                idx as int,
                r@[x].1 as int,
            ) && exists|w: Witness|
                derives(*grammar, seq![], string@, idx as nat, r@[x].1 as nat, w) && r@[x].0@ == tree_of(
                    *grammar,
                    seq![],
                    string@,
                    idx as nat,
                    w,
                ),
{
    let ghost fuel = choose|fuel: nat| !(#[trigger] solve(*grammar, seq![], seq![], string@, idx as nat, None, fuel) is Stuck);
    let mut frames: Vec<Frame> = Vec::new();
    let mut out: Vec<(AST, usize)> = Vec::new();
    let env: Vec<&Grammar> = Vec::new();
    assert(frames_view(frames@) =~= Seq::<SpecFrame>::empty());
    assert(env_view(env@) =~= Seq::<Grammar>::empty());
    assert(leaves_view(out@) =~= Seq::<(SpecAST, nat)>::empty());
    let _ = solve_exec(&*grammar, &env, &mut frames, chars, idx, None, &mut out, Ghost(fuel));
    proof {
        assert(frames_chars(seq![]) =~= string@.subrange(idx as int, idx as int));
        lemma_solve_sound(rc_inner(grammar), seq![], seq![], string@, idx as nat, idx as nat, None, fuel);
    }
    assert(leaves_view(out@) =~= all_parses(*grammar, string@, idx as nat));
    proof {
        lemma_all_parses_exact(rc_inner(grammar), string@, idx as nat);
        assert forall|x: int| 0 <= x < out@.len() implies derivable(*grammar, string@, idx as nat, #[trigger] out@[x].1 as nat) by {
            assert(leaves_view(out@)[x].1 == out@[x].1);
        }
        assert forall|j: nat| derivable(*grammar, string@, idx as nat, j) implies exists|x: int|
            0 <= x < out@.len() && #[trigger] out@[x].1 == j by {
            let x = choose|x: int| 0 <= x < all_parses(*grammar, string@, idx as nat).len()
                && (#[trigger] all_parses(*grammar, string@, idx as nat)[x]).1 == j;
            assert(leaves_view(out@)[x].1 == out@[x].1);
        }
        lemma_parses_print_back(rc_inner(grammar), string@, idx as nat);
        lemma_all_parses_are_derivation_trees(rc_inner(grammar), string@, idx as nat);
        assert forall|x: int| 0 <= x < out@.len() implies idx <= (#[trigger] out@[x]).1 <= string@.len() && ast_chars(out@[x].0@)
            == string@.subrange(idx as int, out@[x].1 as int) && exists|w: Witness|
            derives(*grammar, seq![], string@, idx as nat, out@[x].1 as nat, w) && out@[x].0@ == tree_of(
                *grammar,
                seq![],
                string@,
                idx as nat,
                w,
            ) by {
            assert(leaves_view(out@)[x] == (out@[x].0@, out@[x].1 as nat));
            assert(all_parses(*grammar, string@, idx as nat)[x] == leaves_view(out@)[x]);
        }
    }
    out
}


/// `idx` is the byte offset of a character of `s`, or of its end.
pub open spec fn on_char_boundary(s: Seq<char>, idx: int) -> bool {
    exists|n: nat| n <= s.len() && #[trigger] utf8_offset(s, n as int) == idx
}

/// The index of the character of `s` that starts at the byte offset `idx`.
pub open spec fn char_index_at(s: Seq<char>, idx: int) -> nat {
    choose|n: nat| n <= s.len() && #[trigger] utf8_offset(s, n as int) == idx
}

/// All the parses of a prefix of `s` from the byte offset `idx`, in the order in which the
/// parser finds them, each with the byte offset where it ends.
pub open spec fn byte_parses(g: Grammar, s: Seq<char>, idx: int) -> Seq<(SpecAST, nat)> {
    let l = all_parses(g, s, char_index_at(s, idx));
    Seq::new(l.len(), |x: int| (l[x].0, utf8_offset(s, l[x].1 as int) as nat))
}

/// `a` is a parse of `s` from the character at index `start` that ends at the byte offset
/// `end`: a derivation of the grammar from `start` ends there, `a` is the syntax tree of
/// that derivation, and it prints back as the characters it spans.
pub open spec fn parse_ends_at(g: Grammar, s: Seq<char>, start: nat, a: SpecAST, end: int) -> bool {
    exists|j: nat|
        #[trigger] derivable(g, s, start, j) && end == utf8_offset(s, j as int) && start <= j <= s.len() && ast_chars(a)
            == s.subrange(start as int, j as int) && exists|w: Witness|
            derives(g, seq![], s, start, j, w) && a == tree_of(g, seq![], s, start, w)
}

/// All the parses of a prefix of `string[idx..]`, in the order in which the parser finds
/// them, each with the byte offset where it ends; `idx` is a byte offset too, and must fall
/// on a character boundary. Each parse ends exactly where a derivation of the grammar from
/// `idx` ends, is the syntax tree of that derivation and prints back as the characters it
/// was parsed from. Every recursion point of the grammar must refer to an enclosing
/// recursive grammar, and the search must end.
pub fn grammar_parser(string: &str, idx: usize, grammar: Rc<Grammar>) -> (r: Vec<(AST, usize)>)
    requires
        utf8_offset(string@, string@.len() as int) <= usize::MAX,
        on_char_boundary(string@, idx as int),
        closed_at(*grammar, 0),
        terminates(*grammar, string@, char_index_at(string@, idx as int), None),
    ensures
        leaves_view(r@) == byte_parses(*grammar, string@, idx as int),
        forall|x: int|
            0 <= x < r@.len() ==> parse_ends_at(
                *grammar,
                string@,
                char_index_at(string@, idx as int),
                (#[trigger] r@[x]).0@,
                r@[x].1 as int,
            ),
        forall|j: nat|
            derivable(*grammar, string@, char_index_at(string@, idx as int), j) ==> exists|x: int|
                0 <= x < r@.len() && #[trigger] r@[x].1 == utf8_offset(string@, j as int),
{
    let ghost s = string@;
    let ghost g = rc_inner(grammar);
    let chars = chars_of(string);
    let mut offsets: Vec<usize> = Vec::new();
    offsets.push(0);
    let mut k: usize = 0;
    while k < chars.len()
        invariant
            chars@ == s,
            k <= s.len(),
            offsets@.len() == k + 1,
            forall|m: int| 0 <= m <= k ==> offsets@[m] == utf8_offset(s, m),
            utf8_offset(s, s.len() as int) <= usize::MAX,
        decreases s.len() - k,
    {
        proof {
            if k + 1 < s.len() {
                lemma_utf8_offset_increases(s, k + 1, s.len() as int);
            }
            assert(utf8_offset(s, k + 1) == utf8_offset(s, k as int) + utf8_len(s[k as int] as u32 as int));
        }
        let ghost before = offsets@;
        let next = offsets[k] + len_utf8(chars[k]);
        offsets.push(next);
        assert(forall|m: int| 0 <= m <= k ==> offsets@[m] == before[m]);
        k = k + 1;
    }
    let ghost n = char_index_at(s, idx as int);
    let mut start: usize = 0;
    while offsets[start] < idx
        invariant
            start <= n <= s.len(),
            utf8_offset(s, n as int) == idx,
            offsets@.len() == s.len() + 1,
            forall|m: int| 0 <= m <= s.len() ==> offsets@[m] == utf8_offset(s, m),
        decreases s.len() - start,
    {
        proof {
            if n == start {
                assert(false);
            }
        }
        start = start + 1;
    }
    proof {
        if start < n {
            lemma_utf8_offset_increases(s, start as int, n as int);
        }
    }
    assert(start == n);
    let out = char_parses(string, &chars, start, grammar);
    let mut r: Vec<(AST, usize)> = Vec::new();
    let mut x: usize = 0;
    while x < out.len()
        invariant
            x <= out@.len(),
            r@.len() == x,
            offsets@.len() == s.len() + 1,
            forall|m: int| 0 <= m <= s.len() ==> offsets@[m] == utf8_offset(s, m),
            forall|y: int| 0 <= y < out@.len() ==> (#[trigger] out@[y]).1 <= s.len(),
            forall|y: int|
                0 <= y < x ==> (#[trigger] r@[y]).0@ == out@[y].0@ && r@[y].1 == offsets@[out@[y].1 as int],
        decreases out@.len() - x,
    {
        let a = out[x].0.deep_copy();
        let e = out[x].1;
        r.push((a, offsets[e]));
        x = x + 1;
    }
    proof {
        let l = all_parses(g, s, n);
        assert(leaves_view(r@) =~= byte_parses(g, s, idx as int)) by {
            assert forall|y: int| 0 <= y < r@.len() implies leaves_view(r@)[y] == byte_parses(g, s, idx as int)[y] by {
                assert(leaves_view(out@)[y] == l[y]);
            }
        }
        assert(g == *grammar && s == string@ && n == char_index_at(string@, idx as int));
        assert forall|y: int| 0 <= y < r@.len() implies parse_ends_at(g, s, n, (#[trigger] r@[y]).0@, r@[y].1 as int) by {
            let j = out@[y].1 as nat;
            assert(r@[y].0@ == out@[y].0@);
            assert(r@[y].1 == offsets@[j as int]);
            let w = choose|w: Witness| derives(g, seq![], s, n, j, w) && out@[y].0@ == tree_of(g, seq![], s, n, w);
            assert(derives(g, seq![], s, n, j, w) && r@[y].0@ == tree_of(g, seq![], s, n, w));
            assert(derivable(g, s, n, j));
            assert(ast_chars(r@[y].0@) == s.subrange(n as int, j as int));
        }
        assert forall|j: nat| derivable(g, s, n, j) implies exists|y: int|
            0 <= y < r@.len() && #[trigger] r@[y].1 == utf8_offset(s, j as int) by {
            let y = choose|y: int| 0 <= y < out@.len() && #[trigger] out@[y].1 == j;
            assert(r@[y].1 == utf8_offset(s, j as int));
        }
    }
    r
}


/// A syntax tree parsed from a whole string prints back as that string.
pub proof fn lemma_parse_prints_back(g: Grammar, s: Seq<char>)
    ensures
        first_parse(g, s) matches Some(a) ==> ast_chars(a) == s,
{
    let fuel = choose|fuel: nat| !(#[trigger] solve(g, seq![], seq![], s, 0, Some(s.len()), fuel) is Stuck);
    assert(frames_chars(seq![]) =~= s.subrange(0, 0));
    lemma_solve_sound(g, seq![], seq![], s, 0, 0, Some(s.len()), fuel);
    assert(s.subrange(0, s.len() as int) =~= s);
}

/// Every parse of a prefix of `s[i..]` prints back as the characters it was parsed from.
pub proof fn lemma_parses_print_back(g: Grammar, s: Seq<char>, i: nat)
    requires
        i <= s.len(),
    ensures
        forall|k: int|
            0 <= k < all_parses(g, s, i).len() ==> i <= (#[trigger] all_parses(g, s, i)[k]).1 <= s.len()
                && ast_chars(all_parses(g, s, i)[k].0) == s.subrange(i as int, all_parses(g, s, i)[k].1 as int),
{
    let fuel = choose|fuel: nat| !(#[trigger] solve(g, seq![], seq![], s, i, None, fuel) is Stuck);
    assert(frames_chars(seq![]) =~= s.subrange(i as int, i as int));
    lemma_solve_sound(g, seq![], seq![], s, i, i, None, fuel);
}

} // verus!
