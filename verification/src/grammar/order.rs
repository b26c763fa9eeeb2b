//! The order in which the parser lists the parses of concatenations and repetitions.

use super::ast::SpecAST;
use super::grammar::Grammar;
use super::language::{lemma_alts_not_found, lemma_rep_not_found, lemma_resume_not_found, lemma_solve_not_found};
use super::parser::{
    SpecFrame, Search, all_parses, alts, lemma_search_result_any_fuel, terminates, grammar_at, in_ranges, lemma_alts_more_fuel, lemma_resume_more_fuel, lemma_solve_more_fuel,
    literal_step, or_else, rc_inner, rep, resume, solve, token_at,
};
use std::ops::Range;
use std::rc::Rc;
use vstd::prelude::*;

verus! {

/// The outcome of handing each parse of `l`, in order, to the pending frames.
pub open spec fn resume_all(frames: Seq<SpecFrame>, l: Seq<(SpecAST, nat)>, s: Seq<char>, fuel: nat) -> Search
    decreases l.len(),
{
    if l.len() == 0 {
        Search::Done(seq![])
    } else {
        or_else(resume(frames, l[0].0, l[0].1, s, None, fuel), resume_all(frames, l.drop_first(), s, fuel))
    }
}

proof fn lemma_or_else_assoc(a: Search, b: Search, c: Search)
    ensures
        or_else(or_else(a, b), c) == or_else(a, or_else(b, c)),
{
    if let Search::Done(la) = a {
        if let Search::Done(lb) = b {
            if let Search::Done(lc) = c {
                assert(la + lb + lc =~= la + (lb + lc));
            }
        }
    }
}

proof fn lemma_resume_all_concat(frames: Seq<SpecFrame>, l1: Seq<(SpecAST, nat)>, l2: Seq<(SpecAST, nat)>, s: Seq<char>, fuel: nat)
    ensures
        or_else(resume_all(frames, l1, s, fuel), resume_all(frames, l2, s, fuel)) == resume_all(frames, l1 + l2, s, fuel),
    decreases l1.len(),
{
    if l1.len() == 0 {
        assert(l1 + l2 =~= l2);
        if let Search::Done(l) = resume_all(frames, l2, s, fuel) {
            assert(seq![] + l =~= l);
        }
    } else {
        lemma_resume_all_concat(frames, l1.drop_first(), l2, s, fuel);
        assert((l1 + l2).drop_first() =~= l1.drop_first() + l2);
        assert((l1 + l2)[0] == l1[0]);
        lemma_or_else_assoc(
            resume(frames, l1[0].0, l1[0].1, s, None, fuel),
            resume_all(frames, l1.drop_first(), s, fuel),
            resume_all(frames, l2, s, fuel),
        );
    }
}

proof fn lemma_resume_all_more_fuel(frames: Seq<SpecFrame>, l: Seq<(SpecAST, nat)>, s: Seq<char>, f1: nat, f2: nat)
    requires
        f1 <= f2,
        !(resume_all(frames, l, s, f1) is Stuck),
    ensures
        resume_all(frames, l, s, f2) == resume_all(frames, l, s, f1),
    decreases l.len(),
{
    if l.len() > 0 {
        let r1 = resume(frames, l[0].0, l[0].1, s, None, f1);
        lemma_resume_more_fuel(frames, l[0].0, l[0].1, s, None, f1, f2);
        if r1 is Done {
            lemma_resume_all_more_fuel(frames, l.drop_first(), s, f1, f2);
        }
    }
}

proof fn lemma_resume_all_single(frames: Seq<SpecFrame>, a: SpecAST, j: nat, s: Seq<char>, fuel: nat)
    ensures
        resume_all(frames, seq![(a, j)], s, fuel) == resume(frames, a, j, s, None, fuel),
{
    lemma_resume_not_found(frames, a, j, s, fuel);
    assert(seq![(a, j)].drop_first() =~= Seq::<(SpecAST, nat)>::empty());
    assert(resume_all(frames, seq![(a, j)].drop_first(), s, fuel) == Search::Done(Seq::<(SpecAST, nat)>::empty()));
    assert(seq![(a, j)][0] == (a, j));
    if let Search::Done(l) = resume(frames, a, j, s, None, fuel) {
        assert(l + seq![] =~= l);
    }
}


proof fn lemma_solve_splits(
    g: Grammar,
    env: Seq<Grammar>,
    outer: Seq<SpecFrame>,
    inner: Seq<SpecFrame>,
    s: Seq<char>,
    i: nat,
    fuel: nat,
)
    requires
        !(solve(g, env, outer + inner, s, i, None, fuel) is Stuck),
    ensures
        solve(g, env, inner, s, i, None, fuel) is Done,
        solve(g, env, outer + inner, s, i, None, fuel) == resume_all(
            outer,
            solve(g, env, inner, s, i, None, fuel)->Done_0,
            s,
            fuel,
        ),
    decreases fuel, 0nat,
{
    let f = (fuel - 1) as nat;
    let h = outer + inner;
    match g {
        Grammar::Literal(ranges) => {
            assert(solve(g, env, h, s, i, None, fuel) == literal_step(ranges@, h, s, i, None, f));
            assert(solve(g, env, inner, s, i, None, fuel) == literal_step(ranges@, inner, s, i, None, f));
            if i < s.len() && in_ranges(ranges@, s[i as int]) {
                lemma_resume_splits(outer, inner, token_at(s, i as int), i + 1, s, f);
                let l = resume(inner, token_at(s, i as int), i + 1, s, None, f)->Done_0;
                lemma_resume_all_more_fuel(outer, l, s, f, fuel);
            }
        },
        Grammar::Alternation(gs) => {
            lemma_alts_splits(gs@, 0, env, outer, inner, s, i, f);
            let l = alts(gs@, 0, env, inner, s, i, None, f)->Done_0;
            lemma_resume_all_more_fuel(outer, l, s, f, fuel);
        },
        Grammar::Concatenation(gs) => {
            if gs@.len() > 0 {
                let fr = SpecFrame::Concat { gs: gs@, next: 1, env, acc: seq![] };
                assert(h.push(fr) =~= outer + inner.push(fr));
                lemma_solve_splits(grammar_at(gs@, 0), env, outer, inner.push(fr), s, i, f);
                let l = solve(grammar_at(gs@, 0), env, inner.push(fr), s, i, None, f)->Done_0;
                lemma_resume_all_more_fuel(outer, l, s, f, fuel);
            }
        },
        Grammar::Repetition(r, range) => {
            lemma_rep_splits(rc_inner(r), range.start as nat, range.end as nat, 0, seq![], env, outer, inner, s, i, f);
            let l = rep(rc_inner(r), range.start as nat, range.end as nat, 0, seq![], env, inner, s, i, None, f)->Done_0;
            lemma_resume_all_more_fuel(outer, l, s, f, fuel);
        },
        Grammar::Recurse(k) => {
            if k < env.len() {
                let gt = env[env.len() - 1 - k];
                let et = env.take(env.len() - k);
                lemma_solve_splits(gt, et, outer, inner, s, i, f);
                let l = solve(gt, et, inner, s, i, None, f)->Done_0;
                lemma_resume_all_more_fuel(outer, l, s, f, fuel);
            }
        },
        Grammar::Recursive(body) => {
            let gb = rc_inner(body);
            lemma_solve_splits(gb, env.push(gb), outer, inner, s, i, f);
            let l = solve(gb, env.push(gb), inner, s, i, None, f)->Done_0;
            lemma_resume_all_more_fuel(outer, l, s, f, fuel);
        },
    }
}

proof fn lemma_resume_splits(outer: Seq<SpecFrame>, inner: Seq<SpecFrame>, ast: SpecAST, j: nat, s: Seq<char>, fuel: nat)
    requires
        !(resume(outer + inner, ast, j, s, None, fuel) is Stuck),
    ensures
        resume(inner, ast, j, s, None, fuel) is Done,
        resume(outer + inner, ast, j, s, None, fuel) == resume_all(outer, resume(inner, ast, j, s, None, fuel)->Done_0, s, fuel),
    decreases fuel, 0nat,
{
    let f = (fuel - 1) as nat;
    let h = outer + inner;
    if inner.len() == 0 {
        assert(h =~= outer);
        lemma_resume_all_single(outer, ast, j, s, fuel);
    } else {
        let rest = inner.drop_last();
        assert(h.drop_last() =~= outer + rest);
        assert(h.last() == inner.last());
        match inner.last() {
            SpecFrame::Concat { gs, next, env, acc } => {
                let acc2 = acc.push(ast);
                if next >= gs.len() {
                    lemma_resume_splits(outer, rest, SpecAST::Sequence(acc2), j, s, f);
                    let l = resume(rest, SpecAST::Sequence(acc2), j, s, None, f)->Done_0;
                    lemma_resume_all_more_fuel(outer, l, s, f, fuel);
                } else {
                    let fr = SpecFrame::Concat { gs, next: next + 1, env, acc: acc2 };
                    assert((outer + rest).push(fr) =~= outer + rest.push(fr));
                    lemma_solve_splits(grammar_at(gs, next as int), env, outer, rest.push(fr), s, j, f);
                    let l = solve(grammar_at(gs, next as int), env, rest.push(fr), s, j, None, f)->Done_0;
                    lemma_resume_all_more_fuel(outer, l, s, f, fuel);
                }
            },
            SpecFrame::Repeat { g, start, end, count, env, acc } => {
                lemma_rep_splits(g, start, end, count + 1, acc.push(ast), env, outer, rest, s, j, f);
                let l = rep(g, start, end, count + 1, acc.push(ast), env, rest, s, j, None, f)->Done_0;
                lemma_resume_all_more_fuel(outer, l, s, f, fuel);
            },
        }
    }
}

proof fn lemma_rep_splits(
    g: Grammar,
    start: nat,
    end: nat,
    count: nat,
    acc: Seq<SpecAST>,
    env: Seq<Grammar>,
    outer: Seq<SpecFrame>,
    inner: Seq<SpecFrame>,
    s: Seq<char>,
    i: nat,
    fuel: nat,
)
    requires
        !(rep(g, start, end, count, acc, env, outer + inner, s, i, None, fuel) is Stuck),
    ensures
        rep(g, start, end, count, acc, env, inner, s, i, None, fuel) is Done,
        rep(g, start, end, count, acc, env, outer + inner, s, i, None, fuel) == resume_all(
            outer,
            rep(g, start, end, count, acc, env, inner, s, i, None, fuel)->Done_0,
            s,
            fuel,
        ),
    decreases fuel, 1nat,
{
    if count < end {
        let h = outer + inner;
        let fr = SpecFrame::Repeat { g, start, end, count, env, acc };
        assert(h.push(fr) =~= outer + inner.push(fr));
        let stop_h = if start <= count {
            resume(h, SpecAST::Sequence(acc), i, s, None, fuel)
        } else {
            Search::Done(seq![])
        };
        let stop_i = if start <= count {
            resume(inner, SpecAST::Sequence(acc), i, s, None, fuel)
        } else {
            Search::Done(seq![])
        };
        let more_h = solve(g, env, h.push(fr), s, i, None, fuel);
        let more_i = solve(g, env, inner.push(fr), s, i, None, fuel);
        assert(rep(g, start, end, count, acc, env, h, s, i, None, fuel) == or_else(stop_h, more_h));
        assert(rep(g, start, end, count, acc, env, inner, s, i, None, fuel) == or_else(stop_i, more_i));
        if start <= count {
            lemma_resume_not_found(h, SpecAST::Sequence(acc), i, s, fuel);
            lemma_resume_splits(outer, inner, SpecAST::Sequence(acc), i, s, fuel);
        }
        let l1 = stop_i->Done_0;
        assert(stop_h == resume_all(outer, l1, s, fuel));
        lemma_solve_splits(g, env, outer, inner.push(fr), s, i, fuel);
        let l2 = more_i->Done_0;
        lemma_resume_all_concat(outer, l1, l2, s, fuel);
    }
}

proof fn lemma_alts_splits(
    gs: Seq<Rc<Grammar>>,
    k: nat,
    env: Seq<Grammar>,
    outer: Seq<SpecFrame>,
    inner: Seq<SpecFrame>,
    s: Seq<char>,
    i: nat,
    fuel: nat,
)
    requires
        !(alts(gs, k, env, outer + inner, s, i, None, fuel) is Stuck),
    ensures
        alts(gs, k, env, inner, s, i, None, fuel) is Done,
        alts(gs, k, env, outer + inner, s, i, None, fuel) == resume_all(
            outer,
            alts(gs, k, env, inner, s, i, None, fuel)->Done_0,
            s,
            fuel,
        ),
    decreases fuel, gs.len() + 1 - k,
{
    if k < gs.len() {
        let h = outer + inner;
        let gk = grammar_at(gs, k as int);
        lemma_solve_not_found(gk, env, h, s, i, fuel);
        lemma_solve_splits(gk, env, outer, inner, s, i, fuel);
        lemma_alts_splits(gs, k + 1, env, outer, inner, s, i, fuel);
        let l1 = solve(gk, env, inner, s, i, None, fuel)->Done_0;
        let l2 = alts(gs, k + 1, env, inner, s, i, None, fuel)->Done_0;
        lemma_resume_all_concat(outer, l1, l2, s, fuel);
    }
}


/// The parses of the parts `gs[k..]` of a concatenation, one after the other from index
/// `j`, after the syntax trees `acc` of the parts before them: for each parse of `gs[k]`
/// from `j`, in order, the parses of the later parts from where it ends. Each comes as the
/// sequence of the trees of all the parts, with the index where the last one ends.
pub open spec fn concat_parses(gs: Seq<Rc<Grammar>>, k: nat, acc: Seq<SpecAST>, s: Seq<char>, j: nat) -> Seq<(SpecAST, nat)>
    decreases gs.len() - k, 1nat, 0nat,
{
    if k >= gs.len() {
        seq![(SpecAST::Sequence(acc), j)]
    } else {
        concat_parses_from(gs, k, acc, s, all_parses(grammar_at(gs, k as int), s, j), 0)
    }
}

/// The parses of `gs[k + 1..]` after each of the parses `l[x..]` of `gs[k]`, in order.
pub open spec fn concat_parses_from(
    gs: Seq<Rc<Grammar>>,
    k: nat,
    acc: Seq<SpecAST>,
    s: Seq<char>,
    l: Seq<(SpecAST, nat)>,
    x: nat,
) -> Seq<(SpecAST, nat)>
    decreases gs.len() - k, 0nat, l.len() - x,
{
    if k >= gs.len() || x >= l.len() {
        seq![]
    } else {
        concat_parses(gs, k + 1, acc.push(l[x as int].0), s, l[x as int].1) + concat_parses_from(gs, k, acc, s, l, x + 1)
    }
}

/// The parses of a repetition of `g` that has matched `count` times, with the syntax trees
/// `acc`, from index `j`: first stopping there, when `count` is at least `start`; then, for
/// each parse of `g` from `j`, in order, the parses of the rest of the repetition from
/// where it ends; nothing once `count` reaches `end`.
pub open spec fn rep_parses(g: Grammar, start: nat, end: nat, count: nat, acc: Seq<SpecAST>, s: Seq<char>, j: nat) -> Seq<(SpecAST, nat)>
    decreases end - count, 1nat, 0nat,
{
    if count >= end {
        seq![]
    } else {
        (if start <= count {
            seq![(SpecAST::Sequence(acc), j)]
        } else {
            seq![]
        }) + rep_parses_from(g, start, end, count, acc, s, all_parses(g, s, j), 0)
    }
}

/// The parses of the rest of a repetition after each of the parses `l[x..]` of `g`, in order.
pub open spec fn rep_parses_from(
    g: Grammar,
    start: nat,
    end: nat,
    count: nat,
    acc: Seq<SpecAST>,
    s: Seq<char>,
    l: Seq<(SpecAST, nat)>,
    x: nat,
) -> Seq<(SpecAST, nat)>
    decreases end - count, 0nat, l.len() - x,
{
    if count >= end || x >= l.len() {
        seq![]
    } else {
        rep_parses(g, start, end, count + 1, acc.push(l[x as int].0), s, l[x as int].1) + rep_parses_from(
            g,
            start,
            end,
            count,
            acc,
            s,
            l,
            x + 1,
        )
    }
}

/// The parses that the search finds from `j` are those that `all_parses` names.
proof fn lemma_solve_all_parses(g: Grammar, s: Seq<char>, j: nat, fuel: nat)
    requires
        !(solve(g, seq![], seq![], s, j, None, fuel) is Stuck),
    ensures
        solve(g, seq![], seq![], s, j, None, fuel) == Search::Done(all_parses(g, s, j)),
{
    lemma_search_result_any_fuel(g, s, j, None, fuel);
    lemma_solve_not_found(g, seq![], seq![], s, j, fuel);
}

proof fn lemma_concat_frame_parses(gs: Seq<Rc<Grammar>>, k: nat, acc: Seq<SpecAST>, s: Seq<char>, a: SpecAST, j: nat, fuel: nat)
    requires
        !(resume(seq![SpecFrame::Concat { gs, next: k, env: seq![], acc }], a, j, s, None, fuel) is Stuck),
    ensures
        resume(seq![SpecFrame::Concat { gs, next: k, env: seq![], acc }], a, j, s, None, fuel) == Search::Done(
            concat_parses(gs, k, acc.push(a), s, j),
        ),
    decreases gs.len() - k, 1nat, 0nat,
{
    let frames = seq![SpecFrame::Concat { gs, next: k, env: seq![], acc }];
    let f = (fuel - 1) as nat;
    let acc2 = acc.push(a);
    assert(frames.drop_last() =~= Seq::<SpecFrame>::empty());
    assert(frames.last() == SpecFrame::Concat { gs, next: k, env: seq![], acc });
    if k < gs.len() {
        let gk = grammar_at(gs, k as int);
        let fr = SpecFrame::Concat { gs, next: k + 1, env: seq![], acc: acc2 };
        let frames2 = seq![fr];
        assert(Seq::<SpecFrame>::empty().push(fr) =~= frames2);
        assert(frames2 + Seq::<SpecFrame>::empty() =~= frames2);
        lemma_solve_splits(gk, seq![], frames2, seq![], s, j, f);
        lemma_solve_all_parses(gk, s, j, f);
        let l = all_parses(gk, s, j);
        assert(l.subrange(0, l.len() as int) =~= l);
        lemma_concat_list_parses(gs, k, acc2, s, l, 0, f);
        assert(resume(frames, a, j, s, None, fuel) == solve(gk, seq![], Seq::<SpecFrame>::empty().push(fr), s, j, None, f));
        assert(resume_all(frames2, l, s, f) == Search::Done(concat_parses(gs, k, acc2, s, j)));
    } else {
        assert(resume(frames, a, j, s, None, fuel) == resume(Seq::<SpecFrame>::empty(), SpecAST::Sequence(acc2), j, s, None, f));
        assert(f > 0);
    }
}

proof fn lemma_concat_list_parses(
    gs: Seq<Rc<Grammar>>,
    k: nat,
    acc: Seq<SpecAST>,
    s: Seq<char>,
    l: Seq<(SpecAST, nat)>,
    x: nat,
    fuel: nat,
)
    requires
        k < gs.len(),
        x <= l.len(),
        !(resume_all(seq![SpecFrame::Concat { gs, next: k + 1, env: seq![], acc }], l.subrange(x as int, l.len() as int), s, fuel) is Stuck),
    ensures
        resume_all(seq![SpecFrame::Concat { gs, next: k + 1, env: seq![], acc }], l.subrange(x as int, l.len() as int), s, fuel)
            == Search::Done(concat_parses_from(gs, k, acc, s, l, x)),
    decreases gs.len() - k, 0nat, l.len() - x,
{
    let frames = seq![SpecFrame::Concat { gs, next: k + 1, env: seq![], acc }];
    let sub = l.subrange(x as int, l.len() as int);
    if x < l.len() {
        assert(sub[0] == l[x as int]);
        assert(sub.drop_first() =~= l.subrange((x + 1) as int, l.len() as int));
        let first = resume(frames, l[x as int].0, l[x as int].1, s, None, fuel);
        lemma_resume_not_found(frames, l[x as int].0, l[x as int].1, s, fuel);
        lemma_concat_frame_parses(gs, k + 1, acc, s, l[x as int].0, l[x as int].1, fuel);
        lemma_concat_list_parses(gs, k, acc, s, l, x + 1, fuel);
    } else {
        assert(sub.len() == 0);
    }
}

proof fn lemma_rep_list_parses(
    g: Grammar,
    start: nat,
    end: nat,
    count: nat,
    acc: Seq<SpecAST>,
    s: Seq<char>,
    l: Seq<(SpecAST, nat)>,
    x: nat,
    fuel: nat,
)
    requires
        count < end,
        x <= l.len(),
        !(resume_all(
            seq![SpecFrame::Repeat { g, start, end, count, env: seq![], acc }],
            l.subrange(x as int, l.len() as int),
            s,
            fuel,
        ) is Stuck),
    ensures
        resume_all(seq![SpecFrame::Repeat { g, start, end, count, env: seq![], acc }], l.subrange(x as int, l.len() as int), s, fuel)
            == Search::Done(rep_parses_from(g, start, end, count, acc, s, l, x)),
    decreases end - count, 0nat, l.len() - x,
{
    let frames = seq![SpecFrame::Repeat { g, start, end, count, env: seq![], acc }];
    let sub = l.subrange(x as int, l.len() as int);
    if x < l.len() {
        assert(sub[0] == l[x as int]);
        assert(sub.drop_first() =~= l.subrange((x + 1) as int, l.len() as int));
        let (a, j) = l[x as int];
        lemma_resume_not_found(frames, a, j, s, fuel);
        assert(frames.drop_last() =~= Seq::<SpecFrame>::empty());
        assert(frames.last() == SpecFrame::Repeat { g, start, end, count, env: seq![], acc });
        assert(resume(frames, a, j, s, None, fuel) == rep(
            g,
            start,
            end,
            count + 1,
            acc.push(a),
            seq![],
            seq![],
            s,
            j,
            None,
            (fuel - 1) as nat,
        ));
        lemma_rep_parses(g, start, end, count + 1, acc.push(a), s, j, (fuel - 1) as nat);
        lemma_rep_list_parses(g, start, end, count, acc, s, l, x + 1, fuel);
    } else {
        assert(sub.len() == 0);
    }
}

proof fn lemma_rep_parses(g: Grammar, start: nat, end: nat, count: nat, acc: Seq<SpecAST>, s: Seq<char>, j: nat, fuel: nat)
    requires
        !(rep(g, start, end, count, acc, seq![], seq![], s, j, None, fuel) is Stuck),
    ensures
        rep(g, start, end, count, acc, seq![], seq![], s, j, None, fuel) == Search::Done(rep_parses(g, start, end, count, acc, s, j)),
    decreases end - count, 1nat, 0nat,
{
    if count < end {
        let fr = SpecFrame::Repeat { g, start, end, count, env: seq![], acc };
        let frames = seq![fr];
        assert(Seq::<SpecFrame>::empty().push(fr) =~= frames);
        assert(frames + Seq::<SpecFrame>::empty() =~= frames);
        let stop = if start <= count {
            resume(seq![], SpecAST::Sequence(acc), j, s, None, fuel)
        } else {
            Search::Done(seq![])
        };
        let more = solve(g, seq![], frames, s, j, None, fuel);
        assert(rep(g, start, end, count, acc, seq![], seq![], s, j, None, fuel) == or_else(stop, more));
        lemma_solve_splits(g, seq![], frames, seq![], s, j, fuel);
        lemma_solve_all_parses(g, s, j, fuel);
        let l = all_parses(g, s, j);
        assert(l.subrange(0, l.len() as int) =~= l);
        lemma_rep_list_parses(g, start, end, count, acc, s, l, 0, fuel);
    }
}

/// The parser lists the parses of a concatenation part by part: for each parse of the first
/// part, in order, the parses of the later parts from where it ends, and so on; each parse
/// is the sequence of the syntax trees of the parts.
pub proof fn lemma_concatenation_parses_in_order(gs: Vec<Rc<Grammar>>, s: Seq<char>, i: nat)
    requires
        gs@.len() > 0,
        terminates(Grammar::Concatenation(gs), s, i, None),
    ensures
        all_parses(Grammar::Concatenation(gs), s, i) == concat_parses(gs@, 0, seq![], s, i),
{
    let g = Grammar::Concatenation(gs);
    let c = choose|fuel: nat| !(#[trigger] solve(g, seq![], seq![], s, i, None, fuel) is Stuck);
    lemma_solve_all_parses(g, s, i, c);
    let f = (c - 1) as nat;
    let fr = SpecFrame::Concat { gs: gs@, next: 1, env: seq![], acc: seq![] };
    let frames = seq![fr];
    assert(Seq::<SpecFrame>::empty().push(fr) =~= frames);
    assert(frames + Seq::<SpecFrame>::empty() =~= frames);
    let g0 = grammar_at(gs@, 0);
    assert(solve(g, seq![], seq![], s, i, None, c) == solve(g0, seq![], frames, s, i, None, f));
    lemma_solve_splits(g0, seq![], frames, seq![], s, i, f);
    lemma_solve_all_parses(g0, s, i, f);
    let l = all_parses(g0, s, i);
    assert(l.subrange(0, l.len() as int) =~= l);
    assert(seq![].push(SpecAST::Sequence(seq![])) == seq![SpecAST::Sequence(seq![])]) by {
        assert(Seq::<SpecAST>::empty().push(SpecAST::Sequence(seq![])) =~= seq![SpecAST::Sequence(seq![])]);
    }
    lemma_concat_list_parses(gs@, 0, seq![], s, l, 0, f);
}

/// The parser lists the parses of a repetition by first stopping, when it has matched
/// enough times, and then, for each parse of its part, in order, the parses of the rest of
/// the repetition from where that parse ends.
pub proof fn lemma_repetition_parses_in_order(inner: Rc<Grammar>, range: Range<usize>, s: Seq<char>, i: nat)
    requires
        terminates(Grammar::Repetition(inner, range), s, i, None),
    ensures
        all_parses(Grammar::Repetition(inner, range), s, i) == rep_parses(
            *inner,
            range.start as nat,
            range.end as nat,
            0,
            seq![],
            s,
            i,
        ),
{
    let g = Grammar::Repetition(inner, range);
    let c = choose|fuel: nat| !(#[trigger] solve(g, seq![], seq![], s, i, None, fuel) is Stuck);
    lemma_solve_all_parses(g, s, i, c);
    let f = (c - 1) as nat;
    lemma_rep_parses(rc_inner(inner), range.start as nat, range.end as nat, 0, seq![], s, i, f);
}

}
