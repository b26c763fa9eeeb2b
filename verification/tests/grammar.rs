use fuzzcheck_mutators::bounds::Bound;
use fuzzcheck_mutators::grammar::ast::AST;
use fuzzcheck_mutators::grammar::grammar::{
    alternation, concatenation, literal, literal_range, literal_ranges, recurse, recursive, repetition, Grammar,
};
use fuzzcheck_mutators::grammar::parser::{grammar_parser, parse_from_grammar};
use fuzzcheck_mutators::grammar::regex::{grammar_from_regex_hir_kind, try_regex, RegexError, RegexRepetition, RegexTree};
use std::rc::Rc;

fn parses(string: &str, grammar: &Rc<Grammar>) -> Vec<(AST, usize)> {
    grammar_parser(string, 0, grammar.clone())
}

#[test]
fn test_atom() {
    let grammar = literal_ranges(vec!['a'..='c']);
    for string in ["a", "b", "c", "d"] {
        for (ast, _) in parses(string, &grammar) {
            println!("{:?}", ast);
        }
    }
}

#[test]
fn test_alternation() {
    let grammar = alternation(vec![
        literal_ranges(vec!['a'..='c']),
        literal_ranges(vec!['d'..='g']),
        literal_ranges(vec!['y'..='z']),
    ]);
    for string in ["a", "b", "e", "y", "i"] {
        for (ast, _) in parses(string, &grammar) {
            println!("{:?}", ast);
        }
    }
}

#[test]
fn test_concatenation() {
    let grammar = concatenation(vec![
        literal_ranges(vec!['a'..='c']),
        literal_ranges(vec!['d'..='g']),
        literal_ranges(vec!['y'..='z']),
    ]);
    for string in ["a", "ad", "ady", "bfz", "adyg"] {
        println!("results for {}", string);
        for (ast, _) in parses(string, &grammar) {
            println!("{:?}", ast);
        }
    }
}

#[test]
fn test_end() {
    let grammar = concatenation(vec![literal_ranges(vec!['a'..='c']), literal_ranges(vec!['d'..='g'])]);
    for string in ["a", "ad", "ady", "bfz"] {
        println!("results for {}", string);
        for (ast, _) in parses(string, &grammar) {
            println!("{:?}", ast);
        }
    }
}

#[test]
fn test_repetition() {
    let grammar = concatenation(vec![repetition(
        concatenation(vec![literal_ranges(vec!['a'..='c']), literal_ranges(vec!['d'..='g'])]),
        Bound::Included(0),
        Bound::Excluded(3),
    )]);
    for string in ["", "a", "ad", "adad", "adadad"] {
        println!("results for {}", string);
        for (ast, _) in parses(string, &grammar) {
            println!("{:?}", ast);
        }
    }
}

#[test]
fn test_recurse() {
    let letter = literal_ranges(vec!['a'..='z']);
    let space = repetition(literal_ranges(vec![' '..=' ']), Bound::Included(0), Bound::Excluded(10));
    let bar = literal_ranges(vec!['|'..='|']);
    let main_rule = recursive(alternation(vec![
        letter.clone(),
        concatenation(vec![letter, space.clone(), bar, space, recurse(0)]),
    ]));
    let grammar = concatenation(vec![main_rule]);

    let string = "a|a";
    for (ast, _) in parses(string, &grammar) {
        println!("{:?}", ast);
    }

    for string in ["a", "a|a", "a|a|a", ""] {
        println!("results for {}", string);
        for (ast, _) in parses(string, &grammar) {
            println!("{:?}", ast);
        }
    }
}

#[test]
fn test_recurse_2() {
    let grammar = recursive(concatenation(vec![
        literal('('),
        alternation(vec![literal_ranges(vec!['a'..='b']), recurse(0)]),
        literal(')'),
    ]));
    let string = "(((b)))";
    for (ast, _) in parses(string, &grammar) {
        println!("{:?}", ast);
    }
}

#[test]
fn test_complex() {
    let tick = literal_ranges(vec!['\''..='\'']);
    let digit = literal_ranges(vec!['0'..='9']);
    let number = repetition(digit.clone(), Bound::Included(1), Bound::Excluded(10));
    let character = alternation(vec![literal_ranges(vec!['a'..='z']), digit, literal_ranges(vec!['_'..='_'])]);
    let char_literal = alternation(vec![concatenation(vec![tick.clone(), character, tick])]);
    let repetition_mark = alternation(vec![
        literal_ranges(vec!['*'..='*']),
        literal_ranges(vec!['?'..='?']),
        literal_ranges(vec!['+'..='+']),
        concatenation(vec![
            literal_ranges(vec!['{'..='{']),
            number.clone(),
            repetition(
                concatenation(vec![literal_ranges(vec![','..=',']), number]),
                Bound::Included(0),
                Bound::Included(1),
            ),
            literal_ranges(vec!['}'..='}']),
        ]),
    ]);
    let group = concatenation(vec![literal_ranges(vec!['('..='(']), recurse(0), literal_ranges(vec![')'..=')'])]);
    let literal_or_group = alternation(vec![char_literal.clone(), group]);
    let rep = concatenation(vec![literal_or_group.clone(), repetition_mark]);
    let alt = concatenation(vec![literal_or_group.clone(), literal_ranges(vec!['|'..='|']), literal_or_group]);
    let grammar = concatenation(vec![recursive(alternation(vec![char_literal, rep, alt]))]);
    let string = "((('a'|'b')|'b')*)|('a'+)";
    for (ast, _) in parses(string, &grammar) {
        println!("{:?}", ast);
    }
}

#[test]
fn parses_of_nested_parentheses_print_back_the_string() {
    let grammar = recursive(concatenation(vec![
        literal('('),
        alternation(vec![literal_ranges(vec!['a'..='b']), recurse(0)]),
        literal(')'),
    ]));
    let all = parses("(((b)))", &grammar);
    assert_eq!(all.len(), 1);
    assert_eq!(all[0].1, 7);
    assert_eq!(all[0].0.to_string(), "(((b)))");
    let ast = parse_from_grammar("(((b)))", grammar.clone()).unwrap();
    assert_eq!(ast.to_string(), "(((b)))");
    assert!(parse_from_grammar("(((b))", grammar.clone()).is_none());
    assert!(parse_from_grammar("((c))", grammar).is_none());
}

#[test]
fn every_parse_prints_back_a_prefix() {
    let grammar = concatenation(vec![repetition(
        concatenation(vec![literal_ranges(vec!['a'..='c']), literal_ranges(vec!['d'..='g'])]),
        Bound::Included(0),
        Bound::Excluded(3),
    )]);
    let string = "adadad";
    let all = parses(string, &grammar);
    let mut ends: Vec<usize> = all.iter().map(|(_, end)| *end).collect();
    ends.sort();
    assert_eq!(ends, vec![0, 2, 4]);
    for (ast, end) in &all {
        assert_eq!(ast.to_string(), string[..*end].to_string());
    }
}

#[test]
fn parse_from_grammar_needs_the_whole_string() {
    let grammar = concatenation(vec![literal_ranges(vec!['a'..='c']), literal_ranges(vec!['d'..='g'])]);
    assert!(parse_from_grammar("ad", grammar.clone()).is_some());
    assert!(parse_from_grammar("ady", grammar.clone()).is_none());
    assert!(parse_from_grammar("a", grammar.clone()).is_none());
    assert!(parse_from_grammar("", grammar).is_none());
}

#[test]
fn parses_from_an_index() {
    let grammar = literal_ranges(vec!['x'..='z']);
    let all = grammar_parser("axy", 1, grammar.clone());
    assert_eq!(all.len(), 1);
    assert_eq!(all[0].1, 2);
    assert_eq!(all[0].0, AST::Token('x'));
    assert!(grammar_parser("axy", 3, grammar).is_empty());
}

#[test]
fn ast_prints_its_tokens_in_order() {
    let ast = AST::Sequence(vec![
        AST::Token('h'),
        AST::Sequence(vec![AST::Token('i'), AST::Sequence(vec![])]),
        AST::Token('!'),
    ]);
    assert_eq!(ast.to_string(), "hi!");
    let mut s = String::from(">");
    ast.generate_string_in(&mut s);
    assert_eq!(s, ">hi!");
    assert_eq!(ast.clone(), ast);
}

#[test]
fn literal_range_with_excluded_bounds() {
    let g = literal_range(Bound::Excluded('a'), Bound::Excluded('e'));
    match &*g {
        Grammar::Literal(v) => assert_eq!(v, &vec![('b', 'd')]),
        _ => panic!("not a literal"),
    }
    assert!(parse_from_grammar("d", g.clone()).is_some());
    assert!(parse_from_grammar("e", g).is_none());
}

#[test]
fn regex_gives_a_grammar() {
    let g = try_regex("a(b|c)+").unwrap();
    assert!(parse_from_grammar("abcb", g.clone()).is_some());
    assert!(parse_from_grammar("a", g.clone()).is_none());
    assert!(parse_from_grammar("abd", g).is_none());
}

#[test]
fn regex_bounded_repetition() {
    let g = try_regex("[x-z]{2,3}").unwrap();
    assert!(parse_from_grammar("x", g.clone()).is_none());
    assert!(parse_from_grammar("xz", g.clone()).is_some());
    assert!(parse_from_grammar("xyz", g.clone()).is_some());
    assert!(parse_from_grammar("xyzx", g).is_none());
}

#[test]
fn regex_errors() {
    assert_eq!(try_regex("(a").err(), Some(RegexError::InvalidRegex));
    assert_eq!(try_regex("^a").err(), Some(RegexError::Unsupported));
    assert_eq!(try_regex("").err(), Some(RegexError::Unsupported));
}

#[test]
fn grammar_of_a_regex_tree() {
    let tree = RegexTree::Concat(vec![
        RegexTree::Char('a'),
        RegexTree::Repetition(RegexRepetition::Bounded(1, 2), Box::new(RegexTree::Class(vec![('0', '9')]))),
    ]);
    let g = grammar_from_regex_hir_kind(&tree);
    match &*g {
        Grammar::Concatenation(gs) => {
            assert_eq!(gs.len(), 2);
            match &*gs[1] {
                Grammar::Repetition(_, range) => assert_eq!(range.clone(), 1..3),
                _ => panic!("not a repetition"),
            }
        }
        _ => panic!("not a concatenation"),
    }
    assert!(parse_from_grammar("a07", g.clone()).is_some());
    assert!(parse_from_grammar("a079", g).is_none());
}

#[test]
fn concatenation_parse_has_one_tree_per_part() {
    let grammar = concatenation(vec![
        repetition(literal('a'), Bound::Included(0), Bound::Unbounded),
        literal('b'),
        alternation(vec![literal('c'), literal('d')]),
    ]);
    let ast = parse_from_grammar("aabd", grammar).unwrap();
    assert_eq!(
        ast,
        AST::Sequence(vec![
            AST::Sequence(vec![AST::Token('a'), AST::Token('a')]),
            AST::Token('b'),
            AST::Token('d'),
        ])
    );
    match &ast {
        AST::Sequence(parts) => {
            let pieces: Vec<String> = parts.iter().map(|p| p.to_string()).collect();
            assert_eq!(pieces, vec!["aa".to_string(), "b".to_string(), "d".to_string()]);
        },
        _ => panic!("not a sequence"),
    }
}

#[test]
fn the_parse_of_a_regex_grammar_ends_on_every_string() {
    let g = try_regex("(a|b)*c?").unwrap();
    for string in ["", "c", "abab", "ababc", "abcb", "cc", "x"] {
        let whole = parse_from_grammar(string, g.clone());
        assert_eq!(whole.is_some(), !string.contains('x') && !string.ends_with("cb") && string != "cc");
        if let Some(ast) = whole {
            assert_eq!(ast.to_string(), string);
        }
        for (ast, end) in grammar_parser(string, 0, g.clone()) {
            assert_eq!(ast.to_string(), string[..end]);
        }
    }
}

#[test]
fn parse_indices_are_byte_offsets() {
    let accented = literal_ranges(vec!['à'..='ê']);
    let all = grammar_parser("éa", 0, accented.clone());
    assert_eq!(all, vec![(AST::Token('é'), 2)]);
    let ab = literal_ranges(vec!['a'..='b']);
    assert_eq!(grammar_parser("éa", 2, ab.clone()), vec![(AST::Token('a'), 3)]);
    assert!(grammar_parser("éa", 3, ab).is_empty());
    assert!(grammar_parser("éa", 0, literal_ranges(vec!['a'..='z'])).is_empty());
    let word = concatenation(vec![accented, repetition(literal('a'), Bound::Included(0), Bound::Unbounded)]);
    let ends: Vec<usize> = grammar_parser("éaa", 0, word).iter().map(|(_, end)| *end).collect();
    assert_eq!(ends, vec![2, 3, 4]);
    for end in ends {
        assert!("éaa".is_char_boundary(end));
    }
}

#[test]
fn concatenation_parses_come_part_by_part() {
    let many_a = || repetition(literal('a'), Bound::Included(0), Bound::Unbounded);
    let grammar = concatenation(vec![many_a(), many_a()]);
    let all = grammar_parser("aa", 0, grammar);
    let ends: Vec<usize> = all.iter().map(|(_, end)| *end).collect();
    assert_eq!(ends, vec![0, 1, 2, 1, 2, 2]);
    let a = || AST::Token('a');
    assert_eq!(all[3].0, AST::Sequence(vec![AST::Sequence(vec![a()]), AST::Sequence(vec![])]));
    assert_eq!(all[4].0, AST::Sequence(vec![AST::Sequence(vec![a()]), AST::Sequence(vec![a()])]));
}

#[test]
fn repetition_parses_stop_first_then_go_on() {
    let grammar = repetition(literal_ranges(vec!['a'..='b']), Bound::Included(1), Bound::Included(2));
    let all = grammar_parser("abb", 0, grammar);
    assert_eq!(
        all,
        vec![
            (AST::Sequence(vec![AST::Token('a')]), 1),
            (AST::Sequence(vec![AST::Token('a'), AST::Token('b')]), 2),
        ]
    );
}
