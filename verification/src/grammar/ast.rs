use vstd::prelude::*;

verus! {

/// The mathematical model of a syntax tree.
pub enum SpecAST {
    Token(char),
    Sequence(Seq<SpecAST>),
}

/// An abstract syntax tree.
#[derive(Debug, PartialEq, Eq, Hash)]
pub enum AST {
    Token(char),
    Sequence(Vec<AST>),
}

/// The model of a syntax tree.
pub open spec fn ast_model(a: AST) -> SpecAST
    decreases a,
{
    match a {
        AST::Token(c) => SpecAST::Token(c),
        AST::Sequence(v) => SpecAST::Sequence(
            Seq::new(v@.len(), |i: int| if 0 <= i < v@.len() { ast_model(v@[i]) } else { SpecAST::Token(' ') }),
        ),
    }
}

impl View for AST {
    type V = SpecAST;

    open spec fn view(&self) -> SpecAST {
        ast_model(*self)
    }
}

/// The models of a vector of syntax trees, in order.
pub open spec fn asts_view(v: Seq<AST>) -> Seq<SpecAST> {
    Seq::new(v.len(), |i: int| v[i]@)
}

/// The model of a sequence node is the sequence of the models of its children.
pub proof fn lemma_sequence_model(v: Vec<AST>)
    ensures
        AST::Sequence(v)@ == SpecAST::Sequence(asts_view(v@)),
{
    match ast_model(AST::Sequence(v)) {
        SpecAST::Sequence(s) => {
            assert(s =~= asts_view(v@));
        },
        _ => {},
    }
}

/// The model of a token node is the token.
pub proof fn lemma_token_model(c: char)
    ensures
        AST::Token(c)@ == SpecAST::Token(c),
{
}

/// The characters of a syntax tree, read from left to right.
pub open spec fn ast_chars(a: SpecAST) -> Seq<char>
    decreases a,
{
    match a {
        SpecAST::Token(c) => seq![c],
        SpecAST::Sequence(v) => asts_chars_upto(v, v.len() as int),
    }
}

/// The characters of the first `n` syntax trees of `v`, read from left to right.
pub open spec fn asts_chars_upto(v: Seq<SpecAST>, n: int) -> Seq<char>
    decreases v, n,
{
    if n <= 0 || n > v.len() {
        seq![]
    } else {
        asts_chars_upto(v, n - 1) + ast_chars(v[n - 1])
    }
}

/// The characters of all the syntax trees of `v`, read from left to right.
pub open spec fn asts_chars(v: Seq<SpecAST>) -> Seq<char> {
    asts_chars_upto(v, v.len() as int)
}

/// `String::push` (std): appends the character `c` at the end of the string, as its
/// documentation says.
#[verifier::external_body]
fn push_char(s: &mut String, c: char)
    ensures
        final(s)@ == old(s)@.push(c),
{
    s.push(c)
}

impl AST {
    /// Appends the characters of this syntax tree to `string`.
    pub fn generate_string_in(&self, string: &mut String)
        ensures
            final(string)@ == old(string)@ + ast_chars(self@),
        decreases self,
    {
        match self {
            AST::Token(c) => {
                push_char(string, *c);
            },
            AST::Sequence(asts) => {
                let ghost start = string@;
                proof { lemma_sequence_model(*asts); }
                let ghost model = self@;
                let mut i: usize = 0;
                while i < asts.len()
                    invariant
                        i <= asts@.len(),
                        *self == AST::Sequence(*asts),
                        model == SpecAST::Sequence(asts_view(asts@)),
                        string@ == start + asts_chars_upto(asts_view(asts@), i as int),
                    decreases asts@.len() - i,
                {
                    proof {
                        assert(decreases_to!(*self => (*self)->Sequence_0@[i as int]));
                    }
                    asts[i].generate_string_in(string);
                    proof {
                        let v = asts_view(asts@);
                        assert(asts_chars_upto(v, i + 1) == asts_chars_upto(v, i as int) + ast_chars(v[i as int]));
                        assert(start + asts_chars_upto(v, i as int) + ast_chars(v[i as int]) =~= start + asts_chars_upto(v, i + 1));
                    }
                    i = i + 1;
                }
            },
        }
    }

    /// Converts the syntax tree to its `String` representation.
    pub fn to_string(&self) -> (s: String)
        ensures
            s@ == ast_chars(self@),
    {
        let mut s = String::new();
        self.generate_string_in(&mut s);
        assert(s@ =~= ast_chars(self@));
        s
    }

    /// A copy of this syntax tree, node for node.
    pub fn deep_copy(&self) -> (r: AST)
        ensures
            r@ == self@,
        decreases self,
    {
        match self {
            AST::Token(c) => AST::Token(*c),
            AST::Sequence(asts) => {
                let mut out: Vec<AST> = Vec::new();
                let mut i: usize = 0;
                while i < asts.len()
                    invariant
                        i <= asts@.len(),
                        *self == AST::Sequence(*asts),
                        out@.len() == i,
                        forall|k: int| 0 <= k < i ==> #[trigger] out@[k]@ == asts@[k]@,
                    decreases asts@.len() - i,
                {
                    proof {
                        assert(decreases_to!(*self => (*self)->Sequence_0@[i as int]));
                    }
                    let c = asts[i].deep_copy();
                    out.push(c);
                    i = i + 1;
                }
                let r = AST::Sequence(out);
                proof {
                    lemma_sequence_model(*asts);
                    lemma_sequence_model(out);
                    assert(asts_view(out@) =~= asts_view(asts@));
                }
                r
            },
        }
    }
}

impl Clone for AST {
    /// A copy of the syntax tree, node for node.
    fn clone(&self) -> (r: AST)
        ensures
            r@ == self@,
    {
        self.deep_copy()
    }
}

} // verus!
