//! Splitting a source buffer into symbol and comment tokens.
use vstd::prelude::*;

verus! {

/// An immutable view into the program's bytes.
pub type Source<'a> = &'a [u8];

/// `<`
pub const SYM_CHEVRON_L: u8 = 0x3c;
/// `>`
pub const SYM_CHEVRON_R: u8 = 0x3e;
/// `+`
pub const SYM_PLUS: u8 = 0x2b;
/// `-`
pub const SYM_MINUS: u8 = 0x2d;
/// `.`
pub const SYM_DOT: u8 = 0x2e;
/// `,`
pub const SYM_COMMA: u8 = 0x2c;
/// `[`
pub const SYM_BRACKET_L: u8 = 0x5b;
/// `]`
pub const SYM_BRACKET_R: u8 = 0x5d;

/// The byte is one of the eight operators of the language.
pub open spec fn is_symbol(b: u8) -> bool {
    b == SYM_CHEVRON_L || b == SYM_CHEVRON_R || b == SYM_PLUS || b == SYM_MINUS
        || b == SYM_DOT || b == SYM_COMMA || b == SYM_BRACKET_L || b == SYM_BRACKET_R
}

/// Tests whether a byte is one of the eight operators.
pub fn is_symbol_byte(b: u8) -> (r: bool)
    ensures
        r == is_symbol(b),
{
    b == SYM_CHEVRON_L || b == SYM_CHEVRON_R || b == SYM_PLUS || b == SYM_MINUS
        || b == SYM_DOT || b == SYM_COMMA || b == SYM_BRACKET_L || b == SYM_BRACKET_R
}

/// A brainfuck source code token.
#[derive(Clone, PartialEq, Eq, Debug)]
pub enum Token<'a> {
    ChevronL,
    ChevronR,
    Plus,
    Minus,
    Dot,
    Comma,
    BracketL,
    BracketR,
    Comment(Source<'a>),
}

impl<'a> View for Token<'a> {
    type V = Seq<u8>;

    /// The source bytes that the token covers.
    open spec fn view(&self) -> Seq<u8> {
        match self {
            Token::ChevronL => seq![SYM_CHEVRON_L],
            Token::ChevronR => seq![SYM_CHEVRON_R],
            Token::Plus => seq![SYM_PLUS],
            Token::Minus => seq![SYM_MINUS],
            Token::Dot => seq![SYM_DOT],
            Token::Comma => seq![SYM_COMMA],
            Token::BracketL => seq![SYM_BRACKET_L],
            Token::BracketR => seq![SYM_BRACKET_R],
            Token::Comment(c) => c@,
        }
    }
}

/// No operator occurs in the bytes.
pub open spec fn no_symbol(s: Seq<u8>) -> bool {
    forall|i: int| 0 <= i < s.len() ==> !is_symbol(#[trigger] s[i])
}

impl<'a> Token<'a> {
    /// A comment covers a non-empty run of non-operator bytes.
    pub open spec fn wf(&self) -> bool {
        self matches Token::Comment(c) ==> c@.len() > 0 && no_symbol(c@)
    }

    /// Parses a single token from the beginning of a source, returning the
    /// bytes after it and the token; `None` on an empty source.
    pub fn parse(src: Source<'a>) -> (r: Option<(Source<'a>, Token<'a>)>)
        ensures
            r is None <==> src@.len() == 0,
            r matches Some((rest, t)) ==> first_token(src@, t, rest@),
    {
        let len = src.len();
        if len == 0 {
            return None;
        }
        let b = src[0];
        let tok = if b == SYM_CHEVRON_L {
            Token::ChevronL
        } else if b == SYM_CHEVRON_R {
            Token::ChevronR
        } else if b == SYM_PLUS {
            Token::Plus
        } else if b == SYM_MINUS {
            Token::Minus
        } else if b == SYM_DOT {
            Token::Dot
        } else if b == SYM_COMMA {
            Token::Comma
        } else if b == SYM_BRACKET_L {
            Token::BracketL
        } else if b == SYM_BRACKET_R {
            Token::BracketR
        } else {
            let mut n: usize = 1;
            while n < len && !is_symbol_byte(src[n])
                invariant
                    1 <= n <= len,
                    len == src@.len(),
                    no_symbol(src@.subrange(0, n as int)),
                decreases len - n,
            {
                assert(src@.subrange(0, n + 1) =~= src@.subrange(0, n as int).push(src@[n as int]));
                n = n + 1;
            }
            let rest = &src[n..len];
            let comment = &src[0..n];
            assert(src@ =~= comment@ + rest@);
            return Some((rest, Token::Comment(comment)));
        };
        let rest = &src[1..len];
        assert(src@ =~= tok@ + rest@);
        Some((rest, tok))
    }
}

/// `t` is the first token of `s`, and `rest` is what follows it.
pub open spec fn first_token<'a>(s: Seq<u8>, t: Token<'a>, rest: Seq<u8>) -> bool {
    &&& t.wf()
    &&& s == t@ + rest
    &&& (t is Comment && rest.len() > 0 ==> is_symbol(rest[0]))
}

/// A non-empty run of bytes without an operator is one comment token that
/// spans the whole run, and nothing follows it.
pub proof fn lemma_comment_only<'a>(s: Seq<u8>, t: Token<'a>, rest: Seq<u8>)
    requires
        s.len() > 0,
        no_symbol(s),
        first_token(s, t, rest),
    ensures
        t is Comment,
        t@ == s,
        rest.len() == 0,
{
    assert(s[0] == (t@ + rest)[0]);
    if rest.len() > 0 {
        assert(rest[0] == s[t@.len() as int]);
    }
    assert(rest =~= Seq::<u8>::empty());
    assert(t@ =~= s);
}

/// A cursor over a source that hands out its tokens one by one.
#[derive(Clone, Copy, PartialEq, Eq, Debug)]
pub struct Lexer<'a> {
    src: Source<'a>,
}

impl<'a> View for Lexer<'a> {
    type V = Seq<u8>;

    /// The bytes not yet tokenized.
    closed spec fn view(&self) -> Seq<u8> {
        self.src@
    }
}

impl<'a> Lexer<'a> {
    pub fn new(src: Source<'a>) -> (r: Self)
        ensures
            r@ == src@,
    {
        Self { src }
    }

    /// The bytes left fit in memory.
    pub proof fn lemma_len_bound(&self)
        ensures
            self@.len() <= usize::MAX,
    {
        assert(self.src@.len() == self.src.len());
    }

    /// Hands out the next token, or `None` once no byte is left.
    pub fn next(&mut self) -> (r: Option<Token<'a>>)
        ensures
            r is None <==> old(self)@.len() == 0,
            r is None ==> final(self)@ == old(self)@,
            r matches Some(t) ==> first_token(old(self)@, t, final(self)@),
    {
        match Token::parse(self.src) {
            Some((rest, tok)) => {
                self.src = rest;
                Some(tok)
            },
            None => None,
        }
    }
}

} // verus!
