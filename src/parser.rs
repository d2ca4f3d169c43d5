//! Turning tokens into instructions, with loop bodies kept as re-parseable
//! cursor snapshots.
use vstd::prelude::*;
use crate::lexer::{
    first_token, is_symbol, no_symbol, Lexer, Source, Token, SYM_BRACKET_L, SYM_BRACKET_R,
    SYM_CHEVRON_L, SYM_CHEVRON_R, SYM_COMMA, SYM_DOT, SYM_MINUS, SYM_PLUS,
};

verus! {

/// What an instruction means: a loop is known by the bytes its body starts at.
pub enum Op {
    MoveL,
    MoveR,
    Incr,
    Decr,
    Print,
    Store,
    Loop(Seq<u8>),
}

/// What the bytes left after a loop's opening bracket are, once the scan
/// that starts at nesting `depth` has passed the matching closing bracket;
/// `None` when the bytes run out first.
pub open spec fn skip_block(s: Seq<u8>, depth: nat) -> Option<Seq<u8>>
    decreases s.len(),
{
    if depth == 0 {
        Some(s)
    } else if s.len() == 0 {
        None
    } else if s[0] == SYM_BRACKET_L {
        skip_block(s.drop_first(), depth + 1)
    } else if s[0] == SYM_BRACKET_R {
        skip_block(s.drop_first(), (depth - 1) as nat)
    } else {
        skip_block(s.drop_first(), depth)
    }
}

/// The instruction of an operator byte other than a bracket.
pub open spec fn simple_op(b: u8) -> Op {
    if b == SYM_CHEVRON_L {
        Op::MoveL
    } else if b == SYM_CHEVRON_R {
        Op::MoveR
    } else if b == SYM_PLUS {
        Op::Incr
    } else if b == SYM_MINUS {
        Op::Decr
    } else if b == SYM_DOT {
        Op::Print
    } else {
        Op::Store
    }
}

/// The next instruction of the bytes `s` (`None` where the sequence ends)
/// and the bytes left after it. Comment bytes are skipped, a closing bracket
/// ends the sequence, and an opening bracket gives a loop whose body starts
/// right after it, unless no matching closing bracket follows.
pub open spec fn parse_next(s: Seq<u8>) -> (Option<Op>, Seq<u8>)
    decreases s.len(),
{
    if s.len() == 0 {
        (None, s)
    } else if !is_symbol(s[0]) {
        parse_next(s.drop_first())
    } else if s[0] == SYM_BRACKET_R {
        (None, s.drop_first())
    } else if s[0] == SYM_BRACKET_L {
        match skip_block(s.drop_first(), 1) {
            Some(rest) => (Some(Op::Loop(s.drop_first())), rest),
            None => (None, Seq::empty()),
        }
    } else {
        (Some(simple_op(s[0])), s.drop_first())
    }
}

/// The bytes left after `k` instructions were taken from `s`.
pub open spec fn after_steps(s: Seq<u8>, k: nat) -> Seq<u8>
    decreases k,
{
    if k == 0 {
        s
    } else {
        parse_next(after_steps(s, (k - 1) as nat)).1
    }
}

/// The instruction handed out at position `k` of the sequence of `s`.
pub open spec fn nth_op(s: Seq<u8>, k: nat) -> Option<Op> {
    parse_next(after_steps(s, k)).0
}

/// Parsers re-derived from one snapshot hand out the same instruction at
/// every position of their sequences: the sequence is a function of the
/// snapshot's bytes alone.
pub proof fn lemma_reparse_deterministic<'a>(a: Parser<'a>, b: Parser<'a>, k: nat)
    requires
        a@ == b@,
    ensures
        nth_op(a@, k) == nth_op(b@, k),
        after_steps(a@, k) == after_steps(b@, k),
{
}

/// The sequence of `s` hands out an instruction at each of its first `k`
/// positions, ends at position `k`, and leaves `rest` unparsed there.
pub open spec fn ends_at(s: Seq<u8>, k: nat, rest: Seq<u8>) -> bool {
    &&& forall|j: nat| j < k ==> (#[trigger] nth_op(s, j)) is Some
    &&& nth_op(s, k) is None
    &&& parse_next(after_steps(s, k)).1 == rest
}

/// A loop body's own sequence ends exactly at the closing bracket paired
/// with the loop's opening bracket, and leaves unparsed the very bytes that
/// the outer sequence goes on with.
pub proof fn lemma_loop_body_ends_at_matching_bracket(s: Seq<u8>, body: Seq<u8>, rest: Seq<u8>)
    requires
        parse_next(s) == (Some(Op::Loop(body)), rest),
    ensures
        exists|k: nat| ends_at(body, k, rest),
    decreases s.len(),
{
    if !is_symbol(s[0]) {
        lemma_loop_body_ends_at_matching_bracket(s.drop_first(), body, rest);
    } else {
        assert(s[0] == SYM_BRACKET_L);
        lemma_body_ends(body, rest);
    }
}

/// The scan past a block never lengthens the bytes.
proof fn lemma_skip_block_len(s: Seq<u8>, depth: nat)
    ensures
        skip_block(s, depth) matches Some(r) ==> r.len() <= s.len(),
    decreases s.len(),
{
    if depth > 0 && s.len() > 0 {
        let t = s.drop_first();
        if s[0] == SYM_BRACKET_L {
            lemma_skip_block_len(t, depth + 1);
        } else if s[0] == SYM_BRACKET_R {
            lemma_skip_block_len(t, (depth - 1) as nat);
        } else {
            lemma_skip_block_len(t, depth);
        }
    }
}

/// Scanning at nesting `depth + 1` is scanning past one block, then at
/// nesting `depth`.
proof fn lemma_skip_block_split(s: Seq<u8>, depth: nat)
    ensures
        skip_block(s, depth + 1) == (match skip_block(s, 1) {
            Some(m) => skip_block(m, depth),
            None => None,
        }),
    decreases s.len(),
{
    if depth == 0 {
        if let Some(m) = skip_block(s, 1) {
            assert(skip_block(m, 0) == Some(m));
        }
    } else if s.len() > 0 {
        let t = s.drop_first();
        if s[0] == SYM_BRACKET_L {
            lemma_skip_block_split(t, depth + 1);
            lemma_skip_block_split(t, 1);
            lemma_skip_block_len(t, 1);
            assert(skip_block(s, depth + 1) == skip_block(t, depth + 2));
            assert(skip_block(s, 1) == skip_block(t, 2));
            if let Some(m) = skip_block(t, 1) {
                lemma_skip_block_split(m, depth);
            }
        } else if s[0] == SYM_BRACKET_R {
            assert(skip_block(s, 1) == skip_block(t, 0));
            assert(skip_block(t, 0) == Some(t));
        } else {
            lemma_skip_block_split(t, depth);
        }
    }
}

/// Taking `k + 1` instructions is taking one, then `k`.
proof fn lemma_after_steps_shift(s: Seq<u8>, k: nat)
    ensures
        after_steps(s, k + 1) == after_steps(parse_next(s).1, k),
    decreases k,
{
    let p = parse_next(s).1;
    if k > 0 {
        lemma_after_steps_shift(s, (k - 1) as nat);
        assert(after_steps(s, k + 1) == parse_next(after_steps(s, k)).1);
        assert(after_steps(p, k) == parse_next(after_steps(p, (k - 1) as nat)).1);
    } else {
        assert(after_steps(s, 0) == s);
        assert(after_steps(s, 1) == parse_next(after_steps(s, 0)).1);
        assert(after_steps(p, 0) == p);
    }
}

/// Where `s` first hands out an instruction and then has the bytes `m`
/// left, a sequence of `m` that ends at `k` makes one of `s` that ends at
/// `k + 1`.
proof fn lemma_ends_at_shift(s: Seq<u8>, m: Seq<u8>, k: nat, rest: Seq<u8>)
    requires
        parse_next(s).0 is Some,
        parse_next(s).1 == m,
        ends_at(m, k, rest),
    ensures
        ends_at(s, k + 1, rest),
{
    assert forall|j: nat| j < k + 1 implies (#[trigger] nth_op(s, j)) is Some by {
        if j > 0 {
            lemma_after_steps_shift(s, (j - 1) as nat);
            assert(nth_op(m, (j - 1) as nat) is Some);
        }
    }
    lemma_after_steps_shift(s, k);
}

/// Where two byte sequences parse the same first step, their sequences
/// agree from there on.
proof fn lemma_ends_at_same_first(s: Seq<u8>, t: Seq<u8>, k: nat, rest: Seq<u8>)
    requires
        parse_next(s) == parse_next(t),
        ends_at(t, k, rest),
    ensures
        ends_at(s, k, rest),
{
    assert forall|j: nat| #![trigger after_steps(s, j)] after_steps(s, j) == after_steps(t, j)
        || j == 0 by {
        if j > 0 {
            lemma_after_steps_shift(s, (j - 1) as nat);
            lemma_after_steps_shift(t, (j - 1) as nat);
        }
    }
    assert forall|j: nat| j < k implies (#[trigger] nth_op(s, j)) is Some by {
        assert(nth_op(t, j) is Some);
        if j > 0 {
            assert(after_steps(s, j) == after_steps(t, j));
        }
    }
    if k > 0 {
        assert(after_steps(s, k) == after_steps(t, k));
    }
}

/// The sequence of bytes that the scan past one block ends on `rest` ends
/// at that block's closing bracket, with `rest` left.
proof fn lemma_body_ends(s: Seq<u8>, rest: Seq<u8>)
    requires
        skip_block(s, 1) == Some(rest),
    ensures
        exists|k: nat| ends_at(s, k, rest),
    decreases s.len(),
{
    let t = s.drop_first();
    if !is_symbol(s[0]) {
        lemma_body_ends(t, rest);
        let k = choose|k: nat| ends_at(t, k, rest);
        lemma_ends_at_same_first(s, t, k, rest);
    } else if s[0] == SYM_BRACKET_R {
        assert(skip_block(t, 0) == Some(t));
        assert(after_steps(s, 0) == s);
        assert(parse_next(s) == (None::<Op>, t));
        assert(ends_at(s, 0, rest));
    } else if s[0] == SYM_BRACKET_L {
        lemma_skip_block_split(t, 1);
        lemma_skip_block_len(t, 1);
        let m = skip_block(t, 1)->Some_0;
        lemma_body_ends(m, rest);
        let k = choose|k: nat| ends_at(m, k, rest);
        lemma_ends_at_shift(s, m, k, rest);
    } else {
        lemma_body_ends(t, rest);
        let k = choose|k: nat| ends_at(t, k, rest);
        lemma_ends_at_shift(s, t, k, rest);
    }
}

/// Comment bytes are inert for the parse.
proof fn lemma_parse_skips_comment(s: Seq<u8>, n: nat)
    requires
        n <= s.len(),
        no_symbol(s.subrange(0, n as int)),
    ensures
        parse_next(s) == parse_next(s.skip(n as int)),
    decreases n,
{
    if n > 0 {
        assert(s.subrange(0, n as int)[0] == s[0]);
        let t = s.drop_first();
        assert(t.subrange(0, n - 1) =~= s.subrange(0, n as int).drop_first());
        lemma_parse_skips_comment(t, (n - 1) as nat);
        assert(t.skip(n - 1) =~= s.skip(n as int));
    } else {
        assert(s.skip(0) =~= s);
    }
}

/// Comment bytes are inert for the scan past a loop body.
proof fn lemma_skip_block_skips_comment(s: Seq<u8>, n: nat, depth: nat)
    requires
        n <= s.len(),
        no_symbol(s.subrange(0, n as int)),
        depth > 0,
    ensures
        skip_block(s, depth) == skip_block(s.skip(n as int), depth),
    decreases n,
{
    if n > 0 {
        assert(s.subrange(0, n as int)[0] == s[0]);
        let t = s.drop_first();
        assert(t.subrange(0, n - 1) =~= s.subrange(0, n as int).drop_first());
        lemma_skip_block_skips_comment(t, (n - 1) as nat, depth);
        assert(t.skip(n - 1) =~= s.skip(n as int));
    } else {
        assert(s.skip(0) =~= s);
    }
}

/// After a first token, the rest is what the byte-level spec continues on.
proof fn lemma_first_token_rest<'a>(s: Seq<u8>, t: Token<'a>, rest: Seq<u8>)
    requires
        first_token(s, t, rest),
    ensures
        t is Comment ==> parse_next(s) == parse_next(rest),
        t is Comment ==> forall|d: nat| d > 0 ==> skip_block(s, d) == skip_block(rest, d),
        t !is Comment ==> s.len() > 0 && s[0] == t@[0] && rest == s.drop_first(),
{
    if let Token::Comment(c) = t {
        let n = c@.len();
        assert(s.subrange(0, n as int) =~= c@);
        assert(s.skip(n as int) =~= rest);
        lemma_parse_skips_comment(s, n);
        assert forall|d: nat| d > 0 implies skip_block(s, d) == skip_block(rest, d) by {
            lemma_skip_block_skips_comment(s, n, d);
        }
    } else {
        assert(s[0] == (t@ + rest)[0]);
        assert(s.drop_first() =~= rest);
    }
}

/// A brainfuck instruction.
#[derive(Clone, PartialEq, Eq, Debug)]
pub enum Instruction<'a> {
    /// move the data pointer left
    MoveL,
    /// move the data pointer right
    MoveR,
    /// increment the current cell
    Incr,
    /// decrement the current cell
    Decr,
    /// print the current cell's value
    Print,
    /// store an input byte into the current cell
    Store,
    /// repeat the body while the current cell is not 0
    Loop(Parser<'a>),
}

impl<'a> View for Instruction<'a> {
    type V = Op;

    open spec fn view(&self) -> Op {
        match self {
            Instruction::MoveL => Op::MoveL,
            Instruction::MoveR => Op::MoveR,
            Instruction::Incr => Op::Incr,
            Instruction::Decr => Op::Decr,
            Instruction::Print => Op::Print,
            Instruction::Store => Op::Store,
            Instruction::Loop(p) => Op::Loop(p@),
        }
    }
}

/// The meaning of an instruction handed out, if any.
pub open spec fn opt_view<'a>(r: Option<Instruction<'a>>) -> Option<Op> {
    match r {
        Some(i) => Some(i@),
        None => None,
    }
}

/// A parser that hands out instructions one by one.
#[derive(Clone, Copy, PartialEq, Eq, Debug)]
pub struct Parser<'a> {
    lexer: Lexer<'a>,
}

impl<'a> View for Parser<'a> {
    type V = Seq<u8>;

    /// The bytes not yet parsed.
    closed spec fn view(&self) -> Seq<u8> {
        self.lexer@
    }
}

impl<'a> Parser<'a> {
    /// Creates a parser over the tokens of a lexer.
    pub fn new(lexer: Lexer<'a>) -> (r: Self)
        ensures
            r@ == lexer@,
    {
        Self { lexer }
    }

    /// Creates a parser over a byte slice.
    pub fn parse(src: Source<'a>) -> (r: Self)
        ensures
            r@ == src@,
    {
        Self::new(Lexer::new(src))
    }

    /// Hands out the next instruction, or `None` where the sequence ends.
    pub fn next(&mut self) -> (r: Option<Instruction<'a>>)
        ensures
            opt_view(r) == parse_next(old(self)@).0,
            final(self)@ == parse_next(old(self)@).1,
    {
        loop
            invariant
                parse_next(self@) == parse_next(old(self)@),
            decreases self@.len(),
        {
            let ghost before = self@;
            proof {
                self.lexer.lemma_len_bound();
            }
            let tok = match self.lexer.next() {
                Some(t) => t,
                None => return None,
            };
            proof {
                lemma_first_token_rest(before, tok, self@);
            }
            match tok {
                Token::ChevronL => return Some(Instruction::MoveL),
                Token::ChevronR => return Some(Instruction::MoveR),
                Token::Plus => return Some(Instruction::Incr),
                Token::Minus => return Some(Instruction::Decr),
                Token::Dot => return Some(Instruction::Print),
                Token::Comma => return Some(Instruction::Store),
                Token::BracketR => return None,
                Token::Comment(_) => {},
                Token::BracketL => {
                    let snapshot = self.lexer;
                    let mut depth: usize = 1;
                    while depth != 0
                        invariant
                            skip_block(self@, depth as nat) == skip_block(snapshot@, 1),
                            depth + self@.len() <= snapshot@.len() + 1,
                            snapshot@.len() < usize::MAX,
                            parse_next(old(self)@) == parse_next(before),
                            before.len() > 0,
                            before[0] == SYM_BRACKET_L,
                            snapshot@ == before.drop_first(),
                        decreases self@.len(),
                    {
                        let ghost cur = self@;
                        match self.lexer.next() {
                            Some(t) => {
                                proof {
                                    lemma_first_token_rest(cur, t, self@);
                                }
                                match t {
                                    Token::BracketL => depth = depth + 1,
                                    Token::BracketR => depth = depth - 1,
                                    _ => {},
                                }
                            },
                            None => return None,
                        }
                    }
                    return Some(Instruction::Loop(Self::new(snapshot)));
                },
            }
        }
    }
}

} // verus!
