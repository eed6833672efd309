//! Compiler front end: tokenizer and instruction builder.
//!
//! The tokenizer maps each source character to one of 16 symbolic tokens,
//! discarding everything else as a comment.  The instruction builder folds
//! runs of identical simple tokens into counted instructions and resolves
//! bracketed regions into nested `Loop` instructions, producing an
//! instruction tree or one of two mismatched-bracket errors.

use vstd::prelude::*;

verus! {

/// One of the 16 recognized source symbols.
#[derive(Debug, Clone, Copy, PartialEq, Eq, Structural)]
pub enum Token {
    Left,
    Right,
    Inc,
    Dec,
    Print,
    Query,
    BeginLoop,
    EndLoop,
    SetPort,
    Connect,
    Disconnect,
    SendData,
    RecieveData,
    SocketHandle,
    FlushWrites,
    SetTimeout,
}

/// The token a source character stands for, or `None` for a comment character.
pub open spec fn token_of_char(c: char) -> Option<Token> {
    match c {
        '<' => Some(Token::Left),
        '>' => Some(Token::Right),
        '+' => Some(Token::Inc),
        '-' => Some(Token::Dec),
        '.' => Some(Token::Print),
        ',' => Some(Token::Query),
        '[' => Some(Token::BeginLoop),
        ']' => Some(Token::EndLoop),
        '`' => Some(Token::SetPort),
        '~' => Some(Token::Connect),
        '^' => Some(Token::SendData),
        'v' => Some(Token::RecieveData),
        '!' => Some(Token::Disconnect),
        '&' => Some(Token::SocketHandle),
        '%' => Some(Token::FlushWrites),
        '$' => Some(Token::SetTimeout),
        _ => None,
    }
}

/// The source character a token stands for; the inverse of `token_of_char`.
pub open spec fn char_of_token(t: Token) -> char {
    match t {
        Token::Left => '<',
        Token::Right => '>',
        Token::Inc => '+',
        Token::Dec => '-',
        Token::Print => '.',
        Token::Query => ',',
        Token::BeginLoop => '[',
        Token::EndLoop => ']',
        Token::SetPort => '`',
        Token::Connect => '~',
        Token::SendData => '^',
        Token::RecieveData => 'v',
        Token::Disconnect => '!',
        Token::SocketHandle => '&',
        Token::FlushWrites => '%',
        Token::SetTimeout => '$',
    }
}

impl Token {
    /// Maps one character to its token, or `None` for a comment character.
    pub fn tokenize(input: char) -> (r: Option<Token>)
        ensures
            r == token_of_char(input),
    {
        match input {
            '<' => Some(Token::Left),
            '>' => Some(Token::Right),
            '+' => Some(Token::Inc),
            '-' => Some(Token::Dec),
            '.' => Some(Token::Print),
            ',' => Some(Token::Query),
            '[' => Some(Token::BeginLoop),
            ']' => Some(Token::EndLoop),
            '`' => Some(Token::SetPort),
            '~' => Some(Token::Connect),
            '^' => Some(Token::SendData),
            'v' => Some(Token::RecieveData),
            '!' => Some(Token::Disconnect),
            '&' => Some(Token::SocketHandle),
            '%' => Some(Token::FlushWrites),
            '$' => Some(Token::SetTimeout),
            _ => None,
        }
    }
}

/// The token sequence of a source text: each character's token in order,
/// with comment characters dropped.
pub open spec fn tokens_of(s: Seq<char>) -> Seq<Token>
    decreases s.len(),
{
    if s.len() == 0 {
        Seq::empty()
    } else {
        tokens_of(s.drop_last()) + match token_of_char(s.last()) {
            Some(t) => seq![t],
            None => Seq::<Token>::empty(),
        }
    }
}

/// The two parse-time faults: a loop bracket with no partner.
#[derive(Debug, Clone, Copy, PartialEq, Eq, Structural)]
pub enum ParseError {
    MismatchedBeginLoop,
    MismatchedEndLoop,
}

/// One of the 15 operation kinds an instruction can carry; the two bracket
/// tokens collapse into the single `Loop` kind.
#[derive(Debug, Clone, Copy, PartialEq, Eq, Structural)]
pub enum OpCode {
    Left,
    Right,
    Inc,
    Dec,
    Print,
    Query,
    Loop,
    SetPort,
    Connect,
    SendData,
    RecieveData,
    Disconnect,
    SocketHandle,
    FlushWrites,
    SetTimeout,
}

/// One node of the instruction tree.  `amount` is a repeat count (at least 1)
/// for simple opcodes and fixed at 1 for `Loop`; `instructions` is the nested
/// body of a `Loop` and empty for every other opcode.
#[derive(Debug)]
pub struct Instruction {
    pub opcode: OpCode,
    pub amount: usize,
    pub instructions: Vec<Instruction>,
}

/// The opcode a non-bracket token folds into (brackets map to `Loop`).
pub open spec fn opcode_of_token(t: Token) -> OpCode {
    match t {
        Token::Left => OpCode::Left,
        Token::Right => OpCode::Right,
        Token::Inc => OpCode::Inc,
        Token::Dec => OpCode::Dec,
        Token::Print => OpCode::Print,
        Token::Query => OpCode::Query,
        Token::BeginLoop => OpCode::Loop,
        Token::EndLoop => OpCode::Loop,
        Token::SetPort => OpCode::SetPort,
        Token::Connect => OpCode::Connect,
        Token::SendData => OpCode::SendData,
        Token::RecieveData => OpCode::RecieveData,
        Token::Disconnect => OpCode::Disconnect,
        Token::SocketHandle => OpCode::SocketHandle,
        Token::FlushWrites => OpCode::FlushWrites,
        Token::SetTimeout => OpCode::SetTimeout,
    }
}

/// The token a simple (non-`Loop`) opcode came from.
pub open spec fn token_of_opcode(op: OpCode) -> Token {
    match op {
        OpCode::Left => Token::Left,
        OpCode::Right => Token::Right,
        OpCode::Inc => Token::Inc,
        OpCode::Dec => Token::Dec,
        OpCode::Print => Token::Print,
        OpCode::Query => Token::Query,
        OpCode::Loop => Token::BeginLoop,
        OpCode::SetPort => Token::SetPort,
        OpCode::Connect => Token::Connect,
        OpCode::SendData => Token::SendData,
        OpCode::RecieveData => Token::RecieveData,
        OpCode::Disconnect => Token::Disconnect,
        OpCode::SocketHandle => Token::SocketHandle,
        OpCode::FlushWrites => Token::FlushWrites,
        OpCode::SetTimeout => Token::SetTimeout,
    }
}

/// How many `BeginLoop` tokens a sequence holds.
pub open spec fn begin_count(toks: Seq<Token>) -> int
    decreases toks.len(),
{
    if toks.len() == 0 {
        0
    } else {
        begin_count(toks.drop_last()) + if toks.last() == Token::BeginLoop {
            1int
        } else {
            0int
        }
    }
}

/// How many `EndLoop` tokens a sequence holds.
pub open spec fn end_count(toks: Seq<Token>) -> int
    decreases toks.len(),
{
    if toks.len() == 0 {
        0
    } else {
        end_count(toks.drop_last()) + if toks.last() == Token::EndLoop {
            1int
        } else {
            0int
        }
    }
}

/// No prefix closes more loops than it has opened: scanning left to right,
/// the bracket depth never goes negative.
pub open spec fn depth_ok(toks: Seq<Token>) -> bool {
    forall|i: int|
        0 <= i <= toks.len() ==> end_count(#[trigger] toks.take(i)) <= begin_count(toks.take(i))
}

/// Brackets are properly nested: the depth never goes negative and every
/// opened loop is closed.
pub open spec fn balanced(toks: Seq<Token>) -> bool {
    depth_ok(toks) && begin_count(toks) == end_count(toks)
}

/// The token sequence an instruction expands back to: a simple opcode's
/// token repeated `amount` times; a loop's body wrapped in brackets.
pub open spec fn render_inst(inst: Instruction) -> Seq<Token>
    decreases inst,
{
    if inst.opcode == OpCode::Loop {
        seq![Token::BeginLoop] + render_list(inst.instructions@) + seq![Token::EndLoop]
    } else {
        Seq::new(inst.amount as nat, |k: int| token_of_opcode(inst.opcode))
    }
}

/// The token sequence an instruction list expands back to.
pub open spec fn render_list(l: Seq<Instruction>) -> Seq<Token>
    decreases l,
{
    if l.len() == 0 {
        Seq::empty()
    } else {
        render_list(l.drop_last()) + render_inst(l.last())
    }
}

/// Structural soundness of one instruction: a repeat count of at least 1,
/// an empty body for simple opcodes, and for `Loop` a count fixed at 1 and
/// a sound, maximally folded body.
pub open spec fn wf_inst(inst: Instruction) -> bool
    decreases inst,
{
    &&& inst.amount >= 1
    &&& if inst.opcode == OpCode::Loop {
        inst.amount == 1 && wf_list(inst.instructions@) && folded_list(inst.instructions@)
    } else {
        inst.instructions@.len() == 0
    }
}

/// Structural soundness of every instruction in a list.
pub open spec fn wf_list(l: Seq<Instruction>) -> bool
    decreases l,
{
    if l.len() == 0 {
        true
    } else {
        wf_list(l.drop_last()) && wf_inst(l.last())
    }
}

/// Two adjacent instructions that a maximally folded list may hold: never
/// two simple instructions with the same opcode side by side.
pub open spec fn folded_pair(a: Instruction, b: Instruction) -> bool {
    !(a.opcode != OpCode::Loop && b.opcode == a.opcode)
}

/// Runs of identical simple opcodes are folded as far as they go: no two
/// adjacent simple instructions share an opcode.
pub open spec fn folded_list(l: Seq<Instruction>) -> bool {
    forall|k: int| 0 <= k && k + 1 < l.len() ==> folded_pair(#[trigger] l[k], l[k + 1])
}

/// The characters a token sequence renders to.
pub open spec fn text_of(toks: Seq<Token>) -> Seq<char> {
    Seq::new(toks.len(), |i: int| char_of_token(toks[i]))
}

/// Every character of the text is one of the 16 recognized symbols.
pub open spec fn comment_free(s: Seq<char>) -> bool {
    forall|i: int| 0 <= i < s.len() ==> token_of_char(#[trigger] s[i]) is Some
}

proof fn lemma_count_push(s: Seq<Token>, t: Token)
    ensures
        begin_count(s.push(t)) == begin_count(s) + if t == Token::BeginLoop {
            1int
        } else {
            0int
        },
        end_count(s.push(t)) == end_count(s) + if t == Token::EndLoop {
            1int
        } else {
            0int
        },
{
    assert(s.push(t).drop_last() =~= s);
    assert(s.push(t).last() == t);
}

proof fn lemma_count_concat(a: Seq<Token>, b: Seq<Token>)
    ensures
        begin_count(a + b) == begin_count(a) + begin_count(b),
        end_count(a + b) == end_count(a) + end_count(b),
    decreases b.len(),
{
    if b.len() == 0 {
        assert(a + b =~= a);
    } else {
        lemma_count_concat(a, b.drop_last());
        assert((a + b).drop_last() =~= a + b.drop_last());
        assert((a + b).last() == b.last());
    }
}

proof fn lemma_take_push<T>(s: Seq<T>, i: int)
    requires
        0 <= i < s.len(),
    ensures
        s.take(i + 1) =~= s.take(i).push(s[i]),
{
}

/// Extending a sequence whose depth never goes negative keeps that property,
/// provided the new full sequence still has no excess of closers.
proof fn lemma_depth_ok_push(s: Seq<Token>, t: Token)
    requires
        depth_ok(s),
        end_count(s.push(t)) <= begin_count(s.push(t)),
    ensures
        depth_ok(s.push(t)),
{
    let e = s.push(t);
    assert forall|i: int| 0 <= i <= e.len() implies end_count(#[trigger] e.take(i)) <= begin_count(
        e.take(i),
    ) by {
        if i <= s.len() {
            assert(e.take(i) =~= s.take(i));
        } else {
            assert(e.take(i) =~= e);
        }
    }
}

proof fn lemma_render_push(l: Seq<Instruction>, inst: Instruction)
    ensures
        render_list(l.push(inst)) == render_list(l) + render_inst(inst),
{
    assert(l.push(inst).drop_last() =~= l);
    assert(l.push(inst).last() == inst);
}

proof fn lemma_wf_push(l: Seq<Instruction>, inst: Instruction)
    requires
        wf_list(l),
        wf_inst(inst),
    ensures
        wf_list(l.push(inst)),
{
    assert(l.push(inst).drop_last() =~= l);
    assert(l.push(inst).last() == inst);
}

proof fn lemma_folded_push(l: Seq<Instruction>, inst: Instruction)
    requires
        folded_list(l),
        l.len() == 0 || folded_pair(l.last(), inst),
    ensures
        folded_list(l.push(inst)),
{
    let e = l.push(inst);
    assert forall|k: int| 0 <= k && k + 1 < e.len() implies folded_pair(#[trigger] e[k], e[k + 1]) by {
        if k + 1 < l.len() {
            assert(e[k] == l[k] && e[k + 1] == l[k + 1]);
        } else {
            assert(e[k] == l.last() && e[k + 1] == inst);
        }
    }
}

proof fn lemma_count_bounds(s: Seq<Token>)
    ensures
        0 <= begin_count(s) <= s.len(),
        0 <= end_count(s) <= s.len(),
    decreases s.len(),
{
    if s.len() > 0 {
        lemma_count_bounds(s.drop_last());
    }
}

proof fn lemma_count_singleton(t: Token)
    ensures
        begin_count(seq![t]) == if t == Token::BeginLoop {
            1int
        } else {
            0int
        },
        end_count(seq![t]) == if t == Token::EndLoop {
            1int
        } else {
            0int
        },
{
    assert(seq![t].drop_last() =~= Seq::<Token>::empty());
    assert(begin_count(Seq::<Token>::empty()) == 0);
    assert(end_count(Seq::<Token>::empty()) == 0);
    assert(seq![t].last() == t);
}

proof fn lemma_balanced_push_simple(s: Seq<Token>, t: Token)
    requires
        balanced(s),
        t != Token::BeginLoop,
        t != Token::EndLoop,
    ensures
        balanced(s.push(t)),
{
    lemma_count_push(s, t);
    lemma_depth_ok_push(s, t);
}

/// A closing bracket right after a balanced prefix leaves the whole
/// sequence with a prefix that closes more loops than it opened.
proof fn lemma_excess_end(s: Seq<Token>, i: int)
    requires
        0 <= i < s.len(),
        balanced(s.take(i)),
        s[i] == Token::EndLoop,
    ensures
        !depth_ok(s),
{
    lemma_take_push(s, i);
    lemma_count_push(s.take(i), s[i]);
    assert(end_count(s.take(i + 1)) > begin_count(s.take(i + 1)));
}

/// An opening bracket after a balanced prefix, followed only by tokens that
/// never close it, leaves the sequence well-prefixed but unbalanced.
proof fn lemma_depth_ok_open(a: Seq<Token>, m: Seq<Token>)
    requires
        balanced(a),
        depth_ok(m),
    ensures
        depth_ok(a + seq![Token::BeginLoop] + m),
        begin_count(a + seq![Token::BeginLoop] + m) > end_count(a + seq![Token::BeginLoop] + m),
{
    let w = a + seq![Token::BeginLoop] + m;
    lemma_count_concat(a + seq![Token::BeginLoop], m);
    lemma_count_concat(a, seq![Token::BeginLoop]);
    lemma_count_singleton(Token::BeginLoop);
    assert(m.take(m.len() as int) =~= m);
    assert forall|i: int| 0 <= i <= w.len() implies end_count(#[trigger] w.take(i)) <= begin_count(
        w.take(i),
    ) by {
        if i <= a.len() {
            assert(w.take(i) =~= a.take(i));
        } else {
            let k = i - a.len() - 1;
            assert(w.take(i) =~= a + seq![Token::BeginLoop] + m.take(k));
            lemma_count_concat(a + seq![Token::BeginLoop], m.take(k));
            assert(end_count(m.take(k)) <= begin_count(m.take(k)));
        }
    }
}

/// A balanced body wrapped in brackets, appended to a balanced prefix,
/// is balanced as a whole.
proof fn lemma_balanced_wrap(a: Seq<Token>, m: Seq<Token>)
    requires
        balanced(a),
        balanced(m),
    ensures
        balanced(a + seq![Token::BeginLoop] + m + seq![Token::EndLoop]),
{
    let v = a + seq![Token::BeginLoop] + m;
    let w = v + seq![Token::EndLoop];
    lemma_depth_ok_open(a, m);
    lemma_count_concat(v, seq![Token::EndLoop]);
    lemma_count_singleton(Token::EndLoop);
    lemma_count_concat(a + seq![Token::BeginLoop], m);
    lemma_count_concat(a, seq![Token::BeginLoop]);
    lemma_count_singleton(Token::BeginLoop);
    assert forall|i: int| 0 <= i <= w.len() implies end_count(#[trigger] w.take(i)) <= begin_count(
        w.take(i),
    ) by {
        if i <= v.len() {
            assert(w.take(i) =~= v.take(i));
        } else {
            assert(w.take(i) =~= w);
        }
    }
}

/// The token run a pending accumulator will flush to: the pending opcode's
/// token repeated `n` times, or nothing when no run is pending.
pub open spec fn pend_render(pending: Option<OpCode>, n: nat) -> Seq<Token> {
    match pending {
        Some(op) => Seq::new(n, |k: int| token_of_opcode(op)),
        None => Seq::empty(),
    }
}

fn opcode_for(t: Token) -> (op: OpCode)
    requires
        t != Token::BeginLoop,
        t != Token::EndLoop,
    ensures
        op == opcode_of_token(t),
        op != OpCode::Loop,
        token_of_opcode(op) == t,
{
    match t {
        Token::Left => OpCode::Left,
        Token::Right => OpCode::Right,
        Token::Inc => OpCode::Inc,
        Token::Dec => OpCode::Dec,
        Token::Print => OpCode::Print,
        Token::Query => OpCode::Query,
        Token::BeginLoop => OpCode::Loop,
        Token::EndLoop => OpCode::Loop,
        Token::SetPort => OpCode::SetPort,
        Token::Connect => OpCode::Connect,
        Token::SendData => OpCode::SendData,
        Token::RecieveData => OpCode::RecieveData,
        Token::Disconnect => OpCode::Disconnect,
        Token::SocketHandle => OpCode::SocketHandle,
        Token::FlushWrites => OpCode::FlushWrites,
        Token::SetTimeout => OpCode::SetTimeout,
    }
}

/// Appends the pending run as one completed instruction.
fn flush_pending(instructions: &mut Vec<Instruction>, op: OpCode, amount: usize)
    requires
        op != OpCode::Loop,
        amount >= 1,
        wf_list(old(instructions)@),
        folded_list(old(instructions)@),
        old(instructions)@.len() == 0 || old(instructions)@.last().opcode == OpCode::Loop || old(
            instructions,
        )@.last().opcode != op,
    ensures
        wf_list(final(instructions)@),
        folded_list(final(instructions)@),
        render_list(final(instructions)@) == render_list(old(instructions)@) + pend_render(
            Some(op),
            amount as nat,
        ),
        final(instructions)@.len() == old(instructions)@.len() + 1,
        final(instructions)@.last().opcode == op,
{
    let inst = Instruction { opcode: op, amount, instructions: Vec::new() };
    let ghost pre = instructions@;
    let ghost g = inst;
    instructions.push(inst);
    proof {
        lemma_render_push(pre, g);
        lemma_wf_push(pre, g);
        lemma_folded_push(pre, g);
        assert(render_inst(g) =~= pend_render(Some(op), amount as nat));
    }
}

/// Builds the instruction tree for a token sequence: folds runs of identical
/// simple tokens into counted instructions and resolves bracketed regions
/// into nested `Loop` instructions.
///
/// Succeeds exactly on balanced bracket sequences; the tree then renders
/// back to the input, is structurally sound, and is maximally folded.
/// Fails with `MismatchedEndLoop` exactly when some prefix holds an excess
/// `]`, and with `MismatchedBeginLoop` exactly when the depth never goes
/// negative but some `[` is never closed.
pub fn to_instructions(tokens: Vec<Token>) -> (r: Result<Vec<Instruction>, ParseError>)
    ensures
        match r {
            Ok(instrs) => {
                &&& balanced(tokens@)
                &&& render_list(instrs@) == tokens@
                &&& wf_list(instrs@)
                &&& folded_list(instrs@)
            },
            Err(ParseError::MismatchedEndLoop) => !depth_ok(tokens@),
            Err(ParseError::MismatchedBeginLoop) => depth_ok(tokens@) && !balanced(tokens@),
        },
    decreases tokens@.len(),
{
    let mut instructions: Vec<Instruction> = Vec::new();
    let mut index: usize = 0;
    let mut last_opcode: Option<OpCode> = None;
    let mut opcode_amount: usize = 1;

    while index < tokens.len()
        invariant
            index <= tokens@.len(),
            wf_list(instructions@),
            folded_list(instructions@),
            balanced(tokens@.take(index as int)),
            render_list(instructions@) + pend_render(last_opcode, opcode_amount as nat)
                == tokens@.take(index as int),
            match last_opcode {
                Some(op) => op != OpCode::Loop && 1 <= opcode_amount && opcode_amount <= index && (
                instructions@.len() == 0 || instructions@.last().opcode == OpCode::Loop
                    || instructions@.last().opcode != op),
                None => instructions@.len() == 0 || instructions@.last().opcode == OpCode::Loop,
            },
        decreases tokens@.len() - index,
    {
        let token = tokens[index];
        if token == Token::BeginLoop {
            match last_opcode {
                Some(op) => {
                    flush_pending(&mut instructions, op, opcode_amount);
                    last_opcode = None;
                    opcode_amount = 1;
                }
                None => {},
            }
            let mut depth: usize = 1;
            let mut j: usize = index + 1;
            let mut loop_tokens: Vec<Token> = Vec::new();
            loop
                invariant_except_break
                    depth >= 1,
                    depth as int == 1 + begin_count(loop_tokens@) - end_count(loop_tokens@),
                invariant
                    index < tokens@.len(),
                    tokens@[index as int] == Token::BeginLoop,
                    index + 1 <= j <= tokens@.len(),
                    loop_tokens@ == tokens@.subrange(index as int + 1, j as int),
                    depth_ok(loop_tokens@),
                    balanced(tokens@.take(index as int)),
                ensures
                    j < tokens@.len(),
                    tokens@[j as int] == Token::EndLoop,
                    loop_tokens@ == tokens@.subrange(index as int + 1, j as int),
                    balanced(loop_tokens@),
                decreases tokens@.len() - j,
            {
                proof {
                    lemma_count_bounds(loop_tokens@);
                }
                if j >= tokens.len() {
                    proof {
                        assert(loop_tokens@.take(loop_tokens@.len() as int) =~= loop_tokens@);
                        lemma_depth_ok_open(tokens@.take(index as int), loop_tokens@);
                        assert(tokens@ =~= tokens@.take(index as int) + seq![Token::BeginLoop]
                            + loop_tokens@);
                    }
                    return Err(ParseError::MismatchedBeginLoop);
                }
                let t = tokens[j];
                if t == Token::BeginLoop {
                    depth = depth + 1;
                } else if t == Token::EndLoop {
                    depth = depth - 1;
                }
                if depth == 0 {
                    break ;
                }
                let ghost pre_lt = loop_tokens@;
                loop_tokens.push(t);
                proof {
                    lemma_count_push(pre_lt, t);
                    lemma_depth_ok_push(pre_lt, t);
                    assert(loop_tokens@ =~= tokens@.subrange(index as int + 1, j as int + 1));
                }
                j = j + 1;
            }
            let ghost lt = loop_tokens@;
            let children = match to_instructions(loop_tokens) {
                Ok(c) => c,
                Err(e) => {
                    return Err(e);
                },
            };
            let ghost pre = instructions@;
            let inst = Instruction { opcode: OpCode::Loop, amount: 1, instructions: children };
            let ghost g = inst;
            instructions.push(inst);
            proof {
                lemma_render_push(pre, g);
                lemma_wf_push(pre, g);
                lemma_folded_push(pre, g);
                lemma_balanced_wrap(tokens@.take(index as int), lt);
                assert(tokens@.take(j as int + 1) =~= tokens@.take(index as int)
                    + seq![Token::BeginLoop] + lt + seq![Token::EndLoop]);
            }
            index = j + 1;
        } else if token == Token::EndLoop {
            proof {
                lemma_excess_end(tokens@, index as int);
            }
            return Err(ParseError::MismatchedEndLoop);
        } else {
            let op = opcode_for(token);
            proof {
                lemma_take_push(tokens@, index as int);
                lemma_balanced_push_simple(tokens@.take(index as int), token);
            }
            match last_opcode {
                None => {
                    last_opcode = Some(op);
                    opcode_amount = 1;
                    proof {
                        assert(render_list(instructions@) + pend_render(Some(op), 1nat)
                            =~= tokens@.take(index as int + 1));
                    }
                },
                Some(prev) => {
                    if prev == op {
                        proof {
                            assert(render_list(instructions@) + pend_render(
                                Some(op),
                                (opcode_amount + 1) as nat,
                            ) =~= tokens@.take(index as int + 1));
                        }
                        opcode_amount = opcode_amount + 1;
                    } else {
                        flush_pending(&mut instructions, prev, opcode_amount);
                        last_opcode = Some(op);
                        opcode_amount = 1;
                        proof {
                            assert(render_list(instructions@) + pend_render(Some(op), 1nat)
                                =~= tokens@.take(index as int + 1));
                        }
                    }
                },
            }
            index = index + 1;
        }
    }
    match last_opcode {
        Some(op) => {
            flush_pending(&mut instructions, op, opcode_amount);
        },
        None => {},
    }
    proof {
        assert(tokens@.take(tokens@.len() as int) =~= tokens@);
        assert(render_list(instructions@) =~= render_list(instructions@) + Seq::<Token>::empty());
    }
    Ok(instructions)
}

/// Maps a source text to its token sequence, dropping comment characters.
pub fn tokenize(input: &str) -> (r: Vec<Token>)
    ensures
        r@ == tokens_of(input@),
{
    let mut tokens: Vec<Token> = Vec::new();
    for c in it: input.chars()
        invariant
            it.seq() == input@,
            tokens@ == tokens_of(input@.take(it.index() as int)),
    {
        let ghost k = it.index() as int;
        proof {
            assert(input@.take(k + 1).drop_last() =~= input@.take(k));
            assert(input@.take(k + 1).last() == input@[k]);
        }
        match Token::tokenize(c) {
            Some(t) => {
                tokens.push(t);
                proof {
                    assert(tokens@ =~= tokens_of(input@.take(k)) + seq![t]);
                }
            },
            None => {
                proof {
                    assert(tokens@ =~= tokens_of(input@.take(k)) + Seq::<Token>::empty());
                }
            },
        }
    }
    proof {
        assert(input@.take(input@.len() as int) =~= input@);
    }
    tokens
}

/// Parses a source text into an instruction tree: tokenizes, then builds.
/// Succeeds exactly when the text's brackets are properly nested; errors
/// are exactly those of `to_instructions` on the text's tokens.
pub fn parse(input: &str) -> (r: Result<Vec<Instruction>, ParseError>)
    ensures
        match r {
            Ok(instrs) => {
                &&& balanced(tokens_of(input@))
                &&& render_list(instrs@) == tokens_of(input@)
                &&& wf_list(instrs@)
                &&& folded_list(instrs@)
            },
            Err(ParseError::MismatchedEndLoop) => !depth_ok(tokens_of(input@)),
            Err(ParseError::MismatchedBeginLoop) => depth_ok(tokens_of(input@)) && !balanced(
                tokens_of(input@),
            ),
        },
{
    let tokens = tokenize(input);
    to_instructions(tokens)
}

/// Relies on String::push: appends one character at the end of the string.
#[verifier::external_body]
fn push_char(s: &mut String, c: char)
    ensures
        final(s)@ == old(s)@.push(c),
{
    s.push(c);
}

fn char_for(op: OpCode) -> (c: char)
    requires
        op != OpCode::Loop,
    ensures
        c == char_of_token(token_of_opcode(op)),
{
    match op {
        OpCode::Left => '<',
        OpCode::Right => '>',
        OpCode::Inc => '+',
        OpCode::Dec => '-',
        OpCode::Print => '.',
        OpCode::Query => ',',
        OpCode::Loop => '[',
        OpCode::SetPort => '`',
        OpCode::Connect => '~',
        OpCode::SendData => '^',
        OpCode::RecieveData => 'v',
        OpCode::Disconnect => '!',
        OpCode::SocketHandle => '&',
        OpCode::FlushWrites => '%',
        OpCode::SetTimeout => '$',
    }
}

/// Appends the canonical text of an instruction list to `out`.
fn render_text(out: &mut String, l: &Vec<Instruction>)
    ensures
        final(out)@ == old(out)@ + text_of(render_list(l@)),
    decreases l@,
{
    let ghost base0 = old(out)@;
    let mut i: usize = 0;
    proof {
        assert(out@ =~= base0 + text_of(render_list(l@.take(0))));
    }
    while i < l.len()
        invariant
            i <= l@.len(),
            out@ == base0 + text_of(render_list(l@.take(i as int))),
        decreases l@.len() - i,
    {
        let ghost pre = l@.take(i as int);
        proof {
            lemma_take_push(l@, i as int);
            lemma_render_push(pre, l@[i as int]);
        }
        let op = l[i].opcode;
        let amt = l[i].amount;
        if op == OpCode::Loop {
            let ghost mid0 = out@;
            push_char(out, '[');
            render_text(out, &l[i].instructions);
            push_char(out, ']');
            proof {
                assert(out@ =~= base0 + text_of(render_list(l@.take(i as int + 1))));
            }
        } else {
            let ch = char_for(op);
            let ghost mid0 = out@;
            let mut n: usize = 0;
            proof {
                assert(out@ =~= mid0 + Seq::new(0nat, |q: int| ch));
            }
            while n < amt
                invariant
                    n <= amt,
                    ch == char_of_token(token_of_opcode(op)),
                    out@ == mid0 + Seq::new(n as nat, |q: int| ch),
                decreases amt - n,
            {
                push_char(out, ch);
                proof {
                    assert(out@ =~= mid0 + Seq::new((n + 1) as nat, |q: int| ch));
                }
                n = n + 1;
            }
            proof {
                assert(Seq::new(amt as nat, |q: int| ch) =~= text_of(render_inst(l@[i as int])));
                assert(out@ =~= base0 + text_of(render_list(l@.take(i as int + 1))));
            }
        }
        i = i + 1;
    }
    proof {
        assert(l@.take(l@.len() as int) =~= l@);
    }
}

/// Renders an instruction tree back to canonical source text: every counted
/// instruction expands to its character repeated `amount` times, and a loop
/// to its body's text wrapped in brackets.
pub fn reconstruct(instructions: Vec<Instruction>) -> (r: String)
    ensures
        r@ == text_of(render_list(instructions@)),
{
    let mut out = String::new();
    render_text(&mut out, &instructions);
    proof {
        assert(out@ =~= text_of(render_list(instructions@)));
    }
    out
}

proof fn lemma_text_tokens_round_trip(s: Seq<char>)
    requires
        comment_free(s),
    ensures
        text_of(tokens_of(s)) == s,
    decreases s.len(),
{
    if s.len() == 0 {
        assert(text_of(tokens_of(s)) =~= s);
    } else {
        let sp = s.drop_last();
        let c = s.last();
        assert(token_of_char(s[s.len() - 1]) is Some);
        assert(comment_free(sp)) by {
            assert(forall|i: int| 0 <= i < sp.len() ==> #[trigger] sp[i] == s[i]);
        }
        lemma_text_tokens_round_trip(sp);
        let t = token_of_char(c)->Some_0;
        assert(char_of_token(t) == c);
        let a = tokens_of(sp);
        assert(tokens_of(s) == a + seq![t]);
        assert(text_of(a + seq![t]) =~= text_of(a) + text_of(seq![t]));
        assert(text_of(seq![t]) =~= seq![c]);
        assert(sp + seq![c] =~= s);
        assert(text_of(tokens_of(s)) =~= s);
    }
}

/// Round-trip law: an instruction tree whose rendering is the token
/// sequence of a comment-free source text renders back, as characters,
/// to that text exactly.  Together with the contracts of `parse` and
/// `reconstruct`, this says `reconstruct(parse(s))` reproduces `s` for
/// every comment-free source text that parses.
pub proof fn lemma_parse_round_trip(input: Seq<char>, instrs: Seq<Instruction>)
    requires
        comment_free(input),
        render_list(instrs) == tokens_of(input),
    ensures
        text_of(render_list(instrs)) == input,
{
    lemma_text_tokens_round_trip(input);
}

} // verus!
