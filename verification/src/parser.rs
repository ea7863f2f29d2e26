//! The assembler's parser: two passes over the tokens. The first assigns
//! each label the address it will have in program memory; the second groups
//! the tokens of each instruction and builds the operation, replacing labels
//! with their addresses.

use vstd::prelude::*;

use crate::isa::{Mneumonics, Operand, OperandInner, Operation, Register};
use crate::lexer::{tokens_view, Token, TokenV};
use crate::listing::program_code;
use crate::text::{parse_u16, spec_parse_u16, str_eq};

verus! {

/// Bytes of the mneumonic in machine code.
pub const MNEUMONIC_SIZE: u16 = 1;

/// Bytes of the metadata in machine code.
pub const METADATA_SIZE: u16 = 1;

/// Bytes of a literal operand in machine code.
pub const LITERAL_SIZE: u16 = 2;

/// Bytes of a register operand in machine code.
pub const REGISTER_SIZE: u16 = 2;

/// Where program memory, and so the first instruction, begins.
pub const PROGRAM_START: u16 = 0xF000;

/// The bytes a token adds to the program.
pub open spec fn token_size(t: TokenV) -> int {
    match t {
        TokenV::Register(_) => REGISTER_SIZE as int,
        TokenV::Immediate(_) | TokenV::LabelInvoc(_) => LITERAL_SIZE as int,
        TokenV::Mneumonic(_) => (MNEUMONIC_SIZE + METADATA_SIZE) as int,
        _ => 0,
    }
}

/// The label table and location counter after the first `n` tokens: each
/// label is bound to the location where it is declared (a later declaration
/// of the same name wins).
pub open spec fn first_pass(toks: Seq<TokenV>, n: int) -> (Map<Seq<char>, u16>, int)
    decreases n,
{
    if n <= 0 {
        (Map::empty(), PROGRAM_START as int)
    } else {
        let (m, lc) = first_pass(toks, n - 1);
        match toks[n - 1] {
            TokenV::LabelDecl(name) => (m.insert(name, lc as u16), lc),
            t => (m, lc + token_size(t)),
        }
    }
}

/// The location counter never decreases.
pub proof fn lemma_first_pass_mono(toks: Seq<TokenV>, i: int, j: int)
    requires
        0 <= i <= j,
    ensures
        first_pass(toks, i).1 <= first_pass(toks, j).1,
    decreases j - i,
{
    if i < j {
        lemma_first_pass_mono(toks, i, j - 1);
    }
}

/// The operand a token stands for, dereferenced or not.
pub open spec fn operand_of(t: TokenV, table: Map<Seq<char>, u16>, deref: bool) -> Option<Operand> {
    let inner = match t {
        TokenV::LabelInvoc(n) => if table.contains_key(n) {
            Some(OperandInner::Literal(table[n]))
        } else {
            None
        },
        TokenV::Register(n) => match Register::spec_from_name(n) {
            Some(r) => Some(OperandInner::Register(r)),
            None => None,
        },
        TokenV::Immediate(v) => match spec_parse_u16(v) {
            Some(w) => Some(OperandInner::Literal(w)),
            None => None,
        },
        _ => None,
    };
    match inner {
        Some(i) => if deref {
            Some(Operand::LValue(i))
        } else {
            Some(Operand::RValue(i))
        },
        None => None,
    }
}

/// The operands of an instruction's tokens from position `j` on, each
/// followed by a comma or the end.
pub open spec fn eval_args(
    st: Seq<TokenV>,
    j: int,
    table: Map<Seq<char>, u16>,
    args: Seq<Operand>,
) -> Option<Seq<Operand>>
    decreases st.len() - j,
{
    if j < 0 || j >= st.len() {
        Some(args)
    } else {
        let next = if st[j] is Deref {
            j + 2
        } else {
            j + 1
        };
        let arg = if st[j] is Deref {
            if j + 1 >= st.len() {
                None
            } else {
                operand_of(st[j + 1], table, true)
            }
        } else {
            operand_of(st[j], table, false)
        };
        match arg {
            None => None,
            Some(a) => if next >= st.len() {
                Some(args.push(a))
            } else if !(st[next] is Comma) {
                None
            } else {
                eval_args(st, next + 1, table, args.push(a))
            },
        }
    }
}

/// The operation with mneumonic `m`, given exactly as many operands as it takes.
pub open spec fn build_op(m: Mneumonics, args: Seq<Operand>) -> Option<Operation> {
    if args.len() != m.spec_num_args() {
        None
    } else {
        Some(Operation::spec_from_parts(m, args))
    }
}

/// The operation that an instruction's tokens make: a mneumonic, then its
/// operands separated by commas.
pub open spec fn eval_stack(st: Seq<TokenV>, table: Map<Seq<char>, u16>) -> Option<Operation> {
    if st.len() == 0 {
        None
    } else {
        match st[0] {
            TokenV::Mneumonic(name) => match Mneumonics::spec_from_name(name) {
                Some(m) => match eval_args(st, 1, table, seq![]) {
                    Some(args) => build_op(m, args),
                    None => None,
                },
                None => None,
            },
            _ => None,
        }
    }
}

/// A token that can begin an operand.
pub open spec fn is_operand_tok(t: TokenV) -> bool {
    t is Register || t is Immediate || t is LabelInvoc || t is Deref
}

/// A token that names a value.
pub open spec fn is_value_tok(t: TokenV) -> bool {
    t is Register || t is Immediate || t is LabelInvoc
}

/// One step of the second pass: the stack and the operations after token
/// `t`, or `None` where the pass stops on it. A token that continues the
/// instruction on the stack is pushed; a mneumonic or a label declaration
/// after a whole instruction builds its operation first; comments are
/// skipped.
pub open spec fn pass2_step(
    t: TokenV,
    stack: Seq<TokenV>,
    table: Map<Seq<char>, u16>,
    acc: Seq<Operation>,
) -> Option<(Seq<TokenV>, Seq<Operation>)> {
    if stack.len() == 0 {
        if t is LabelDecl || t is Comment {
            Some((stack, acc))
        } else if t is Mneumonic {
            Some((seq![t], acc))
        } else {
            None
        }
    } else {
        let top = stack.last();
        if top is Comma {
            if is_operand_tok(t) {
                Some((stack.push(t), acc))
            } else {
                None
            }
        } else if top is Mneumonic || is_value_tok(top) {
            if (top is Mneumonic && is_operand_tok(t)) || (is_value_tok(top) && t is Comma) {
                Some((stack.push(t), acc))
            } else if t is Mneumonic {
                match eval_stack(stack, table) {
                    Some(op) => Some((seq![t], acc.push(op))),
                    None => None,
                }
            } else if t is LabelDecl {
                match eval_stack(stack, table) {
                    Some(op) => Some((seq![], acc.push(op))),
                    None => None,
                }
            } else if t is Comment {
                Some((stack, acc))
            } else {
                None
            }
        } else if top is Deref {
            if is_value_tok(t) {
                Some((stack.push(t), acc))
            } else {
                None
            }
        } else {
            None
        }
    }
}

/// The second pass from token `i` on, with the tokens of the current
/// instruction on `stack`, having built `acc`; at the end the instruction on
/// the stack is built.
pub open spec fn pass2(
    toks: Seq<TokenV>,
    i: int,
    stack: Seq<TokenV>,
    table: Map<Seq<char>, u16>,
    acc: Seq<Operation>,
) -> Option<Seq<Operation>>
    decreases toks.len() - i,
{
    if i < 0 || i >= toks.len() {
        match eval_stack(stack, table) {
            Some(op) => Some(acc.push(op)),
            None => None,
        }
    } else {
        match pass2_step(toks[i], stack, table, acc) {
            Some((s2, a2)) => pass2(toks, i + 1, s2, table, a2),
            None => None,
        }
    }
}

/// What parsing a token sequence gives; `None` where the parser stops on it
/// (the program outgrows program memory, or a token is out of place, or an
/// instruction is malformed).
pub open spec fn spec_parse(toks: Seq<TokenV>) -> Option<Seq<Operation>> {
    let (table, lc) = first_pass(toks, toks.len() as int);
    if lc > u16::MAX {
        None
    } else {
        pass2(toks, 0, seq![], table, seq![])
    }
}

/// The label table built by binding `names[i]` to `addrs[i]` in order.
pub open spec fn labels_map(names: Seq<Seq<char>>, addrs: Seq<u16>) -> Map<Seq<char>, u16>
    decreases names.len(),
{
    if names.len() == 0 || addrs.len() == 0 {
        Map::empty()
    } else {
        labels_map(names.drop_last(), addrs.drop_last()).insert(names.last(), addrs.last())
    }
}

pub open spec fn names_view(v: Seq<String>) -> Seq<Seq<char>> {
    v.map_values(|s: String| s@)
}

/// The address bound to `key`: the last binding of it.
fn lookup_label(names: &Vec<String>, addrs: &Vec<u16>, key: &str) -> (r: Option<u16>)
    requires
        names@.len() == addrs@.len(),
    ensures
        match r {
            Some(a) => labels_map(names_view(names@), addrs@).contains_key(key@) && labels_map(
                names_view(names@),
                addrs@,
            )[key@] == a,
            None => !labels_map(names_view(names@), addrs@).contains_key(key@),
        },
{
    let mut j = names.len();
    assert(names@.take(j as int) =~= names@);
    assert(addrs@.take(j as int) =~= addrs@);
    while j > 0
        invariant
            j <= names@.len(),
            names@.len() == addrs@.len(),
            labels_map(names_view(names@), addrs@).contains_key(key@) == labels_map(
                names_view(names@.take(j as int)),
                addrs@.take(j as int),
            ).contains_key(key@),
            labels_map(names_view(names@), addrs@).contains_key(key@) ==> labels_map(
                names_view(names@),
                addrs@,
            )[key@] == labels_map(names_view(names@.take(j as int)), addrs@.take(j as int))[key@],
        decreases j,
    {
        let ghost nv = names_view(names@.take(j as int));
        let ghost av = addrs@.take(j as int);
        assert(nv.drop_last() =~= names_view(names@.take(j - 1)));
        assert(av.drop_last() =~= addrs@.take(j - 1));
        if str_eq(names[j - 1].as_str(), key) {
            return Some(addrs[j - 1]);
        }
        j = j - 1;
    }
    assert(names_view(names@.take(0)) =~= Seq::<Seq<char>>::empty());
    None
}

/// The operand a token stands for, or `None`.
fn operand_from_token(t: &Token, names: &Vec<String>, addrs: &Vec<u16>, deref: bool) -> (r: Option<
    Operand,
>)
    requires
        names@.len() == addrs@.len(),
    ensures
        r == operand_of(t@, labels_map(names_view(names@), addrs@), deref),
{
    let inner = match t {
        Token::LabelInvoc(name) => match lookup_label(names, addrs, name.as_str()) {
            Some(a) => OperandInner::Literal(a),
            None => {
                return None;
            },
        },
        Token::Register(name) => match Register::try_from_str(name.as_str()) {
            Ok(r) => OperandInner::Register(r),
            Err(_) => {
                return None;
            },
        },
        Token::Immediate(value) => match parse_u16(value.as_str()) {
            Some(w) => OperandInner::Literal(w),
            None => {
                return None;
            },
        },
        _ => {
            return None;
        },
    };
    if deref {
        Some(Operand::LValue(inner))
    } else {
        Some(Operand::RValue(inner))
    }
}

/// Builds the operation that the tokens at `stack` (indices into `toks`) make.
fn evaluate_token_stack(
    toks: &Vec<Token>,
    stack: &Vec<usize>,
    names: &Vec<String>,
    addrs: &Vec<u16>,
) -> (r: Option<Operation>)
    requires
        names@.len() == addrs@.len(),
        forall|k: int| 0 <= k < stack@.len() ==> #[trigger] stack@[k] < toks@.len(),
    ensures
        r == eval_stack(
            stack@.map_values(|k: usize| toks@[k as int]@),
            labels_map(names_view(names@), addrs@),
        ),
{
    let ghost st = stack@.map_values(|k: usize| toks@[k as int]@);
    let ghost table = labels_map(names_view(names@), addrs@);
    if stack.len() == 0 {
        return None;
    }
    let m = match &toks[stack[0]] {
        Token::Mneumonic(name) => match Mneumonics::try_from_str(name.as_str()) {
            Some(m) => m,
            None => {
                return None;
            },
        },
        _ => {
            return None;
        },
    };
    let mut args: Vec<Operand> = Vec::new();
    let mut j: usize = 1;
    while j < stack.len()
        invariant
            1 <= j,
            names@.len() == addrs@.len(),
            forall|k: int| 0 <= k < stack@.len() ==> #[trigger] stack@[k] < toks@.len(),
            st == stack@.map_values(|k: usize| toks@[k as int]@),
            table == labels_map(names_view(names@), addrs@),
            eval_args(st, 1, table, seq![]) == eval_args(st, j as int, table, args@),
        decreases stack@.len() - j,
    {
        let t = &toks[stack[j]];
        let (arg, next) = match t {
            Token::Deref => {
                if j + 1 >= stack.len() {
                    return None;
                }
                (operand_from_token(&toks[stack[j + 1]], names, addrs, true), j + 2)
            },
            _ => (operand_from_token(t, names, addrs, false), j + 1),
        };
        let a = match arg {
            Some(a) => a,
            None => {
                return None;
            },
        };
        if next < stack.len() {
            match &toks[stack[next]] {
                Token::Comma => {},
                _ => {
                    return None;
                },
            }
        }
        args.push(a);
        if next < stack.len() {
            j = next + 1;
        } else {
            j = next;
        }
    }
    let ghost done = eval_args(st, j as int, table, args@);
    assert(done == Some(args@));
    if args.len() != m.num_args() {
        return None;
    }
    let op = match m {
        Mneumonics::Add => Operation::Add(args[0], args[1]),
        Mneumonics::Sub => Operation::Sub(args[0], args[1]),
        Mneumonics::Mov => Operation::Mov(args[0], args[1]),
        Mneumonics::Jmp => Operation::Jmp(args[0]),
        Mneumonics::Cmp => Operation::Cmp(args[0], args[1]),
        Mneumonics::Jeq => Operation::Jeq(args[0]),
        Mneumonics::Jne => Operation::Jne(args[0]),
        Mneumonics::Psh => Operation::Psh(args[0]),
        Mneumonics::Pop => Operation::Pop(args[0]),
        Mneumonics::End => Operation::End,
        Mneumonics::Cal => Operation::Cal(args[0]),
        Mneumonics::Ret => Operation::Ret,
        Mneumonics::Sys => Operation::Sys(args[0]),
    };
    Some(op)
}

/// Parses tokens into operations; `None` where the parser stops (see `spec_parse`).
pub fn parse_checked(tokens: &Vec<Token>) -> (r: Option<Vec<Operation>>)
    ensures
        match r {
            Some(ops) => spec_parse(tokens_view(tokens@)) == Some(ops@),
            None => spec_parse(tokens_view(tokens@)) is None,
        },
{
    let ghost toks = tokens_view(tokens@);
    // First pass: the label table.
    let mut names: Vec<String> = Vec::new();
    let mut addrs: Vec<u16> = Vec::new();
    let mut lc: u16 = PROGRAM_START;
    let mut i: usize = 0;
    assert(names_view(names@) =~= Seq::<Seq<char>>::empty());
    while i < tokens.len()
        invariant
            i <= tokens@.len(),
            toks == tokens_view(tokens@),
            names@.len() == addrs@.len(),
            first_pass(toks, i as int) == (labels_map(names_view(names@), addrs@), lc as int),
        decreases tokens@.len() - i,
    {
        let ghost n0 = names_view(names@);
        let ghost a0 = addrs@;
        match &tokens[i] {
            Token::LabelDecl(name) => {
                names.push(name.clone());
                addrs.push(lc);
                assert(names_view(names@).drop_last() =~= n0);
                assert(addrs@.drop_last() =~= a0);
            },
            t => {
                let size: u16 = match t {
                    Token::Register(_) => REGISTER_SIZE,
                    Token::Immediate(_) | Token::LabelInvoc(_) => LITERAL_SIZE,
                    Token::Mneumonic(_) => MNEUMONIC_SIZE + METADATA_SIZE,
                    _ => 0,
                };
                if lc > u16::MAX - size {
                    proof {
                        lemma_first_pass_mono(toks, i + 1, toks.len() as int);
                    }
                    return None;
                }
                lc = lc + size;
            },
        }
        i = i + 1;
    }
    // Second pass: group the tokens of each instruction.
    let ghost table = labels_map(names_view(names@), addrs@);
    let mut stack: Vec<usize> = Vec::new();
    let mut ret: Vec<Operation> = Vec::new();
    let mut i: usize = 0;
    assert(stack@.map_values(|k: usize| toks[k as int]) =~= Seq::<TokenV>::empty());
    while i < tokens.len()
        invariant
            i <= tokens@.len(),
            toks == tokens_view(tokens@),
            names@.len() == addrs@.len(),
            table == labels_map(names_view(names@), addrs@),
            forall|k: int| 0 <= k < stack@.len() ==> #[trigger] stack@[k] < tokens@.len(),
            spec_parse(toks) == pass2(
                toks,
                i as int,
                stack@.map_values(|k: usize| toks[k as int]),
                table,
                ret@,
            ),
        decreases tokens@.len() - i,
    {
        let ghost sv = stack@.map_values(|k: usize| toks[k as int]);
        assert(sv =~= stack@.map_values(|k: usize| tokens@[k as int]@));
        let t = &tokens[i];
        if stack.len() == 0 {
            match t {
                Token::LabelDecl(_) | Token::Comment(_) => {},
                Token::Mneumonic(_) => {
                    stack.push(i);
                    assert(stack@.map_values(|k: usize| toks[k as int]) =~= seq![toks[i as int]]);
                },
                _ => {
                    return None;
                },
            }
        } else {
            let top_is_comma = match &tokens[stack[stack.len() - 1]] {
                Token::Comma => true,
                _ => false,
            };
            let top_is_mneumonic = match &tokens[stack[stack.len() - 1]] {
                Token::Mneumonic(_) => true,
                _ => false,
            };
            let top_is_value = match &tokens[stack[stack.len() - 1]] {
                Token::Register(_) | Token::Immediate(_) | Token::LabelInvoc(_) => true,
                _ => false,
            };
            let top_is_deref = match &tokens[stack[stack.len() - 1]] {
                Token::Deref => true,
                _ => false,
            };
            let t_is_operand = match t {
                Token::Register(_) | Token::Immediate(_) | Token::LabelInvoc(_) | Token::Deref => true,
                _ => false,
            };
            let t_is_value = match t {
                Token::Register(_) | Token::Immediate(_) | Token::LabelInvoc(_) => true,
                _ => false,
            };
            let t_is_comma = match t {
                Token::Comma => true,
                _ => false,
            };
            assert(sv.last() == toks[stack@[stack@.len() - 1] as int]);
            if top_is_comma {
                if t_is_operand {
                    stack.push(i);
                    assert(stack@.map_values(|k: usize| toks[k as int]) =~= sv.push(toks[i as int]));
                } else {
                    return None;
                }
            } else if top_is_mneumonic || top_is_value {
                if (top_is_mneumonic && t_is_operand) || (top_is_value && t_is_comma) {
                    stack.push(i);
                    assert(stack@.map_values(|k: usize| toks[k as int]) =~= sv.push(toks[i as int]));
                } else {
                    match t {
                        Token::Mneumonic(_) => {
                            match evaluate_token_stack(tokens, &stack, &names, &addrs) {
                                Some(op) => {
                                    ret.push(op);
                                },
                                None => {
                                    return None;
                                },
                            }
                            stack = Vec::new();
                            stack.push(i);
                            assert(stack@.map_values(|k: usize| toks[k as int]) =~= seq![
                                toks[i as int],
                            ]);
                        },
                        Token::LabelDecl(_) => {
                            match evaluate_token_stack(tokens, &stack, &names, &addrs) {
                                Some(op) => {
                                    ret.push(op);
                                },
                                None => {
                                    return None;
                                },
                            }
                            stack = Vec::new();
                            assert(stack@.map_values(|k: usize| toks[k as int])
                                =~= Seq::<TokenV>::empty());
                        },
                        Token::Comment(_) => {},
                        _ => {
                            return None;
                        },
                    }
                }
            } else if top_is_deref {
                if t_is_value {
                    stack.push(i);
                    assert(stack@.map_values(|k: usize| toks[k as int]) =~= sv.push(toks[i as int]));
                } else {
                    return None;
                }
            } else {
                return None;
            }
        }
        i = i + 1;
    }
    let ghost sv = stack@.map_values(|k: usize| toks[k as int]);
    assert(sv =~= stack@.map_values(|k: usize| tokens@[k as int]@));
    match evaluate_token_stack(tokens, &stack, &names, &addrs) {
        Some(op) => {
            ret.push(op);
        },
        None => {
            return None;
        },
    }
    Some(ret)
}

/// Parses tokens into operations. The parser must not stop on them
/// (`parse_checked` tells).
pub fn parse(tokens: Vec<Token>) -> (r: Vec<Operation>)
    requires
        spec_parse(tokens_view(tokens@)) is Some,
    ensures
        spec_parse(tokens_view(tokens@)) == Some(r@),
{
    match parse_checked(&tokens) {
        Some(ops) => ops,
        None => {
            proof {
                assert(false);
            }
            Vec::new()
        },
    }
}

/// The bytes the tokens add to the program, as the first pass counts them.
pub open spec fn tok_bytes(ts: Seq<TokenV>) -> int
    decreases ts.len(),
{
    if ts.len() == 0 {
        0
    } else {
        tok_bytes(ts.drop_last()) + token_size(ts.last())
    }
}

/// The number of mneumonic tokens.
pub open spec fn mneumonic_count(ts: Seq<TokenV>) -> int
    decreases ts.len(),
{
    if ts.len() == 0 {
        0
    } else {
        mneumonic_count(ts.drop_last()) + (if ts.last() is Mneumonic {
            1int
        } else {
            0int
        })
    }
}

proof fn lemma_tok_bytes_step(ts: Seq<TokenV>, i: int)
    requires
        0 <= i < ts.len(),
    ensures
        tok_bytes(ts.take(i + 1)) == tok_bytes(ts.take(i)) + token_size(ts[i]),
        mneumonic_count(ts.take(i + 1)) == mneumonic_count(ts.take(i)) + (if ts[i] is Mneumonic {
            1int
        } else {
            0int
        }),
{
    assert(ts.take(i + 1).drop_last() =~= ts.take(i));
}

proof fn lemma_tok_bytes_mono(ts: Seq<TokenV>, a: int, b: int)
    requires
        0 <= a <= b <= ts.len(),
    ensures
        tok_bytes(ts.take(a)) <= tok_bytes(ts.take(b)),
        forall|k: int| a <= k < b ==> tok_bytes(ts.take(a)) + token_size(#[trigger] ts[k]) <= tok_bytes(ts.take(b)),
    decreases b - a,
{
    if a < b {
        lemma_tok_bytes_mono(ts, a, b - 1);
        lemma_tok_bytes_step(ts, b - 1);
        assert forall|k: int| a <= k < b implies tok_bytes(ts.take(a)) + token_size(#[trigger] ts[k])
            <= tok_bytes(ts.take(b)) by {
            if k == b - 1 {
                lemma_tok_bytes_mono(ts, a, b - 1);
            }
        }
    }
}

/// Each operand an instruction's tokens give takes a value token of two bytes.
proof fn lemma_eval_args_size(
    st: Seq<TokenV>,
    j: int,
    table: Map<Seq<char>, u16>,
    args: Seq<Operand>,
    res: Seq<Operand>,
)
    requires
        0 <= j <= st.len(),
        eval_args(st, j, table, args) == Some(res),
    ensures
        res.len() >= args.len(),
        2 * (res.len() - args.len()) == tok_bytes(st) - tok_bytes(st.take(j)),
    decreases st.len() - j,
{
    assert(st.take(st.len() as int) =~= st);
    if j < st.len() {
        let next = if st[j] is Deref {
            j + 2
        } else {
            j + 1
        };
        let v = next - 1;
        assert(is_value_tok(st[v]));
        assert(token_size(st[v]) == 2);
        lemma_tok_bytes_step(st, j);
        if st[j] is Deref {
            lemma_tok_bytes_step(st, j + 1);
        }
        assert(tok_bytes(st.take(next)) == tok_bytes(st.take(j)) + 2);
        if next < st.len() {
            let a = if st[j] is Deref {
                operand_of(st[j + 1], table, true)
            } else {
                operand_of(st[j], table, false)
            };
            lemma_tok_bytes_step(st, next);
            lemma_eval_args_size(st, next + 1, table, args.push(a->0), res);
        }
    }
}

/// An operation takes exactly the machine code its tokens add.
proof fn lemma_eval_stack_size(st: Seq<TokenV>, table: Map<Seq<char>, u16>, op: Operation)
    requires
        eval_stack(st, table) == Some(op),
    ensures
        op.spec_compile().len() == tok_bytes(st),
{
    let m = Mneumonics::spec_from_name(st[0]->Mneumonic_0).unwrap();
    let args = eval_args(st, 1, table, seq![]).unwrap();
    lemma_eval_args_size(st, 1, table, seq![], args);
    lemma_tok_bytes_step(st, 0);
    assert(st.take(0) =~= Seq::<TokenV>::empty());
    assert(op.spec_mneumonic() == m);
    op.lemma_operands_len();
    crate::machine_code::lemma_encode_len(m.spec_index(), op.raw_operands());
}

/// A stack that holds one instruction's tokens: a mneumonic, then operand
/// tokens and commas.
pub open spec fn stack_ok(stack: Seq<TokenV>) -> bool {
    stack.len() == 0 || (stack[0] is Mneumonic && forall|k: int|
        1 <= k < stack.len() ==> !(#[trigger] stack[k] is Mneumonic))
}

proof fn lemma_stack_count(stack: Seq<TokenV>)
    requires
        stack_ok(stack),
    ensures
        mneumonic_count(stack) == (if stack.len() > 0 {
            1int
        } else {
            0int
        }),
    decreases stack.len(),
{
    if stack.len() > 1 {
        assert(!(stack[stack.len() - 1] is Mneumonic));
        assert(stack_ok(stack.drop_last())) by {
            assert forall|k: int| 1 <= k < stack.drop_last().len() implies !(
            #[trigger] stack.drop_last()[k] is Mneumonic) by {
                assert(stack.drop_last()[k] == stack[k]);
            }
        }
        lemma_stack_count(stack.drop_last());
    } else if stack.len() == 1 {
        assert(stack.drop_last() =~= Seq::<TokenV>::empty());
        assert(mneumonic_count(stack.drop_last()) == 0);
        assert(stack.last() is Mneumonic);
    }
}

/// One step of the second pass keeps the stack well formed, counts the
/// mneumonic it meets, extends the operations built, and adds exactly the
/// machine code of the bytes of the token it reads.
proof fn lemma_step_sizes(
    t: TokenV,
    stack: Seq<TokenV>,
    table: Map<Seq<char>, u16>,
    acc: Seq<Operation>,
    s2: Seq<TokenV>,
    a2: Seq<Operation>,
)
    requires
        stack_ok(stack),
        pass2_step(t, stack, table, acc) == Some((s2, a2)),
    ensures
        stack_ok(s2),
        a2.len() + (if s2.len() > 0 {
            1int
        } else {
            0int
        }) == acc.len() + (if stack.len() > 0 {
            1int
        } else {
            0int
        }) + (if t is Mneumonic {
            1int
        } else {
            0int
        }),
        a2.len() >= acc.len(),
        a2.take(acc.len() as int) == acc,
        program_code(a2).len() + tok_bytes(s2) == program_code(acc).len() + tok_bytes(stack)
            + token_size(t),
        t is LabelDecl ==> s2.len() == 0,
{
    assert(acc.take(acc.len() as int) =~= acc);
    assert(tok_bytes(Seq::<TokenV>::empty()) == 0);
    assert(tok_bytes(seq![t]) == token_size(t)) by {
        assert(seq![t].drop_last() =~= Seq::<TokenV>::empty());
    }
    if t is Mneumonic {
        assert(stack_ok(seq![t]));
    }
    if stack.len() == 0 {
    } else {
        let top = stack.last();
        let pushed = stack.push(t);
        assert(pushed.drop_last() =~= stack);
        if !(t is Mneumonic) {
            assert(stack_ok(pushed)) by {
                assert forall|k: int| 1 <= k < pushed.len() implies !(
                #[trigger] pushed[k] is Mneumonic) by {
                    if k < stack.len() {
                        assert(pushed[k] == stack[k]);
                    }
                }
            }
        }
        if a2 != acc {
            let op = eval_stack(stack, table).unwrap();
            assert(a2 == acc.push(op));
            lemma_eval_stack_size(stack, table, op);
            crate::listing::lemma_program_code_push(acc, op);
            lemma_stack_count(stack);
            assert(a2.take(acc.len() as int) =~= acc);
        }
    }
}

/// Along the second pass, the machine code built, plus the bytes of the
/// instruction on the stack, plus the bytes the first pass counts for the
/// tokens left, make up the code of the whole program; and where the bytes
/// counted so far are those of the code built and the instruction on the
/// stack, every label from here on is declared where the code of the
/// operations before it ends.
proof fn lemma_pass2_sizes(
    toks: Seq<TokenV>,
    i: int,
    stack: Seq<TokenV>,
    table: Map<Seq<char>, u16>,
    acc: Seq<Operation>,
    ops: Seq<Operation>,
)
    requires
        0 <= i <= toks.len(),
        pass2(toks, i, stack, table, acc) == Some(ops),
        stack_ok(stack),
        acc.len() + (if stack.len() > 0 {
            1int
        } else {
            0int
        }) == mneumonic_count(toks.take(i)),
    ensures
        ops.len() >= acc.len(),
        ops.take(acc.len() as int) == acc,
        program_code(ops).len() + tok_bytes(toks.take(i)) == program_code(acc).len() + tok_bytes(
            stack,
        ) + tok_bytes(toks),
        tok_bytes(toks.take(i)) == program_code(acc).len() + tok_bytes(stack) ==> forall|d: int|
            i <= d < toks.len() && #[trigger] toks[d] is LabelDecl ==> tok_bytes(toks.take(d))
                == program_code(ops.take(mneumonic_count(toks.take(d)))).len(),
    decreases toks.len() - i,
{
    assert(toks.take(toks.len() as int) =~= toks);
    if i >= toks.len() {
        let op = eval_stack(stack, table).unwrap();
        lemma_eval_stack_size(stack, table, op);
        crate::listing::lemma_program_code_push(acc, op);
        assert(ops.take(acc.len() as int) =~= acc);
    } else {
        let t = toks[i];
        let (s2, a2) = pass2_step(t, stack, table, acc).unwrap();
        lemma_step_sizes(t, stack, table, acc, s2, a2);
        lemma_tok_bytes_step(toks, i);
        lemma_pass2_sizes(toks, i + 1, s2, table, a2, ops);
        assert(ops.take(acc.len() as int) =~= acc) by {
            assert forall|k: int| 0 <= k < acc.len() implies ops[k] == acc[k] by {
                assert(ops.take(a2.len() as int)[k] == a2[k]);
                assert(a2.take(acc.len() as int)[k] == acc[k]);
            }
        }
        if tok_bytes(toks.take(i)) == program_code(acc).len() + tok_bytes(stack) {
            assert forall|d: int| i <= d < toks.len() && #[trigger] toks[d] is LabelDecl implies tok_bytes(
                toks.take(d),
            ) == program_code(ops.take(mneumonic_count(toks.take(d)))).len() by {
                if d == i {
                    assert(s2.len() == 0);
                    assert(ops.take(a2.len() as int) == a2);
                }
            }
        }
    }
}

/// The location counter after the first `n` tokens is the start of program
/// memory plus the bytes those tokens add.
proof fn lemma_first_pass_bytes(toks: Seq<TokenV>, n: int)
    requires
        0 <= n <= toks.len(),
    ensures
        first_pass(toks, n).1 == PROGRAM_START + tok_bytes(toks.take(n)),
    decreases n,
{
    if n > 0 {
        lemma_first_pass_bytes(toks, n - 1);
        lemma_tok_bytes_step(toks, n - 1);
    } else {
        assert(toks.take(0) =~= Seq::<TokenV>::empty());
    }
}

/// The label table binds a name to the location of its last declaration.
proof fn lemma_last_declaration(toks: Seq<TokenV>, d: int, n: int)
    requires
        0 <= d < n <= toks.len(),
        toks[d] is LabelDecl,
        forall|e: int| d < e < n ==> toks[e] != toks[d],
    ensures
        first_pass(toks, n).0.contains_key(toks[d]->LabelDecl_0),
        first_pass(toks, n).0[toks[d]->LabelDecl_0] == first_pass(toks, d).1 as u16,
    decreases n - d,
{
    if n > d + 1 {
        lemma_last_declaration(toks, d, n - 1);
    }
}

/// Labels mark the machine code of the instructions that follow them. Where
/// the tokens parse, the first pass counts exactly the bytes of the
/// program's machine code; a label declared after the first `k`
/// instructions is declared at the start of program memory plus the length
/// of their machine code; and where it is the last declaration of its name,
/// the label table binds the name to that address.
pub proof fn lemma_label_addresses(toks: Seq<TokenV>, ops: Seq<Operation>, d: int)
    requires
        spec_parse(toks) == Some(ops),
        0 <= d < toks.len(),
        toks[d] is LabelDecl,
    ensures
        first_pass(toks, toks.len() as int).1 == PROGRAM_START + program_code(ops).len(),
        first_pass(toks, d).1 == PROGRAM_START + program_code(
            ops.take(mneumonic_count(toks.take(d))),
        ).len(),
        (forall|e: int| d < e < toks.len() ==> toks[e] != toks[d]) ==> first_pass(
            toks,
            toks.len() as int,
        ).0[toks[d]->LabelDecl_0] == PROGRAM_START + program_code(
            ops.take(mneumonic_count(toks.take(d))),
        ).len(),
{
    let n = toks.len() as int;
    let table = first_pass(toks, n).0;
    lemma_first_pass_bytes(toks, n);
    lemma_first_pass_bytes(toks, d);
    lemma_first_pass_mono(toks, d, n);
    assert(toks.take(n) =~= toks);
    assert(toks.take(0) =~= Seq::<TokenV>::empty());
    assert(tok_bytes(Seq::<TokenV>::empty()) == 0);
    assert(mneumonic_count(Seq::<TokenV>::empty()) == 0);
    assert(program_code(Seq::<Operation>::empty()) =~= Seq::<u8>::empty());
    lemma_pass2_sizes(toks, 0, seq![], table, seq![], ops);
    if forall|e: int| d < e < toks.len() ==> toks[e] != toks[d] {
        lemma_last_declaration(toks, d, n);
    }
}

} // verus!
