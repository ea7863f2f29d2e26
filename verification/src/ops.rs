//! The first instruction set of the machine: `add`, `sub` and `mov` on
//! operands that are a register number or a literal, either used directly or
//! dereferenced.

use vstd::prelude::*;

use crate::cfg::Word;
use crate::text::{
    decimal, decimal_string, is_digit, lemma_decimal_value, lemma_find_char_first, lemma_parse_decimal,
    parse_u16, spec_parse_u16, split_once, split_once_char, str_eq,
};

verus! {

/// Whether an operand names a register (by number) or a literal.
#[derive(Debug, PartialEq, Eq, Clone, Copy, Structural)]
pub enum OperandInner {
    Register,
    Literal,
}

/// An operand: a word, what kind of thing it names, and whether it is dereferenced.
#[derive(Debug, PartialEq, Eq, Clone, Copy, Structural)]
pub struct Operand {
    pub ty: OperandInner,
    pub word: Word,
    pub deref: bool,
}

/// A two-operand operation.
#[derive(Debug, PartialEq, Eq, Clone, Copy, Structural)]
pub enum Operation {
    Add(Operand, Operand),
    Sub(Operand, Operand),
    Mov(Operand, Operand),
}

/// Why a text is not an operation of this instruction set.
#[derive(Debug, PartialEq, Eq, Clone, Copy, Structural)]
pub enum OpsError {
    /// The mneumonic is unknown, or the line has no space after it.
    InvalidOperation,
    /// The operand text lacks a second operand.
    InvalidOperands,
    /// An operand is empty, or its number is not a 16-bit number.
    InvalidOperand,
}

impl Operand {
    /// The operand's text: `*` if dereferenced, `$` if a register, then the
    /// word in decimal.
    pub open spec fn spec_text(self) -> Seq<char> {
        (if self.deref {
            seq!['*']
        } else {
            seq![]
        }) + (if self.ty == OperandInner::Register {
            seq!['$']
        } else {
            seq![]
        }) + decimal(self.word as nat)
    }

    /// Whether the operand can be written: a dereference or a register.
    pub fn can_store(&self) -> (b: bool)
        ensures
            b == (self.deref || self.ty == OperandInner::Register),
    {
        self.deref || match self.ty {
            OperandInner::Register => true,
            OperandInner::Literal => false,
        }
    }

    /// The operand's text.
    pub fn to_string(&self) -> (s: String)
        ensures
            s@ == self.spec_text(),
    {
        proof {
            reveal_strlit("*");
            reveal_strlit("$");
            reveal_strlit("");
        }
        let mut s = if self.deref {
            String::from_str("*")
        } else {
            String::from_str("")
        };
        match self.ty {
            OperandInner::Register => s.append("$"),
            OperandInner::Literal => {},
        }
        let w = decimal_string(self.word);
        s.append(w.as_str());
        assert(s@ =~= self.spec_text());
        s
    }

    /// Parses an operand: an optional `*`, an optional `$`, then a 16-bit number.
    pub fn try_from_str(value: &str) -> (r: Result<Operand, OpsError>)
        ensures
            r == spec_parse_operand(value@),
    {
        let len = value.unicode_len();
        if len == 0 {
            return Err(OpsError::InvalidOperand);
        }
        let deref = value.get_char(0) == '*';
        let rest = if deref {
            value.substring_char(1, len)
        } else {
            value
        };
        let rlen = rest.unicode_len();
        if rlen == 0 {
            return Err(OpsError::InvalidOperand);
        }
        let reg = rest.get_char(0) == '$';
        let digits = if reg {
            rest.substring_char(1, rlen)
        } else {
            rest
        };
        match parse_u16(digits) {
            Some(word) => Ok(
                Operand {
                    ty: if reg {
                        OperandInner::Register
                    } else {
                        OperandInner::Literal
                    },
                    word,
                    deref,
                },
            ),
            None => Err(OpsError::InvalidOperand),
        }
    }
}

/// What `Operand::try_from_str` gives for a text.
pub open spec fn spec_parse_operand(s: Seq<char>) -> Result<Operand, OpsError> {
    if s.len() == 0 {
        Err(OpsError::InvalidOperand)
    } else {
        let deref = s[0] == '*';
        let rest = if deref {
            s.drop_first()
        } else {
            s
        };
        if rest.len() == 0 {
            Err(OpsError::InvalidOperand)
        } else {
            let reg = rest[0] == '$';
            let digits = if reg {
                rest.drop_first()
            } else {
                rest
            };
            match spec_parse_u16(digits) {
                Some(w) => Ok(
                    Operand {
                        ty: if reg {
                            OperandInner::Register
                        } else {
                            OperandInner::Literal
                        },
                        word: w,
                        deref,
                    },
                ),
                None => Err(OpsError::InvalidOperand),
            }
        }
    }
}

/// A separator of operands: a comma or a space.
pub open spec fn is_sep(c: char) -> bool {
    c == ',' || c == ' '
}

/// Index of the first separator in `s`.
pub open spec fn find_sep(s: Seq<char>) -> Option<int>
    decreases s.len(),
{
    if s.len() == 0 {
        None
    } else if is_sep(s[0]) {
        Some(0)
    } else {
        match find_sep(s.drop_first()) {
            Some(i) => Some(i + 1),
            None => None,
        }
    }
}

proof fn lemma_find_sep(s: Seq<char>)
    ensures
        match find_sep(s) {
            Some(i) => 0 <= i < s.len() && is_sep(s[i]) && forall|j: int|
                0 <= j < i ==> !is_sep(s[j]),
            None => forall|j: int| 0 <= j < s.len() ==> !is_sep(s[j]),
        },
    decreases s.len(),
{
    if s.len() > 0 {
        lemma_find_sep(s.drop_first());
        if !is_sep(s[0]) {
            match find_sep(s.drop_first()) {
                Some(i) => {
                    assert forall|j: int| 0 <= j < i + 1 implies !is_sep(s[j]) by {
                        if j > 0 {
                            assert(s[j] == s.drop_first()[j - 1]);
                        }
                    }
                },
                None => {
                    assert forall|j: int| 0 <= j < s.len() implies !is_sep(s[j]) by {
                        if j > 0 {
                            assert(s[j] == s.drop_first()[j - 1]);
                        }
                    }
                },
            }
        }
    }
}

proof fn lemma_find_sep_first(s: Seq<char>, i: int)
    requires
        0 <= i < s.len(),
        is_sep(s[i]),
        forall|j: int| 0 <= j < i ==> !is_sep(s[j]),
    ensures
        find_sep(s) == Some(i),
{
    lemma_find_sep(s);
    match find_sep(s) {
        Some(k) => {
            if k < i {
                assert(!is_sep(s[k]));
            } else if k > i {
                assert(!is_sep(s[i]));
            }
        },
        None => {
            assert(!is_sep(s[i]));
        },
    }
}

proof fn lemma_find_sep_none(s: Seq<char>)
    requires
        forall|j: int| 0 <= j < s.len() ==> !is_sep(s[j]),
    ensures
        find_sep(s) == None::<int>,
{
    lemma_find_sep(s);
    match find_sep(s) {
        Some(k) => {
            assert(!is_sep(s[k]));
        },
        None => {},
    }
}

/// An operand's text has no separator, and reading it gives back the operand.
pub proof fn lemma_parse_operand_text(o: Operand)
    ensures
        o.spec_text().len() > 0,
        forall|i: int| 0 <= i < o.spec_text().len() ==> !is_sep(#[trigger] o.spec_text()[i]),
        spec_parse_operand(o.spec_text()) == Ok::<Operand, OpsError>(o),
{
    let d = decimal(o.word as nat);
    lemma_parse_decimal(o.word);
    lemma_decimal_value(o.word as nat);
    let star: Seq<char> = if o.deref {
        seq!['*']
    } else {
        seq![]
    };
    let dollar: Seq<char> = if o.ty == OperandInner::Register {
        seq!['$']
    } else {
        seq![]
    };
    let t = o.spec_text();
    assert(t =~= star + dollar + d);
    assert forall|i: int| 0 <= i < t.len() implies !is_sep(#[trigger] t[i]) by {
        if i >= star.len() + dollar.len() {
            assert(t[i] == d[i - star.len() - dollar.len()]);
            assert(is_digit(d[i - star.len() - dollar.len()]));
        }
    }
    let rest = if o.deref {
        t.drop_first()
    } else {
        t
    };
    assert(rest =~= dollar + d);
    assert(is_digit(d[0]));
    if o.ty == OperandInner::Register {
        assert(rest.drop_first() =~= d);
    }
}

/// Reading the text of two operands apart by a comma gives back the operands.
proof fn lemma_parse_two_text(a: Operand, b: Operand)
    ensures
        spec_parse_two(a.spec_text() + seq![','] + b.spec_text()) == Ok::<(Operand, Operand), OpsError>(
            (a, b),
        ),
{
    let ta = a.spec_text();
    let tb = b.spec_text();
    let args = ta + seq![','] + tb;
    lemma_parse_operand_text(a);
    lemma_parse_operand_text(b);
    assert forall|j: int| 0 <= j < ta.len() implies !is_sep(args[j]) by {
        assert(args[j] == ta[j]);
    }
    lemma_find_sep_first(args, ta.len() as int);
    assert(args.subrange(0, ta.len() as int) =~= ta);
    assert(args.subrange(ta.len() as int + 1, args.len() as int) =~= tb);
    lemma_find_sep_none(tb);
}

/// Printing an operation and reading the text back gives the operation.
pub proof fn lemma_parse_operation_text(op: Operation)
    ensures
        spec_parse_operation(op.spec_text()) == Ok::<Operation, OpsError>(op),
{
    let (name, a, b) = match op {
        Operation::Add(a, b) => (seq!['a', 'd', 'd'], a, b),
        Operation::Sub(a, b) => (seq!['s', 'u', 'b'], a, b),
        Operation::Mov(a, b) => (seq!['m', 'o', 'v'], a, b),
    };
    let args = a.spec_text() + seq![','] + b.spec_text();
    let t = op.spec_text();
    assert(t =~= name + seq![' '] + args);
    assert forall|j: int| 0 <= j < 3 implies t[j] != ' ' by {
        assert(t[j] == name[j]);
    }
    lemma_find_char_first(t, ' ', 3);
    assert(t.subrange(0, 3) =~= name);
    assert(t.subrange(4, t.len() as int) =~= args);
    lemma_parse_two_text(a, b);
}

fn find_separator(s: &str) -> (r: Option<usize>)
    ensures
        match r {
            Some(i) => find_sep(s@) == Some(i as int),
            None => find_sep(s@) == None::<int>,
        },
{
    let len = s.unicode_len();
    let mut i: usize = 0;
    while i < len
        invariant
            i <= len,
            len == s@.len(),
            forall|j: int| 0 <= j < i ==> !is_sep(s@[j]),
        decreases len - i,
    {
        let c = s.get_char(i);
        if c == ',' || c == ' ' {
            proof {
                lemma_find_sep_first(s@, i as int);
            }
            return Some(i);
        }
        i = i + 1;
    }
    proof {
        lemma_find_sep_none(s@);
    }
    None
}

/// What the two operands of a line give: the text up to the first comma or
/// space, and the text from there to the next comma or space.
pub open spec fn spec_parse_two(args: Seq<char>) -> Result<(Operand, Operand), OpsError> {
    let first = match find_sep(args) {
        Some(i) => args.subrange(0, i),
        None => args,
    };
    match spec_parse_operand(first) {
        Err(e) => Err(e),
        Ok(a) => match find_sep(args) {
            None => Err(OpsError::InvalidOperands),
            Some(i) => {
                let rest = args.subrange(i + 1, args.len() as int);
                let second = match find_sep(rest) {
                    Some(k) => rest.subrange(0, k),
                    None => rest,
                };
                match spec_parse_operand(second) {
                    Err(e) => Err(e),
                    Ok(b) => Ok((a, b)),
                }
            },
        },
    }
}

fn parse_two(args: &str) -> (r: Result<(Operand, Operand), OpsError>)
    ensures
        r == spec_parse_two(args@),
{
    let len = args.unicode_len();
    let sep = find_separator(args);
    proof {
        lemma_find_sep(args@);
    }
    let first = match sep {
        Some(i) => args.substring_char(0, i),
        None => args,
    };
    let a = match Operand::try_from_str(first) {
        Ok(a) => a,
        Err(e) => {
            return Err(e);
        },
    };
    match sep {
        None => Err(OpsError::InvalidOperands),
        Some(i) => {
            let rest = args.substring_char(i + 1, len);
            let sep2 = find_separator(rest);
            proof {
                lemma_find_sep(rest@);
            }
            let second = match sep2 {
                Some(k) => rest.substring_char(0, k),
                None => rest,
            };
            match Operand::try_from_str(second) {
                Ok(b) => Ok((a, b)),
                Err(e) => Err(e),
            }
        },
    }
}

/// What `Operation::try_from_str` gives for a line.
pub open spec fn spec_parse_operation(s: Seq<char>) -> Result<Operation, OpsError> {
    match split_once(s, ' ') {
        None => Err(OpsError::InvalidOperation),
        Some((name, args)) => if name == seq!['a', 'd', 'd'] {
            match spec_parse_two(args) {
                Ok((a, b)) => Ok(Operation::Add(a, b)),
                Err(e) => Err(e),
            }
        } else if name == seq!['s', 'u', 'b'] {
            match spec_parse_two(args) {
                Ok((a, b)) => Ok(Operation::Sub(a, b)),
                Err(e) => Err(e),
            }
        } else if name == seq!['m', 'o', 'v'] {
            match spec_parse_two(args) {
                Ok((a, b)) => Ok(Operation::Mov(a, b)),
                Err(e) => Err(e),
            }
        } else {
            Err(OpsError::InvalidOperation)
        },
    }
}

impl Operation {
    /// The operation's text: its mneumonic, a space, and the operands
    /// separated by a comma.
    pub open spec fn spec_text(self) -> Seq<char> {
        match self {
            Operation::Add(a, b) => seq!['a', 'd', 'd', ' '] + a.spec_text() + seq![','] + b.spec_text(),
            Operation::Sub(a, b) => seq!['s', 'u', 'b', ' '] + a.spec_text() + seq![','] + b.spec_text(),
            Operation::Mov(a, b) => seq!['m', 'o', 'v', ' '] + a.spec_text() + seq![','] + b.spec_text(),
        }
    }

    /// The operation's text.
    pub fn to_string(&self) -> (s: String)
        ensures
            s@ == self.spec_text(),
    {
        proof {
            reveal_strlit("add ");
            reveal_strlit("sub ");
            reveal_strlit("mov ");
            reveal_strlit(",");
        }
        let (name, a, b) = match self {
            Operation::Add(a, b) => ("add ", a, b),
            Operation::Sub(a, b) => ("sub ", a, b),
            Operation::Mov(a, b) => ("mov ", a, b),
        };
        let mut s = String::from_str(name);
        let ta = a.to_string();
        s.append(ta.as_str());
        s.append(",");
        let tb = b.to_string();
        s.append(tb.as_str());
        assert(s@ =~= self.spec_text());
        s
    }

    /// Parses a line: `add`, `sub` or `mov`, a space, then two operands
    /// separated by a comma or a space.
    pub fn try_from_str(value: &str) -> (r: Result<Operation, OpsError>)
        ensures
            r == spec_parse_operation(value@),
    {
        proof {
            reveal_strlit("add");
            reveal_strlit("sub");
            reveal_strlit("mov");
            assert("add"@ =~= seq!['a', 'd', 'd']);
            assert("sub"@ =~= seq!['s', 'u', 'b']);
            assert("mov"@ =~= seq!['m', 'o', 'v']);
        }
        match split_once_char(value, ' ') {
            None => Err(OpsError::InvalidOperation),
            Some((operation, operands)) => {
                if str_eq(operation, "add") {
                    match parse_two(operands) {
                        Ok((a, b)) => Ok(Operation::Add(a, b)),
                        Err(e) => Err(e),
                    }
                } else if str_eq(operation, "sub") {
                    match parse_two(operands) {
                        Ok((a, b)) => Ok(Operation::Sub(a, b)),
                        Err(e) => Err(e),
                    }
                } else if str_eq(operation, "mov") {
                    match parse_two(operands) {
                        Ok((a, b)) => Ok(Operation::Mov(a, b)),
                        Err(e) => Err(e),
                    }
                } else {
                    Err(OpsError::InvalidOperation)
                }
            },
        }
    }
}

} // verus!
