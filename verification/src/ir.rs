//! The IR data model: programs, functions, instructions, operand
//! vocabularies, and the shared instruction classifiers that the
//! partitioner and the edge builder both consult.

use vstd::prelude::*;

verus! {

/// A program: an ordered sequence of functions.  Functions carry no
/// cross-function invariants and are analyzed independently.
#[derive(Debug, Clone, PartialEq, Eq, Hash)]
pub struct Program {
    pub functions: Vec<Function>,
}

/// One function: a name (unique within a program, used for synthesized
/// block labels and graph titles), ordered typed arguments, an optional
/// return type, and the flat ordered instruction stream forming its body.
#[derive(Debug, Clone, PartialEq, Eq, Hash)]
pub struct Function {
    pub name: String,
    pub args: Vec<Arg>,
    pub return_type: Option<Type>,
    pub instrs: Vec<Code>,
}

/// A typed formal argument of a function.
#[derive(Debug, Clone, PartialEq, Eq, Hash)]
pub struct Arg {
    pub name: String,
    pub arg_type: Type,
}

/// A type expression: `int`, `bool`, or a pointer to another type
/// (arbitrary nesting, tree-structured by construction).
#[derive(Debug, PartialEq, Eq, Hash)]
pub enum Type {
    Int,
    Bool,
    Ptr(Box<Type>),
}

impl Clone for Type {
    /// A deep copy equal to `self`.
    fn clone(&self) -> (r: Self)
        ensures
            r == self,
        decreases self,
    {
        match self {
            Type::Int => Type::Int,
            Type::Bool => Type::Bool,
            Type::Ptr(inner) => Type::Ptr(Box::new((**inner).clone())),
        }
    }
}

/// One item of an instruction stream: either a pure control-flow label
/// marker, which contributes no runtime effect and is consumed only to
/// name the block that follows it, or a real instruction.
#[derive(Debug, Clone, PartialEq, Eq, Hash)]
pub enum Code {
    Label { label: String },
    Instruction(Instruction),
}

/// A real instruction, in one of three shapes: a constant assignment, a
/// value operation producing an (optional) destination, or an effect
/// operation with no destination.
#[derive(Debug, Clone, PartialEq, Eq, Hash)]
pub enum Instruction {
    Constant {
        op: ConstOps,
        dest: String,
        dest_type: Type,
        value: Literal,
    },
    Value {
        op: ValueOps,
        dest: Option<String>,
        dest_type: Option<Type>,
        args: Vec<String>,
        funcs: Vec<String>,
        labels: Vec<String>,
    },
    Effect {
        op: EffectOps,
        args: Vec<String>,
        funcs: Vec<String>,
        labels: Vec<String>,
    },
}

/// A literal constant: a boolean or a 64-bit integer.
#[derive(Debug, Clone, Copy, PartialEq, Eq, Hash, Structural)]
pub enum Literal {
    Bool(bool),
    Int(i64),
}

/// The single constant-assignment opcode.
#[derive(Debug, Clone, Copy, PartialEq, Eq, Hash, Structural)]
pub enum ConstOps {
    Const,
}

/// The value-operation vocabulary.
#[derive(Debug, Clone, Copy, PartialEq, Eq, Hash, Structural)]
pub enum ValueOps {
    Add,
    Mul,
    Sub,
    Div,
    Eq,
    Lt,
    Gt,
    Le,
    Ge,
    Not,
    And,
    Or,
    Call,
    Id,
    Alloc,
    Load,
    PtrAdd,
}

/// The effect-operation vocabulary.
#[derive(Debug, Clone, Copy, PartialEq, Eq, Hash, Structural)]
pub enum EffectOps {
    Jmp,
    Br,
    Ret,
    Print,
    Nop,
    Free,
    Store,
}

/// The texts of a list of strings, in order.
pub open spec fn strings_model(v: Seq<String>) -> Seq<Seq<char>> {
    v.map_values(|s: String| s@)
}

impl Code {
    /// True iff this item is a label marker rather than an instruction.
    pub open spec fn spec_is_label(&self) -> bool {
        self matches Code::Label { .. }
    }

    /// The text of a label marker; the empty sequence for an instruction.
    pub open spec fn spec_label_text(&self) -> Seq<char> {
        match self {
            Code::Label { label } => label@,
            _ => Seq::<char>::empty(),
        }
    }

    /// A terminator transfers control away from the block it ends: an
    /// effect instruction whose op is `jmp`, `br`, or `ret`.  Every other
    /// item implies fallthrough.  This single predicate is shared by the
    /// partitioner and the edge builder.
    pub open spec fn spec_is_terminator(&self) -> bool {
        match self {
            Code::Instruction(Instruction::Effect { op, .. }) => {
                op == EffectOps::Jmp || op == EffectOps::Br || op == EffectOps::Ret
            },
            _ => false,
        }
    }

    /// A terminator that names explicit targets (`jmp` or `br`), as
    /// opposed to `ret`, which exits the function and has none.
    pub open spec fn spec_is_jump(&self) -> bool {
        match self {
            Code::Instruction(Instruction::Effect { op, .. }) => {
                op == EffectOps::Jmp || op == EffectOps::Br
            },
            _ => false,
        }
    }

    /// The declared target labels of an effect instruction, in source
    /// order; the empty sequence for every other item.
    pub open spec fn spec_target_labels(&self) -> Seq<Seq<char>> {
        match self {
            Code::Instruction(Instruction::Effect { labels, .. }) => strings_model(labels@),
            _ => Seq::<Seq<char>>::empty(),
        }
    }

    /// True iff this item is a label marker.
    #[verifier::when_used_as_spec(spec_is_label)]
    pub fn is_label(&self) -> (r: bool)
        ensures
            r == self.spec_is_label(),
    {
        match self {
            Code::Label { .. } => true,
            _ => false,
        }
    }

    /// The text of a label marker; the empty string for an instruction.
    pub fn get_label(&self) -> (r: String)
        ensures
            r@ == self.spec_label_text(),
    {
        match self {
            Code::Label { label } => label.clone(),
            _ => String::new(),
        }
    }

    /// True iff this item is a `jmp` or `br`: a terminator with explicit
    /// targets, as opposed to `ret`.
    #[verifier::when_used_as_spec(spec_is_jump)]
    pub fn is_jump(&self) -> (r: bool)
        ensures
            r == self.spec_is_jump(),
    {
        match self {
            Code::Instruction(Instruction::Effect { op, .. }) => match op {
                EffectOps::Br | EffectOps::Jmp => true,
                _ => false,
            },
            _ => false,
        }
    }

    /// True iff this item ends a basic block (`jmp`, `br`, or `ret`).
    #[verifier::when_used_as_spec(spec_is_terminator)]
    pub fn is_terminator(&self) -> (r: bool)
        ensures
            r == self.spec_is_terminator(),
    {
        match self {
            Code::Instruction(Instruction::Effect { op, .. }) => match op {
                EffectOps::Br | EffectOps::Jmp | EffectOps::Ret => true,
                _ => false,
            },
            _ => false,
        }
    }
}

/// The number of value instructions with opcode `op` among the items of
/// `instrs` from position `i` on.
pub open spec fn spec_count_value_op(instrs: Seq<Code>, op: ValueOps, i: int) -> nat
    decreases instrs.len() - i,
{
    if i < 0 || i >= instrs.len() {
        0
    } else {
        (match instrs[i] {
            Code::Instruction(Instruction::Value { op: o, .. }) => if o == op {
                1nat
            } else {
                0nat
            },
            _ => 0nat,
        }) + spec_count_value_op(instrs, op, i + 1)
    }
}

impl Function {
    /// Counts the value instructions of this function whose opcode is
    /// `op`, in one pass over the raw instruction stream.
    pub fn count_value_ops(&self, op: ValueOps) -> (count: u64)
        ensures
            count == spec_count_value_op(self.instrs@, op, 0),
    {
        let n: usize = self.instrs.len();
        let mut count: u64 = 0;
        let mut i: usize = 0;
        while i < n
            invariant
                0 <= i <= n,
                n == self.instrs@.len(),
                count <= i,
                count + spec_count_value_op(self.instrs@, op, i as int) == spec_count_value_op(
                    self.instrs@,
                    op,
                    0,
                ),
            decreases n - i,
        {
            let hit = match &self.instrs[i] {
                Code::Instruction(Instruction::Value { op: o, .. }) => *o == op,
                _ => false,
            };
            if hit {
                count = count + 1;
            }
            i = i + 1;
        }
        count
    }

    /// Counts the `add` value instructions of this function.
    pub fn count_add_ops(&self) -> (count: u64)
        ensures
            count == spec_count_value_op(self.instrs@, ValueOps::Add, 0),
    {
        self.count_value_ops(ValueOps::Add)
    }
}

} // verus!
