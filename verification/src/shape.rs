//! Structural discrimination of instruction shapes.  The wire format
//! carries no explicit tag telling a label marker, a constant, a value
//! operation, and an effect operation apart: the shape is decided from
//! the observable fields and the opcode vocabularies, trying the
//! constant shape first, then the value shape, then the effect shape.
//! An opcode outside every vocabulary is a parse error, never a silent
//! acceptance.

use crate::ir::{
    strings_model, Code, ConstOps, EffectOps, Instruction, Literal, Type, ValueOps,
};
use vstd::prelude::*;

verus! {

/// Why a raw instruction failed to classify.
#[derive(Debug, Clone, Copy, PartialEq, Eq, Structural)]
pub enum ShapeError {
    /// Neither a `label` field nor an `op` field is present.
    MissingOpcode,
    /// The constant opcode without the fields the constant shape
    /// requires (`dest`, `type`, `value`) or with operand arguments.
    MalformedConstant,
    /// An opcode outside the constant, value, and effect vocabularies.
    UnknownOpcode,
}

/// One instruction as read off the wire, before its shape is decided:
/// every field optional or defaulted, exactly as the format allows.
#[derive(Debug, Clone, PartialEq, Eq)]
pub struct RawInstruction {
    pub label: Option<String>,
    pub op: Option<String>,
    pub dest: Option<String>,
    pub dest_type: Option<Type>,
    pub value: Option<Literal>,
    pub args: Vec<String>,
    pub funcs: Vec<String>,
    pub labels: Vec<String>,
}

/// The mathematical shape of a raw instruction.
pub ghost struct RawModel {
    pub label: Option<Seq<char>>,
    pub op: Option<Seq<char>>,
    pub dest: Option<Seq<char>>,
    pub dest_type: Option<Type>,
    pub value: Option<Literal>,
    pub args: Seq<Seq<char>>,
    pub funcs: Seq<Seq<char>>,
    pub labels: Seq<Seq<char>>,
}

impl View for RawInstruction {
    type V = RawModel;

    open spec fn view(&self) -> RawModel {
        RawModel {
            label: match self.label {
                Some(l) => Some(l@),
                None => None,
            },
            op: match self.op {
                Some(o) => Some(o@),
                None => None,
            },
            dest: match self.dest {
                Some(d) => Some(d@),
                None => None,
            },
            dest_type: self.dest_type,
            value: self.value,
            args: strings_model(self.args@),
            funcs: strings_model(self.funcs@),
            labels: strings_model(self.labels@),
        }
    }
}

/// The mathematical shape of a classified item.
pub ghost enum CodeModel {
    Label { label: Seq<char> },
    Constant { dest: Seq<char>, dest_type: Type, value: Literal },
    Value {
        op: ValueOps,
        dest: Option<Seq<char>>,
        dest_type: Option<Type>,
        args: Seq<Seq<char>>,
        funcs: Seq<Seq<char>>,
        labels: Seq<Seq<char>>,
    },
    Effect { op: EffectOps, args: Seq<Seq<char>>, funcs: Seq<Seq<char>>, labels: Seq<Seq<char>> },
}

/// The shape of a classified `Code` item.
pub open spec fn code_model(c: Code) -> CodeModel {
    match c {
        Code::Label { label } => CodeModel::Label { label: label@ },
        Code::Instruction(Instruction::Constant { op: _, dest, dest_type, value }) => {
            CodeModel::Constant { dest: dest@, dest_type: dest_type, value: value }
        },
        Code::Instruction(Instruction::Value { op, dest, dest_type, args, funcs, labels }) => {
            CodeModel::Value {
                op: op,
                dest: match dest {
                    Some(d) => Some(d@),
                    None => None,
                },
                dest_type: dest_type,
                args: strings_model(args@),
                funcs: strings_model(funcs@),
                labels: strings_model(labels@),
            }
        },
        Code::Instruction(Instruction::Effect { op, args, funcs, labels }) => {
            CodeModel::Effect {
                op: op,
                args: strings_model(args@),
                funcs: strings_model(funcs@),
                labels: strings_model(labels@),
            }
        },
    }
}

/// The constant-op vocabulary: the single opcode `const`.
pub open spec fn spec_const_op(s: Seq<char>) -> Option<ConstOps> {
    if s == "const"@ {
        Some(ConstOps::Const)
    } else {
        None
    }
}

/// The value-op vocabulary, by wire spelling.
pub open spec fn spec_value_op(s: Seq<char>) -> Option<ValueOps> {
    if s == "add"@ {
        Some(ValueOps::Add)
    } else if s == "mul"@ {
        Some(ValueOps::Mul)
    } else if s == "sub"@ {
        Some(ValueOps::Sub)
    } else if s == "div"@ {
        Some(ValueOps::Div)
    } else if s == "eq"@ {
        Some(ValueOps::Eq)
    } else if s == "lt"@ {
        Some(ValueOps::Lt)
    } else if s == "gt"@ {
        Some(ValueOps::Gt)
    } else if s == "le"@ {
        Some(ValueOps::Le)
    } else if s == "ge"@ {
        Some(ValueOps::Ge)
    } else if s == "not"@ {
        Some(ValueOps::Not)
    } else if s == "and"@ {
        Some(ValueOps::And)
    } else if s == "or"@ {
        Some(ValueOps::Or)
    } else if s == "call"@ {
        Some(ValueOps::Call)
    } else if s == "id"@ {
        Some(ValueOps::Id)
    } else if s == "alloc"@ {
        Some(ValueOps::Alloc)
    } else if s == "load"@ {
        Some(ValueOps::Load)
    } else if s == "ptradd"@ {
        Some(ValueOps::PtrAdd)
    } else {
        None
    }
}

/// The effect-op vocabulary, by wire spelling.
pub open spec fn spec_effect_op(s: Seq<char>) -> Option<EffectOps> {
    if s == "jmp"@ {
        Some(EffectOps::Jmp)
    } else if s == "br"@ {
        Some(EffectOps::Br)
    } else if s == "ret"@ {
        Some(EffectOps::Ret)
    } else if s == "print"@ {
        Some(EffectOps::Print)
    } else if s == "nop"@ {
        Some(EffectOps::Nop)
    } else if s == "free"@ {
        Some(EffectOps::Free)
    } else if s == "store"@ {
        Some(EffectOps::Store)
    } else {
        None
    }
}

/// The discrimination rule.  An item without an opcode is a label marker
/// if it carries a label text, and an error otherwise.  With an opcode,
/// the constant shape is tried first: the constant op demands `dest`,
/// `type`, and `value`, and no operand arguments.  Then the opcode is
/// looked up among the value ops, then among the effect ops; one outside
/// all three vocabularies is an error.
pub open spec fn spec_classify(r: RawModel) -> Result<CodeModel, ShapeError> {
    match r.op {
        None => match r.label {
            Some(l) => Ok(CodeModel::Label { label: l }),
            None => Err(ShapeError::MissingOpcode),
        },
        Some(o) => {
            if spec_const_op(o) is Some {
                if r.dest is Some && r.dest_type is Some && r.value is Some && r.args.len() == 0 {
                    Ok(
                        CodeModel::Constant {
                            dest: r.dest->Some_0,
                            dest_type: r.dest_type->Some_0,
                            value: r.value->Some_0,
                        },
                    )
                } else {
                    Err(ShapeError::MalformedConstant)
                }
            } else if spec_value_op(o) is Some {
                Ok(
                    CodeModel::Value {
                        op: spec_value_op(o)->Some_0,
                        dest: r.dest,
                        dest_type: r.dest_type,
                        args: r.args,
                        funcs: r.funcs,
                        labels: r.labels,
                    },
                )
            } else if spec_effect_op(o) is Some {
                Ok(
                    CodeModel::Effect {
                        op: spec_effect_op(o)->Some_0,
                        args: r.args,
                        funcs: r.funcs,
                        labels: r.labels,
                    },
                )
            } else {
                Err(ShapeError::UnknownOpcode)
            }
        },
    }
}

/// Character-by-character string comparison.
fn str_eq(a: &str, b: &str) -> (r: bool)
    ensures
        r == (a@ == b@),
{
    let n: usize = a.unicode_len();
    let m: usize = b.unicode_len();
    if n != m {
        proof {
            assert(a@ != b@) by {
                if a@ == b@ {
                    assert(a@.len() == b@.len());
                }
            }
        }
        return false;
    }
    let mut i: usize = 0;
    while i < n
        invariant
            i <= n,
            n == a@.len(),
            n == b@.len(),
            forall|t: int| 0 <= t < i ==> a@[t] == b@[t],
        decreases n - i,
    {
        if a.get_char(i) != b.get_char(i) {
            proof {
                assert(a@ != b@) by {
                    if a@ == b@ {
                        assert(a@[i as int] == b@[i as int]);
                    }
                }
            }
            return false;
        }
        i = i + 1;
    }
    proof {
        assert(a@ =~= b@);
    }
    true
}

/// Recognizes a value opcode by its wire spelling.
pub fn parse_value_op(s: &str) -> (r: Option<ValueOps>)
    ensures
        r == spec_value_op(s@),
{
    if str_eq(s, "add") {
        Some(ValueOps::Add)
    } else if str_eq(s, "mul") {
        Some(ValueOps::Mul)
    } else if str_eq(s, "sub") {
        Some(ValueOps::Sub)
    } else if str_eq(s, "div") {
        Some(ValueOps::Div)
    } else if str_eq(s, "eq") {
        Some(ValueOps::Eq)
    } else if str_eq(s, "lt") {
        Some(ValueOps::Lt)
    } else if str_eq(s, "gt") {
        Some(ValueOps::Gt)
    } else if str_eq(s, "le") {
        Some(ValueOps::Le)
    } else if str_eq(s, "ge") {
        Some(ValueOps::Ge)
    } else if str_eq(s, "not") {
        Some(ValueOps::Not)
    } else if str_eq(s, "and") {
        Some(ValueOps::And)
    } else if str_eq(s, "or") {
        Some(ValueOps::Or)
    } else if str_eq(s, "call") {
        Some(ValueOps::Call)
    } else if str_eq(s, "id") {
        Some(ValueOps::Id)
    } else if str_eq(s, "alloc") {
        Some(ValueOps::Alloc)
    } else if str_eq(s, "load") {
        Some(ValueOps::Load)
    } else if str_eq(s, "ptradd") {
        Some(ValueOps::PtrAdd)
    } else {
        None
    }
}

/// Recognizes an effect opcode by its wire spelling.
pub fn parse_effect_op(s: &str) -> (r: Option<EffectOps>)
    ensures
        r == spec_effect_op(s@),
{
    if str_eq(s, "jmp") {
        Some(EffectOps::Jmp)
    } else if str_eq(s, "br") {
        Some(EffectOps::Br)
    } else if str_eq(s, "ret") {
        Some(EffectOps::Ret)
    } else if str_eq(s, "print") {
        Some(EffectOps::Print)
    } else if str_eq(s, "nop") {
        Some(EffectOps::Nop)
    } else if str_eq(s, "free") {
        Some(EffectOps::Free)
    } else if str_eq(s, "store") {
        Some(EffectOps::Store)
    } else {
        None
    }
}

/// Copies a list of strings.
fn clone_strings(v: &Vec<String>) -> (r: Vec<String>)
    ensures
        strings_model(r@) == strings_model(v@),
{
    let n: usize = v.len();
    let mut r: Vec<String> = Vec::new();
    proof {
        assert(strings_model(r@) =~= strings_model(v@).take(0));
    }
    let mut k: usize = 0;
    while k < n
        invariant
            k <= n,
            n == v@.len(),
            strings_model(r@) == strings_model(v@).take(k as int),
        decreases n - k,
    {
        let ghost old_r = r@;
        let item = v[k].clone();
        r.push(item);
        proof {
            assert(r@ == old_r.push(v@[k as int]));
            assert(strings_model(old_r).len() == old_r.len());
            assert(strings_model(r@) =~~= strings_model(v@).take(k as int + 1));
        }
        k = k + 1;
    }
    proof {
        assert(strings_model(v@).take(n as int) =~= strings_model(v@));
    }
    r
}

/// Decides the shape of one raw instruction, per the discrimination
/// rule: constant first, then value, then effect; a label marker where
/// no opcode is present; an error otherwise.
pub fn classify(raw: &RawInstruction) -> (r: Result<Code, ShapeError>)
    ensures
        (match r {
            Ok(c) => Ok::<CodeModel, ShapeError>(code_model(c)),
            Err(e) => Err(e),
        }) == spec_classify(raw@),
{
    match &raw.op {
        None => match &raw.label {
            Some(l) => Ok(Code::Label { label: l.clone() }),
            None => Err(ShapeError::MissingOpcode),
        },
        Some(o) => {
            if str_eq(o.as_str(), "const") {
                if raw.args.len() > 0 {
                    Err(ShapeError::MalformedConstant)
                } else {
                    match (&raw.dest, &raw.dest_type, &raw.value) {
                        (Some(d), Some(t), Some(v)) => Ok(
                            Code::Instruction(
                                Instruction::Constant {
                                    op: ConstOps::Const,
                                    dest: d.clone(),
                                    dest_type: t.clone(),
                                    value: *v,
                                },
                            ),
                        ),
                        _ => Err(ShapeError::MalformedConstant),
                    }
                }
            } else {
                match parse_value_op(o.as_str()) {
                    Some(vo) => {
                        let dest = match &raw.dest {
                            Some(d) => Some(d.clone()),
                            None => None,
                        };
                        let dest_type = match &raw.dest_type {
                            Some(t) => Some(t.clone()),
                            None => None,
                        };
                        Ok(
                            Code::Instruction(
                                Instruction::Value {
                                    op: vo,
                                    dest,
                                    dest_type,
                                    args: clone_strings(&raw.args),
                                    funcs: clone_strings(&raw.funcs),
                                    labels: clone_strings(&raw.labels),
                                },
                            ),
                        )
                    },
                    None => match parse_effect_op(o.as_str()) {
                        Some(eo) => Ok(
                            Code::Instruction(
                                Instruction::Effect {
                                    op: eo,
                                    args: clone_strings(&raw.args),
                                    funcs: clone_strings(&raw.funcs),
                                    labels: clone_strings(&raw.labels),
                                },
                            ),
                        ),
                        None => Err(ShapeError::UnknownOpcode),
                    },
                }
            }
        },
    }
}

/// Decides the shapes of a whole raw instruction stream, in order,
/// stopping at the first item that fails to classify.
pub fn classify_instrs(raws: &Vec<RawInstruction>) -> (r: Result<Vec<Code>, ShapeError>)
    ensures
        match r {
            Ok(codes) => codes@.len() == raws@.len() && forall|t: int|
                0 <= t < raws@.len() ==> Ok::<CodeModel, ShapeError>(
                    code_model(#[trigger] codes@[t]),
                ) == spec_classify(raws@[t]@),
            Err(e) => exists|t: int|
                0 <= t < raws@.len() && #[trigger] spec_classify(raws@[t]@) == Err::<
                    CodeModel,
                    ShapeError,
                >(e) && (forall|u: int| 0 <= u < t ==> (#[trigger] spec_classify(raws@[u]@)) is Ok),
        },
{
    let n: usize = raws.len();
    let mut out: Vec<Code> = Vec::new();
    let mut i: usize = 0;
    while i < n
        invariant
            i <= n,
            n == raws@.len(),
            out@.len() == i,
            forall|t: int|
                0 <= t < i ==> Ok::<CodeModel, ShapeError>(code_model(#[trigger] out@[t]))
                    == spec_classify(raws@[t]@),
        decreases n - i,
    {
        match classify(&raws[i]) {
            Ok(c) => {
                out.push(c);
            },
            Err(e) => {
                proof {
                    assert(spec_classify(raws@[i as int]@) == Err::<CodeModel, ShapeError>(e));
                    assert forall|u: int| 0 <= u < i implies (#[trigger] spec_classify(
                        raws@[u]@,
                    )) is Ok by {
                        assert(Ok::<CodeModel, ShapeError>(code_model(out@[u])) == spec_classify(
                            raws@[u]@,
                        ));
                    }
                }
                return Err(e);
            },
        }
        i = i + 1;
    }
    Ok(out)
}

} // verus!
