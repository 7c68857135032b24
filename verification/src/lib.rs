//! Control-flow recovery for a textual intermediate representation.
//!
//! A program is a list of functions, each a flat ordered stream of labeled
//! instructions.  This library partitions each function's stream into maximal
//! straight-line basic blocks, builds the successor/predecessor relation
//! between blocks, renders that relation as a directed-graph description, and
//! counts instructions by opcode.

pub mod blocks;
pub mod dot;
pub mod edges;
pub mod ir;
pub mod shape;

pub use blocks::BasicBlock;
pub use shape::{RawInstruction, ShapeError};
pub use ir::{Arg, Code, ConstOps, EffectOps, Function, Instruction, Literal, Program, Type, ValueOps};
