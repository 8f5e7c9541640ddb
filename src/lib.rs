//! An abstract interpreter for a small imperative language (assignments,
//! sequences, conditionals and loops over integers).
//!
//! A program text is split into tokens (`lexer`), parsed into a concrete syntax
//! tree (`parser`, `cst`) and lowered to the core syntax (`desugar`, `ast`). The
//! core syntax becomes a control-flow graph whose arcs carry assignments and tests
//! (`program`), with its literals turned into elements of a numeric abstract
//! domain (`translate`). The domains (`sign`, `ext_sign`, `interval`, `congruence`)
//! share the lattice interface of `domain`; abstract states map variables to their
//! elements (`state`). Expressions are evaluated forwards (`semantics`), tests
//! refine states backwards (`refine`), and the fixpoint engine (`analyzer`)
//! iterates over the graph with widening and narrowing. A concrete interpreter
//! (`interpreter`) gives the reference semantics.
use vstd::prelude::*;

pub mod analyzer;
pub mod ast;
pub mod config;
pub mod congruence;
pub mod cst;
pub mod desugar;
pub mod domain;
pub mod ext_num;
pub mod ext_sign;
pub mod interpreter;
pub mod interval;
pub mod lexer;
pub mod loop_laws;
pub mod parser;
pub mod program;
pub mod refine;
pub mod semantics;
pub mod sign;
pub mod simple_refine;
pub mod soundness;
pub mod state;
pub mod state_laws;
pub mod translate;
pub mod values;

verus! {

} // verus!
