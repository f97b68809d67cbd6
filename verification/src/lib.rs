//! A small tensor compiler whose stages are verified.
//!
//! Programs are graphs of tensor operations. The crate type-checks them,
//! evaluates them, rewrites them, lowers them to affine loop kernels and
//! renders those kernels as C source.
pub mod affine;
pub mod affine_laws;
pub mod bench;
pub mod bench_laws;
pub mod bindings;
pub mod bits_text;
pub mod builder;
pub mod c_expressions;
pub mod c_laws;
pub mod c_lowered_laws;
pub mod c_meaning;
pub mod c_numbers;
pub mod c_program_laws;
pub mod c_reader;
pub mod c_tokens;
pub mod check_laws;
pub mod data;
pub mod domain;
pub mod draws;
pub mod driver;
pub mod dtype;
pub mod egg_graph;
pub mod egg_lang;
pub mod egg_laws;
pub mod egg_search;
pub mod emit_c;
pub mod error;
pub mod eval;
pub mod example_laws;
pub mod example_values;
pub mod examples;
pub mod float;
pub mod float_laws;
pub mod generate;
pub mod graph;
pub mod graph_text;
pub mod index;
pub mod index_laws;
pub mod infer;
pub mod interp_loops;
pub mod kernel_copy;
pub mod loop_ir;
pub mod loop_laws;
pub mod lower;
pub mod lowering;
pub mod lowering_success;
pub mod nests;
pub mod op;
pub mod options;
pub mod pattern_laws;
pub mod pipeline;
pub mod pipeline_error;
pub mod preservation;
pub mod random;
pub mod rational;
pub mod report;
pub mod rule;
pub mod rule_laws;
pub mod rules;
pub mod ruleset;
pub mod run_inputs;
pub mod safety;
pub mod self_check;
pub mod seqs;
pub mod shape;
pub mod soundness;
pub mod sum_laws;
pub mod supply;
pub mod surgery;
pub mod tensor;
pub mod tensor_type;
pub mod text;
pub mod topo;
pub mod type_laws;
pub mod value_laws;

pub use affine::{AffineExpr, LoopVar};
pub use bench::{input_bits, parse_outputs, BenchError};
pub use bindings::Bindings;
pub use builder::GraphBuilder;
pub use data::TensorData;
pub use domain::{Domain, Exact};
pub use draws::GenConfig;
pub use driver::{run, AppliedRewrite, DriverConfig, RunResult};
pub use dtype::DType;
pub use egg_graph::{recexpr_to_graph, recexprs_to_graph};
pub use egg_lang::{graph_to_recexpr, AtomTable, EggError, EggLang, RecExpr};
pub use egg_search::{egg_rules_for_mode, EggConfig, EggResult, EggRule};
pub use emit_c::{emit_c, CodegenError};
pub use error::IrError;
pub use eval::{eval, eval_f64, eval_in, EvalError};
pub use examples::{build_example, list_examples};
pub use generate::{graph_with_pattern, random_graph, random_inputs, Pattern};
pub use graph::{Graph, Node};
pub use infer::{infer_types, GraphTypes, TypeError};
pub use interp_loops::{eval_loops, eval_loops_f64, eval_loops_in, LoopError};
pub use loop_ir::{Buffer, BufferId, BufferRef, BufferRole, Kernel, ScalarExpr, Stmt};
pub use lower::{lower, LowerError};
pub use op::{NodeId, Op};
pub use options::{parse_shape_spec, CostKind, Mode, MoveDesc, RunOpts};
pub use pipeline_error::PipelineError;
pub use rational::Rational;
pub use report::{CheckStatus, RunReport, RunStatus};
pub use rule::Rewrite;
pub use rules::{NegNegElim, ReluIdempotentElim, ReshapeReshapeFuse};
pub use ruleset::{Rule, RuleSet};
pub use safety::{Law, NumericSafety, RewriteMode};
pub use shape::{Dim, Shape};
pub use surgery::{prune_and_rebuild, redefine_node, replace_all_uses, SurgeryError};
pub use tensor::{DenseTensor, Tensor, TensorF64};
pub use tensor_type::TensorType;
