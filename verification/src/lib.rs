//! The front half of a SystemVerilog simulator: preprocessing, lowering the syntax
//! tree of the Verible parser, checking a design against the supported subset, and
//! elaborating it to classes, register programs, nets, drivers and processes.
//!
//! * Values: [`bit`], [`logic`] and [`literal`] for four-state vectors, [`time`] and
//!   [`region`] for simulation time and event regions.
//! * Front end: [`preprocess`], [`verible`] and [`cst`] for what the parser prints,
//!   [`syntax_check`] for the supported syntax, [`lower`] for the way to the syntax
//!   tree in [`ast`], and [`front`] for all of it.
//! * Elaboration: [`design_check`] for the supported semantics, [`mono`] for
//!   parameterized classes, [`layout`] and [`link`] for classes, [`gen_program`] for
//!   code in [`ir`], [`hierarchy`] for modules, and [`elaborate`] for all of it.
//!
//! The modules whose names end in `_laws` state what holds across functions.
pub mod accept_laws;
pub mod ast;
pub mod ast_model;
pub mod bit;
pub mod bits;
pub mod case_laws;
pub mod check_laws;
pub mod class_layout;
pub mod code_model;
pub mod compile;
pub mod complaint;
pub mod const_expr;
pub mod const_fold;
pub mod cst;
pub mod cst_laws;
pub mod decl_laws;
pub mod delay_check;
pub mod describe;
pub mod design_check;
pub mod design_laws;
pub mod drive;
pub mod effect_laws;
pub mod elaborate;
pub mod flow_laws;
pub mod front;
pub mod front_laws;
pub mod gather;
pub mod gather_laws;
pub mod gen_expr;
pub mod gen_laws;
pub mod gen_model;
pub mod gen_program;
pub mod gen_simple;
pub mod gen_stmt;
pub mod gen_stmt_model;
pub mod hierarchy;
pub mod hierarchy_laws;
pub mod ir;
pub mod layout;
pub mod layout_laws;
pub mod link;
pub mod literal;
pub mod logic;
pub mod logic_laws;
pub mod lower;
pub mod lower_body;
pub mod lower_check;
pub mod lower_class;
pub mod lower_decl;
pub mod lower_expr;
pub mod lower_module;
pub mod lower_stmt;
pub mod lower_types;
pub mod machine;
pub mod macros;
pub mod mangle;
pub mod meaning;
pub mod message;
pub mod mono;
pub mod mono_growth;
pub mod mono_laws;
pub mod mono_model;
pub mod mono_names;
pub mod net_check;
pub mod numbering;
pub mod order_laws;
pub mod preprocess;
pub mod preprocess_laws;
pub mod program_laws;
pub mod region;
pub mod run_laws;
pub mod scan;
pub mod scan_laws;
pub mod source_laws;
pub mod stmt_check;
pub mod stmt_laws;
pub mod strength;
pub mod subset;
pub mod subset_laws;
pub mod symbol_laws;
pub mod syntax_check;
pub mod table;
pub mod text;
pub mod time;
pub mod tree_laws;
pub mod value_laws;
pub mod verible;
