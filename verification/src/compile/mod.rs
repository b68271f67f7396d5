pub mod alpha_reduce;
pub mod anf;
pub mod anf_print;
pub mod assoc;
pub mod bindings;
pub mod census;
pub mod compilation_error;
pub mod core_expr;
pub mod expand;
pub mod gensym;
pub mod ident;
pub mod pass;
pub mod read;
pub mod sexpr;
pub mod source_loc;
pub mod span;
pub mod src_loc;
pub mod symbol_map;
pub mod syntax;
pub mod text;
pub mod util;
