//! Front end of a small Scheme compiler: a lexer and a reader, s-expressions
//! with scope sets on their identifiers, binding resolution, `syntax-rules`
//! transformers, lowering into a core language, A-normal form, and the
//! optimizations on it (beta reduction, dead code elimination, copy, constant
//! and eta propagation).
pub mod compile;
