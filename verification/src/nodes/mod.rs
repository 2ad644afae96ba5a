//! What the analysis does for statements and expressions of the analyzed
//! source, each node described by plain values: the decisions, as the steps
//! to take in order, with the work on the syntax tree left to the caller.
pub mod class;
pub mod expression;
pub mod member_expression;
pub mod module_declaration;
pub mod unary_expression;
