// Normalization of boolean expression trees: a set of rewrite rules, each applied
// bottom-up by a shared walker, and a driver that applies them until nothing changes.
// Every rule is specified over the mathematical model of the tree and proved to keep
// the value of the expression under every assignment of its atoms.

pub mod ast;
pub mod utils;
pub mod visit_mut;

pub mod flatten_by_de_morgan;
pub mod flatten_nested_list;
pub mod flatten_single;

pub mod eval_const;
pub mod dedup_list;

pub mod simplify_all_not_any;
pub mod simplify_by_short_circuit;
pub mod simplify_nested_list;

pub mod merge_all_of_any;
pub mod merge_all_of_not_any;

pub mod driver;
