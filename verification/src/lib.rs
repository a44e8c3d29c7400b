//! A sudoers policy engine: parsing the sudoers configuration grammar into an
//! AST, resolving named aliases with cycle detection, and evaluating an
//! elevation request against the ordered rule set.

pub mod alias;
pub mod ast;
pub mod check;
pub mod digest;
pub mod eval;
pub mod glob;
pub mod parse;
pub mod policy;
pub mod secure;

pub use alias::sanitize_alias_table;
pub use ast::{
    Command, CommandSpec, Def, DigestAlg, Directive, Error, ErrorKind, Meta, PermissionRule,
    Qualified, RunasSpec, Settings, Sha2, Spec, Sudo, Tag, UserSpecifier,
};
pub use check::{
    check_permission, AliasTable, Authorization, DirChange, Judgement, Request, Sudoers,
};
pub use eval::{GroupRecord, UserRecord};
pub use glob::glob_match;
pub use parse::parse_line;
pub use policy::analyze;
pub use secure::Secure;
