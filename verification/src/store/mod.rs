//! What the engine remembers: applications, traffic, alerts, what plugins may do,
//! and the rules that they propose. It is kept in a database; here stand the
//! statements, what they do to the tables, and what is made of their answers.

pub mod grants;
pub mod proposals;
pub mod rows;
pub mod schema;
pub mod statement;
pub mod tables;
