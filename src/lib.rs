//! A relational schema differ: from a previous and a next schema snapshot it computes the
//! ordered migration steps that turn one into the other, with the connection-string parser of
//! its SQLite connector.

pub mod schema;
pub mod steps;
pub mod flavour;
pub mod differ;
pub mod table;
pub mod index;
pub mod enums;
pub mod calculate;
pub mod sqlite;
pub mod identity;
