pub mod if_stmt;
