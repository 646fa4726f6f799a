//! Where the backup files are: the directory that a backend reads them
//! from. Reading the files themselves is left to the program.

pub mod local;
