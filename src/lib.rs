//! Packs the files found directly inside a directory into a store-only zip
//! archive (a comic book archive), and decides the steps of one such run.
pub mod archive;
pub mod opts;
pub mod run;
