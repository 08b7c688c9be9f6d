//! The program whose sessions are read: the names under which it is spoken of.
use vstd::prelude::*;

verus! {

/// A model that the program can use.
#[derive(Debug, Clone, PartialEq, Eq)]
pub struct Model {
    /// Its name.
    pub name: String,
    /// What it is good for.
    pub what: String,
}

/// The program whose sessions are read. Its names are those of the installation.
#[derive(Debug, Clone, PartialEq, Eq)]
pub struct Host {
    /// Its name.
    pub name: String,
    /// The short form of its name.
    pub brand: String,
    /// The id of the provider of its sessions.
    pub provider: String,
    /// The name of the file with its instructions.
    pub instructions: String,
    /// The name of the tools around it, as the guide has it.
    pub title: String,
    /// The models that it can use.
    pub models: Vec<Model>,
}

} // verus!
