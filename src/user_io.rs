//! The configuration file's records and the toggle records as clients see
//! them, without any behaviour of their own.

use vstd::prelude::*;

verus! {

#[derive(Debug)]
pub struct Context {
    pub name: String,
    pub features: Vec<Feature>,
    pub segments: Vec<Segment>,
}

#[derive(Debug)]
pub struct Feature {
    pub name: String,
    pub description: String,
    pub treatments: Vec<Treatment>,
}

#[derive(Debug)]
pub struct Treatment {
    pub probability: i8,
    pub segments: Vec<String>,
    pub value: String,
}

#[derive(Debug)]
pub struct Segment {
    pub name: String,
    pub user_identifiers: Vec<String>,
}

#[derive(Debug)]
pub struct Toggles {
    pub toggles: Vec<Toggle>,
}

#[derive(Debug)]
pub struct Toggle {
    name: String,
    value: String,
}

} // verus!
