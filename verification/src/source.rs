//! Source files.
use std::sync::Arc;

use vstd::prelude::*;

use crate::text::clone_text;

verus! {

/// A source file: its name, if it has one, and its text.
pub struct SourceModel {
    pub name: Option<Seq<char>>,
    pub content: Seq<char>,
}

/// A source file, with its name where it has one.
#[derive(Debug)]
pub struct SourceFile {
    name: Option<String>,
    content: Arc<str>,
}

impl View for SourceFile {
    type V = SourceModel;

    closed spec fn view(&self) -> SourceModel {
        SourceModel {
            name: match self.name {
                Some(name) => Some(name@),
                None => None,
            },
            content: (*self.content)@,
        }
    }
}

impl Clone for SourceFile {
    fn clone(&self) -> (r: Self)
        ensures
            r@ == self@,
    {
        SourceFile { name: clone_text(&self.name), content: self.content.clone() }
    }
}

impl SourceFile {
    /// The file with the given name and text.
    pub fn new(name: &str, content: Arc<str>) -> (r: SourceFile)
        ensures
            r@ == (SourceModel { name: Some(name@), content: (*content)@ }),
    {
        SourceFile { name: Some(name.to_string()), content }
    }

    /// A text that stands in no file.
    pub fn anonymous(content: Arc<str>) -> (r: SourceFile)
        ensures
            r@ == (SourceModel { name: None, content: (*content)@ }),
    {
        SourceFile { name: None, content }
    }

    /// The name of the file, if it has one.
    pub fn name(&self) -> (r: Option<&str>)
        ensures
            self@.name == match r {
                Some(name) => Some(name@),
                None => None,
            },
    {
        match &self.name {
            Some(name) => Some(name.as_str()),
            None => None,
        }
    }

    /// The text of the file.
    pub fn content(&self) -> (r: Arc<str>)
        ensures
            (*r)@ == self@.content,
    {
        self.content.clone()
    }
}

} // verus!
