//! Dialects of the language family and the parsing front end.

pub mod ast;
pub mod dialects;
pub mod entities;
pub mod incremental;
pub mod lexer;
pub mod marble;
pub mod members;
pub mod parser;
pub mod records;
pub mod schemas;
pub mod statements;
pub mod syntax_tree;

use crate::text::{lower, lower_chars, chars_eq_str};
use vstd::prelude::*;

verus! {

/// One of the seven supported dialects.
#[derive(Debug, Clone, Copy, PartialEq, Eq, Hash, Structural)]
pub enum Language {
    /// Procedural dialect with annotations and naming conventions.
    PlSql,
    /// Entity definitions.
    Entity,
    /// Enumeration definitions.
    Enumeration,
    /// View definitions.
    Views,
    /// Storage definitions.
    Storage,
    /// Server-side projection DSL.
    MarbleProjection,
    /// Client layout DSL.
    MarbleClient,
}

impl Language {
    /// The file extension, with its dot, that selects this dialect.
    pub open spec fn extension(self) -> Seq<char> {
        match self {
            Language::PlSql => ".plsql"@,
            Language::Entity => ".entity"@,
            Language::Enumeration => ".enumeration"@,
            Language::Views => ".views"@,
            Language::Storage => ".storage"@,
            Language::MarbleProjection => ".projection"@,
            Language::MarbleClient => ".client"@,
        }
    }

    /// The dialect selected by the extension `ext` (written with its dot),
    /// letters compared without regard to ASCII case; `None` where no dialect
    /// has that extension.
    pub open spec fn of_extension(ext: Seq<char>) -> Option<Language> {
        Language::of_lowered(lower(ext))
    }

    /// The dialect whose extension is `e`, letter for letter.
    pub open spec fn of_lowered(e: Seq<char>) -> Option<Language> {
        if e == Language::PlSql.extension() {
            Some(Language::PlSql)
        } else if e == Language::Entity.extension() {
            Some(Language::Entity)
        } else if e == Language::Enumeration.extension() {
            Some(Language::Enumeration)
        } else if e == Language::Views.extension() {
            Some(Language::Views)
        } else if e == Language::Storage.extension() {
            Some(Language::Storage)
        } else if e == Language::MarbleProjection.extension() {
            Some(Language::MarbleProjection)
        } else if e == Language::MarbleClient.extension() {
            Some(Language::MarbleClient)
        } else {
            None
        }
    }

    /// The file extensions associated with this dialect.
    pub fn extensions(&self) -> (r: &'static [&'static str])
        ensures
            r@.len() == 1,
            r@[0]@ == self.extension(),
    {
        match self {
            Language::PlSql => &[".plsql"],
            Language::Entity => &[".entity"],
            Language::Enumeration => &[".enumeration"],
            Language::Views => &[".views"],
            Language::Storage => &[".storage"],
            Language::MarbleProjection => &[".projection"],
            Language::MarbleClient => &[".client"],
        }
    }

    /// The dialect that a file extension selects.
    pub fn from_extension(ext: &str) -> (r: Option<Language>)
        ensures
            r == Language::of_extension(ext@),
    {
        let e = lower_chars(ext);
        Language::from_lowered(&e)
    }

    /// The dialect whose extension is `e`, given in small letters.
    pub fn from_lowered(e: &Vec<char>) -> (r: Option<Language>)
        ensures
            r == Language::of_lowered(e@),
    {
        if chars_eq_str(&e, ".plsql") {
            Some(Language::PlSql)
        } else if chars_eq_str(&e, ".entity") {
            Some(Language::Entity)
        } else if chars_eq_str(&e, ".enumeration") {
            Some(Language::Enumeration)
        } else if chars_eq_str(&e, ".views") {
            Some(Language::Views)
        } else if chars_eq_str(&e, ".storage") {
            Some(Language::Storage)
        } else if chars_eq_str(&e, ".projection") {
            Some(Language::MarbleProjection)
        } else if chars_eq_str(&e, ".client") {
            Some(Language::MarbleClient)
        } else {
            None
        }
    }
}

} // verus!
