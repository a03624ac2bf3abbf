use vstd::prelude::*;

verus! {

/// A reserved word of the language.
#[derive(Debug, Clone, Copy, PartialEq, Eq, Structural)]
pub enum Keyword {
    True,
    False,
    Null,
    Let,
    Const,
    Class,
    New,
    Import,
    From,
    Function,
    If,
    Else,
    Foreach,
    While,
    For,
    Export,
    Typeof,
    In,
}

/// The keyword that a word spells, if any.
pub open spec fn keyword_of(s: Seq<char>) -> Option<Keyword> {
    if s == "true"@ {
        Some(Keyword::True)
    } else if s == "false"@ {
        Some(Keyword::False)
    } else if s == "null"@ {
        Some(Keyword::Null)
    } else if s == "let"@ {
        Some(Keyword::Let)
    } else if s == "const"@ {
        Some(Keyword::Const)
    } else if s == "class"@ {
        Some(Keyword::Class)
    } else if s == "new"@ {
        Some(Keyword::New)
    } else if s == "import"@ {
        Some(Keyword::Import)
    } else if s == "from"@ {
        Some(Keyword::From)
    } else if s == "fn"@ {
        Some(Keyword::Function)
    } else if s == "if"@ {
        Some(Keyword::If)
    } else if s == "else"@ {
        Some(Keyword::Else)
    } else if s == "foreach"@ {
        Some(Keyword::Foreach)
    } else if s == "while"@ {
        Some(Keyword::While)
    } else if s == "for"@ {
        Some(Keyword::For)
    } else if s == "export"@ {
        Some(Keyword::Export)
    } else if s == "typeof"@ {
        Some(Keyword::Typeof)
    } else if s == "in"@ {
        Some(Keyword::In)
    } else {
        None
    }
}

fn spells(s: &String, word: &str) -> (r: bool)
    ensures
        r == (s@ == word@),
{
    let w: String = word.to_owned();
    *s == w
}

impl Keyword {
    /// The keyword that a word spells, if any.
    pub fn new(str: &String) -> (r: Option<Keyword>)
        ensures
            r == keyword_of(str@),
    {
        if spells(str, "true") {
            Some(Keyword::True)
        } else if spells(str, "false") {
            Some(Keyword::False)
        } else if spells(str, "null") {
            Some(Keyword::Null)
        } else if spells(str, "let") {
            Some(Keyword::Let)
        } else if spells(str, "const") {
            Some(Keyword::Const)
        } else if spells(str, "class") {
            Some(Keyword::Class)
        } else if spells(str, "new") {
            Some(Keyword::New)
        } else if spells(str, "import") {
            Some(Keyword::Import)
        } else if spells(str, "from") {
            Some(Keyword::From)
        } else if spells(str, "fn") {
            Some(Keyword::Function)
        } else if spells(str, "if") {
            Some(Keyword::If)
        } else if spells(str, "else") {
            Some(Keyword::Else)
        } else if spells(str, "foreach") {
            Some(Keyword::Foreach)
        } else if spells(str, "while") {
            Some(Keyword::While)
        } else if spells(str, "for") {
            Some(Keyword::For)
        } else if spells(str, "export") {
            Some(Keyword::Export)
        } else if spells(str, "typeof") {
            Some(Keyword::Typeof)
        } else if spells(str, "in") {
            Some(Keyword::In)
        } else {
            None
        }
    }
}

} // verus!
