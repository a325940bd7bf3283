//! Which names count in the archive: numbered folders and numbered markdown
//! files, each told by a regular expression. The note pattern is the strict
//! one: digits and `.md`, so that `4.md` is a note and `notvalid_5.md` is
//! none.

use crate::trusted::{pattern_compiles, pattern_language, regex_language};
use vstd::prelude::*;

verus! {

/// The pattern of a folder that holds notes: decimal digits and nothing else.
pub open spec fn folder_pattern() -> Seq<char> {
    "^[0-9]+$"@
}

/// The pattern of a note file: decimal digits, then `.md`.
pub open spec fn note_pattern() -> Seq<char> {
    "^[0-9]+\\.md$"@
}

/// A directory of this name is descended into.
pub open spec fn is_folder_name(name: Seq<char>) -> bool {
    pattern_language(folder_pattern()).contains(name)
}

/// A file of this name is a note.
pub open spec fn is_note_name(name: Seq<char>) -> bool {
    pattern_language(note_pattern()).contains(name)
}

/// The pattern that did not compile.
#[derive(Clone, Copy, PartialEq, Eq, Structural, Debug)]
pub enum PatternError {
    Folder,
    Note,
}

/// The two patterns, compiled.
pub struct NameRules {
    folder: regex::Regex,
    note: regex::Regex,
}

impl NameRules {
    /// The haystacks that the compiled folder pattern matches.
    pub closed spec fn folder_language(&self) -> Set<Seq<char>> {
        regex_language(self.folder)
    }

    /// The haystacks that the compiled note pattern matches.
    pub closed spec fn note_language(&self) -> Set<Seq<char>> {
        regex_language(self.note)
    }

    #[verifier::type_invariant]
    spec fn well_formed(&self) -> bool {
        &&& self.folder_language() == pattern_language(folder_pattern())
        &&& self.note_language() == pattern_language(note_pattern())
    }

    /// The rules, from what compiling the folder pattern and the note pattern
    /// gave; the first of the two that failed is reported.
    pub fn from_compiled(
        folder: Result<regex::Regex, regex::Error>,
        note: Result<regex::Regex, regex::Error>,
    ) -> (r: Result<NameRules, PatternError>)
        requires
            folder matches Ok(re) ==> regex_language(re) == pattern_language(folder_pattern()),
            note matches Ok(re) ==> regex_language(re) == pattern_language(note_pattern()),
        ensures
            r is Ok <==> folder is Ok && note is Ok,
            r matches Err(e) ==> e == (if folder is Err {
                PatternError::Folder
            } else {
                PatternError::Note
            }),
            r matches Ok(rules) ==> rules.folder_language() == pattern_language(folder_pattern())
                && rules.note_language() == pattern_language(note_pattern()),
    {
        match folder {
            Err(_) => Err(PatternError::Folder),
            Ok(folder) => match note {
                Err(_) => Err(PatternError::Note),
                Ok(note) => Ok(NameRules { folder, note }),
            },
        }
    }

    /// Compiles the folder pattern and the note pattern: the rules where
    /// both compile, and otherwise the first of the two that does not.
    pub fn new() -> (r: Result<NameRules, PatternError>)
        ensures
            r is Ok <==> pattern_compiles(folder_pattern()) && pattern_compiles(note_pattern()),
            r matches Err(e) ==> e == (if !pattern_compiles(folder_pattern()) {
                PatternError::Folder
            } else {
                PatternError::Note
            }),
            r matches Ok(rules) ==> rules.folder_language() == pattern_language(folder_pattern())
                && rules.note_language() == pattern_language(note_pattern()),
    {
        let folder = regex::Regex::new("^[0-9]+$");
        let note = regex::Regex::new("^[0-9]+\\.md$");
        NameRules::from_compiled(folder, note)
    }

    /// Whether a directory called `name` is descended into.
    pub fn is_folder_name(&self, name: &str) -> (b: bool)
        ensures
            b == is_folder_name(name@),
    {
        proof {
            use_type_invariant(self);
        }
        self.folder.is_match(name)
    }

    /// Whether a file called `name` is a note.
    pub fn is_note_name(&self, name: &str) -> (b: bool)
        ensures
            b == is_note_name(name@),
    {
        proof {
            use_type_invariant(self);
        }
        self.note.is_match(name)
    }
}

} // verus!
