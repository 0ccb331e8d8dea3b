//! File names, the rules that rewrite them, and the errors of the library.
use vstd::prelude::*;
use vstd::string::StringExecFns;
use crate::clock::{local_now, Moment};
use crate::fs::{IoFailure, Metadata};
use crate::paths::{
    extension_of, extension_of_name, file_name, file_name_of, split_file_name, stem_of_name,
    stem_text,
};
use crate::text::{chars_of, nfc, nfc_of, text_of};

verus! {

/// What can go wrong in the library.
#[derive(Debug)]
pub enum GravityError {
    /// A filesystem operation failed.
    Io(IoFailure),
    /// A name could not be normalized.
    Normalization,
    /// A rule could not be carried out.
    RuleError(String),
}

impl GravityError {
    /// The text of the error as a sequence of characters.
    pub open spec fn spec_message(&self) -> Seq<char> {
        match self {
            GravityError::Io(failure) => "IO error: "@ + failure.message@,
            GravityError::Normalization => "Normalization error"@,
            GravityError::RuleError(reason) => "Rule execution failed: "@ + reason@,
        }
    }

    /// The text of the error, for a reader.
    pub fn message(&self) -> (r: String)
        ensures
            r@ == self.spec_message(),
    {
        match self {
            GravityError::Io(failure) => {
                let mut out = String::from_str("IO error: ");
                out.append(failure.message.as_str());
                out
            },
            GravityError::Normalization => String::from_str("Normalization error"),
            GravityError::RuleError(reason) => {
                let mut out = String::from_str("Rule execution failed: ");
                out.append(reason.as_str());
                out
            },
        }
    }
}

/// A file name split into its base and its extension.
#[derive(Debug, Clone, PartialEq, Eq)]
pub struct Filename {
    pub base: String,
    pub extension: Option<String>,
}

/// The mathematical value of a [`Filename`].
pub struct FilenameModel {
    pub base: Seq<char>,
    pub extension: Option<Seq<char>>,
}

impl FilenameModel {
    /// The file name as one text: the base alone, or the base, a dot and the
    /// extension.
    pub open spec fn text(self) -> Seq<char> {
        match self.extension {
            Some(ext) => self.base + seq!['.'] + ext,
            None => self.base,
        }
    }
}

/// The base and extension that a normalized file name splits into.
pub open spec fn split_name(name: Seq<char>) -> FilenameModel {
    FilenameModel { base: stem_text(name), extension: extension_of(name) }
}

/// What parsing a path into a file name yields: the split of the normalized
/// final component, or nothing where the path has no final component.
pub open spec fn parsed_name(path: Seq<char>) -> Option<FilenameModel> {
    match file_name_of(path) {
        Some(name) => Some(split_name(nfc_of(name))),
        None => None,
    }
}

impl View for Filename {
    type V = FilenameModel;

    open spec fn view(&self) -> FilenameModel {
        FilenameModel {
            base: self.base@,
            extension: match self.extension {
                Some(ext) => Some(ext@),
                None => None,
            },
        }
    }
}

impl Filename {
    /// Parses the final component of a path: the component is brought to
    /// Unicode normalization form C and split into base and extension. A path
    /// without a final component is refused with a `RuleError` that says
    /// "Invalid path".
    pub fn from_path(path: &str) -> (r: Result<Filename, GravityError>)
        ensures
            match parsed_name(path@) {
                Some(name) => r is Ok && r->Ok_0@ == name,
                None => r is Err && (r->Err_0 matches GravityError::RuleError(reason)
                    && reason@ == "Invalid path"@),
            },
    {
        match file_name(path) {
            None => Err(GravityError::RuleError(String::from_str("Invalid path"))),
            Some(name) => {
                let normalized = nfc(name.as_str());
                match file_name(normalized.as_str()) {
                    Some(component) => Ok(Filename::from_file_name(component.as_str())),
                    None => Ok(Filename { base: String::new(), extension: None }),
                }
            },
        }
    }

    /// Splits a file name, a single component of a path, into base and
    /// extension. The extension is what follows the last dot; a name without
    /// a dot, or with none but the one it begins with, has no extension and
    /// is its own base.
    pub fn from_file_name(name: &str) -> (r: Filename)
        ensures
            r@ == (FilenameModel {
                base: stem_of_name(name@),
                extension: extension_of_name(name@),
            }),
    {
        let (base, extension) = split_file_name(name);
        Filename { base, extension }
    }

    /// The file name as one text: the base alone, or the base, a dot and the
    /// extension.
    pub fn to_string(&self) -> (r: String)
        ensures
            r@ == self@.text(),
    {
        match &self.extension {
            Some(ext) => {
                let mut out = chars_of(self.base.as_str());
                out.push('.');
                let tail = chars_of(ext.as_str());
                crate::text::append_chars(&mut out, &tail);
                text_of(&out)
            },
            None => self.base.clone(),
        }
    }
}

/// Which characters a filter removes.
#[derive(Debug, Clone, Copy, PartialEq, Eq)]
pub enum FilterType {
    /// Numeric characters.
    Numbers,
    /// Alphabetic characters.
    Letters,
    /// White space.
    Whitespace,
    /// Whatever is neither alphabetic nor numeric nor white space.
    Symbols,
}

/// How a case transform rewrites a base name.
#[derive(Debug, Clone, Copy, PartialEq, Eq)]
pub enum CaseType {
    Lowercase,
    Uppercase,
    /// The first character in upper case, the rest in lower case.
    Titlecase,
    /// Leaves the name as it is.
    CamelCase,
    /// Leaves the name as it is.
    SnakeCase,
}

/// Where a literal is inserted.
#[derive(Debug, Clone, Copy, PartialEq, Eq)]
pub enum Position {
    /// Before the base name.
    Start,
    /// After the base name.
    End,
    /// Before the character that starts at this byte of the UTF-8 form of the
    /// base name. An index at which no character starts, because it is past
    /// the end or falls inside a character, puts the literal at the end.
    Index(usize),
}

/// Which date a date rule inserts.
#[derive(Debug, Clone, Copy, PartialEq, Eq)]
pub enum DateSource {
    /// The time at which the context was made.
    Current,
    /// When the file was created.
    Created,
    /// When the file was last modified.
    Modified,
    /// When the picture in the file was taken, from its EXIF data.
    Exif,
}

/// One step of a naming pipeline. A rule rewrites the base of a file name and
/// leaves the extension alone.
#[derive(Debug, Clone)]
pub enum Rule {
    /// Removes the prefix from a base name that begins with it.
    StripPrefix { prefix: String },
    /// Removes the suffix from a base name that ends with it.
    StripSuffix { suffix: String },
    /// Replaces every match of a regular expression. A pattern that is not a
    /// valid expression leaves the name as it is.
    RegexReplace { pattern: String, replacement: String },
    /// Changes the case of the base name.
    CaseTransform { transform: CaseType },
    /// Puts a text into the base name.
    Literal { text: String, position: Position },
    /// Appends the separator and the number `start + index * step`, where
    /// `index` is the position of the file in its batch. The number is
    /// written in decimal and filled with zeros on the left up to `padding`
    /// characters; a number that is longer is written in full.
    Counter { padding: usize, start: usize, step: usize, separator: String },
    /// Appends a date rendered under a `strftime` format. Nothing is appended
    /// where the file has no path or no date of that kind, or where the format
    /// is not valid.
    DateInsertion { format: String, source: DateSource },
    /// Removes the characters of one class.
    FilterContent { filter: FilterType },
}

/// What a rule may read besides the name itself: the position of the file in
/// its batch, its path, and the dates that belong to it. The clock and the
/// file's dates are read when the context is made, so that a rule is a
/// function of the name and the context alone.
#[derive(Debug, Clone)]
pub struct Context {
    pub index: usize,
    pub path: Option<String>,
    pub now: Moment,
    pub created: Option<Moment>,
    pub modified: Option<Moment>,
    pub captured: Option<Moment>,
}

impl Context {
    /// A context for a file of which no dates are known but the current time.
    pub fn new(index: usize, path: Option<String>) -> (r: Context)
        ensures
            r.index == index,
            r.path == path,
            r.created is None,
            r.modified is None,
            r.captured is None,
    {
        Context { index, path, now: local_now(), created: None, modified: None, captured: None }
    }

    /// A context for a file with the dates that the filesystem reported.
    pub fn with_metadata(index: usize, path: Option<String>, metadata: &Metadata) -> (r: Context)
        ensures
            r.index == index,
            r.path == path,
            r.created == metadata.created,
            r.modified == metadata.modified,
            r.captured == metadata.captured,
    {
        Context {
            index,
            path,
            now: local_now(),
            created: metadata.created,
            modified: metadata.modified,
            captured: metadata.captured,
        }
    }

    /// The date that a source stands for in this context. Without a path there
    /// is no date, whatever the source.
    pub open spec fn date(&self, source: DateSource) -> Option<Moment> {
        if self.path is None {
            None
        } else {
            match source {
                DateSource::Current => Some(self.now),
                DateSource::Created => self.created,
                DateSource::Modified => self.modified,
                DateSource::Exif => self.captured,
            }
        }
    }
}

/// An ordered list of rules, applied left to right.
#[derive(Debug, Clone)]
pub struct Pipeline {
    pub rules: Vec<Rule>,
}

} // verus!
