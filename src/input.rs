//! Language registry: which files are scanned, and as which language.
use std::path::PathBuf;
use tree_sitter::{Language, Query, QueryError};
use vstd::prelude::*;

verus! {

#[verifier::external_type_specification]
#[verifier::external_body]
pub struct ExPathBuf(std::path::PathBuf);

#[verifier::external_type_specification]
#[verifier::external_body]
pub struct ExLanguage(tree_sitter::Language);

#[verifier::external_type_specification]
#[verifier::external_body]
pub struct ExQuery(tree_sitter::Query);

#[verifier::external_type_specification]
#[verifier::external_body]
pub struct ExQueryError(tree_sitter::QueryError);

/// The languages whose comments can be extracted.
#[derive(Debug, Clone, Copy, PartialEq, Eq, Structural)]
pub enum FileType {
    Python,
    Rust,
    JavaScript,
}

/// Why a path could not be given a language.
#[derive(Debug, Clone, Copy, PartialEq, Eq, Structural)]
pub enum FileTypeError {
    /// The path has no extension, or one outside the table.
    InvalidExtension,
}

/// The extension table: an exact, case-sensitive match.
pub open spec fn file_type_of_extension(ext: Option<Seq<char>>) -> Option<FileType> {
    match ext {
        Some(e) => if e == seq!['p', 'y'] {
            Some(FileType::Python)
        } else if e == seq!['r', 's'] {
            Some(FileType::Rust)
        } else if e == seq!['j', 's'] {
            Some(FileType::JavaScript)
        } else {
            None
        },
        None => None,
    }
}

/// Classification as a `Result`: unsupported extensions are an error.
pub open spec fn classify(ext: Option<Seq<char>>) -> Result<FileType, FileTypeError> {
    match file_type_of_extension(ext) {
        Some(t) => Ok(t),
        None => Err(FileTypeError::InvalidExtension),
    }
}

/// What `Path::extension` gives on this target for the path written as
/// `text` (which characters separate components is the target's own rule).
pub uninterp spec fn path_extension(text: Seq<char>) -> Option<Seq<char>>;

/// What `Path::to_string_lossy` gives for `path`.
pub uninterp spec fn path_chars(path: PathBuf) -> Seq<char>;

/// Relies on `Path::to_string_lossy`: the path as text. Invalid UTF-8 turns
/// into U+FFFD, which neither adds nor removes a `.` or a separator, so the
/// extension is kept wherever it is valid UTF-8.
#[verifier::external_body]
fn path_text(path: &PathBuf) -> (r: String)
    ensures
        r@ == path_chars(*path),
{
    path.to_string_lossy().into_owned()
}

/// Relies on `Path::extension`: the part after the last `.` of the file name,
/// if there is one.
#[verifier::external_body]
fn extension_of_text(text: &str) -> (r: Option<String>)
    ensures
        match r {
            Some(e) => path_extension(text@) == Some(e@),
            None => path_extension(text@) is None,
        },
{
    std::path::Path::new(text).extension().and_then(|e| e.to_str()).map(|e| e.to_string())
}

/// True when `s` holds exactly the two characters `a`, `b`.
fn is_two_chars(s: &str, a: char, b: char) -> (r: bool)
    ensures
        r == (s@ == seq![a, b]),
{
    if s.unicode_len() != 2 {
        return false;
    }
    let c0 = s.get_char(0);
    let c1 = s.get_char(1);
    if c0 == a && c1 == b {
        assert(s@ =~= seq![a, b]);
        true
    } else {
        false
    }
}

/// Looks an extension up in the table.
pub fn file_type_for_extension(ext: Option<&str>) -> (r: Option<FileType>)
    ensures
        r == file_type_of_extension(
            match ext {
                Some(e) => Some(e@),
                None => None,
            },
        ),
{
    match ext {
        Some(e) => {
            if is_two_chars(e, 'p', 'y') {
                Some(FileType::Python)
            } else if is_two_chars(e, 'r', 's') {
                Some(FileType::Rust)
            } else if is_two_chars(e, 'j', 's') {
                Some(FileType::JavaScript)
            } else {
                None
            }
        },
        None => None,
    }
}

/// Classifies a path written as text by its extension.
pub fn determine_file_type_of_text(text: &str) -> (r: Result<FileType, FileTypeError>)
    ensures
        r == classify(path_extension(text@)),
{
    let ext = extension_of_text(text);
    let found = match &ext {
        Some(e) => file_type_for_extension(Some(e.as_str())),
        None => file_type_for_extension(None),
    };
    match found {
        Some(t) => Ok(t),
        None => Err(FileTypeError::InvalidExtension),
    }
}

/// Classifies a path by its extension: Python for `py`, Rust for `rs`,
/// JavaScript for `js`, an error for any other extension or none.
pub fn determine_file_type(path: &PathBuf) -> (r: Result<FileType, FileTypeError>)
    ensures
        r == classify(path_extension(path_chars(*path))),
{
    let text = path_text(path);
    determine_file_type_of_text(text.as_str())
}

impl TryFrom<&PathBuf> for FileType {
    type Error = FileTypeError;

    /// Classifies a path by its extension, as `determine_file_type` does.
    fn try_from(path: &PathBuf) -> (r: Result<FileType, FileTypeError>)
        ensures
            r == classify(path_extension(path_chars(*path))),
    {
        determine_file_type(path)
    }
}

impl vstd::std_specs::convert::TryFromSpecImpl<&PathBuf> for FileType {
    open spec fn obeys_try_from_spec() -> bool {
        true
    }

    open spec fn try_from_spec(path: &PathBuf) -> Result<FileType, FileTypeError> {
        classify(path_extension(path_chars(*path)))
    }
}

/// The query that captures every comment node of a language's grammar.
pub open spec fn query_source(t: FileType) -> Seq<char> {
    match t {
        FileType::Python => "(comment) @comment"@,
        FileType::Rust => "(line_comment) @comment\n(block_comment) @comment"@,
        FileType::JavaScript => "(comment) @comment"@,
    }
}

/// The language whose grammar `l` is: a plain reading of the grammar handle
/// that the three grammar constants below set.
pub uninterp spec fn grammar_kind(l: Language) -> FileType;

/// What `Query::new` compiled: the grammar it was given and the query text.
pub uninterp spec fn compiled_from(q: Query) -> (FileType, Seq<char>);

/// Relies on `tree_sitter_python::LANGUAGE`: the Python grammar.
#[verifier::external_body]
fn python_language() -> (r: Language)
    ensures
        grammar_kind(r) == FileType::Python,
{
    tree_sitter_python::LANGUAGE.into()
}

/// Relies on `tree_sitter_rust::LANGUAGE`: the Rust grammar.
#[verifier::external_body]
fn rust_language() -> (r: Language)
    ensures
        grammar_kind(r) == FileType::Rust,
{
    tree_sitter_rust::LANGUAGE.into()
}

/// Relies on `tree_sitter_javascript::LANGUAGE`: the JavaScript grammar.
#[verifier::external_body]
fn javascript_language() -> (r: Language)
    ensures
        grammar_kind(r) == FileType::JavaScript,
{
    tree_sitter_javascript::LANGUAGE.into()
}

/// Relies on `tree_sitter::Query::new`: compiles `source` for `language`;
/// a query that comes out was compiled from exactly these two.
#[verifier::external_body]
fn compile_query(language: &Language, source: &str) -> (r: Result<Query, QueryError>)
    ensures
        r matches Ok(q) ==> compiled_from(q) == (grammar_kind(*language), source@),
{
    Query::new(language, source)
}

impl FileType {
    /// The text of this language's comment query: single-line and block
    /// comments where the grammar tells them apart.
    pub fn comment_query_source(&self) -> (r: &'static str)
        ensures
            r@ == query_source(*self),
    {
        match self {
            FileType::Python => "(comment) @comment",
            FileType::Rust => "(line_comment) @comment\n(block_comment) @comment",
            FileType::JavaScript => "(comment) @comment",
        }
    }

    /// This language's grammar.
    pub fn tree_sitter_language(&self) -> (r: Language)
        ensures
            grammar_kind(r) == *self,
    {
        match self {
            FileType::Python => python_language(),
            FileType::Rust => rust_language(),
            FileType::JavaScript => javascript_language(),
        }
    }

    /// This language's compiled comment query, as the registry holds it.
    pub fn tree_sitter_query<'a>(&self, registry: &'a Registry) -> (r: &'a Query)
        ensures
            *r == registry.grammar_for(*self).1,
            registry.well_formed() ==> compiled_from(*r) == (*self, query_source(*self)),
    {
        &registry.grammar(*self).1
    }
}

/// A language's grammar with its comment query compiled for it.
pub open spec fn grammar_ok(t: FileType, g: (Language, Query)) -> bool {
    &&& grammar_kind(g.0) == t
    &&& compiled_from(g.1) == (t, query_source(t))
}

/// The compiled comment queries, one per language, each beside its grammar:
/// built once, then shared read-only by every extraction.
pub struct Registry {
    python: (Language, Query),
    rust: (Language, Query),
    javascript: (Language, Query),
}

impl Registry {
    /// The grammar and query that the registry holds for `t`.
    pub closed spec fn grammar_for(&self, t: FileType) -> (Language, Query) {
        match t {
            FileType::Python => self.python,
            FileType::Rust => self.rust,
            FileType::JavaScript => self.javascript,
        }
    }

    /// Each language's entry is that language's grammar, with that
    /// language's comment query compiled for it.
    pub open spec fn well_formed(&self) -> bool {
        forall|t: FileType| #[trigger] grammar_ok(t, self.grammar_for(t))
    }

    /// The grammar and query held for `t`.
    pub fn grammar(&self, t: FileType) -> (r: &(Language, Query))
        ensures
            *r == self.grammar_for(t),
            self.well_formed() ==> grammar_ok(t, *r),
    {
        proof {
            if self.well_formed() {
                assert(grammar_ok(t, self.grammar_for(t)));
            }
        }
        match t {
            FileType::Python => &self.python,
            FileType::Rust => &self.rust,
            FileType::JavaScript => &self.javascript,
        }
    }

    /// Compiles `t`'s comment query for `t`'s grammar.
    fn compile_for(t: FileType) -> (r: Result<(Language, Query), QueryError>)
        ensures
            r matches Ok(g) ==> grammar_ok(t, g),
    {
        let language = t.tree_sitter_language();
        match compile_query(&language, t.comment_query_source()) {
            Ok(q) => Ok((language, q)),
            Err(e) => Err(e),
        }
    }

    /// Compiles the comment query of every language with its grammar.
    pub fn new() -> (r: Result<Registry, QueryError>)
        ensures
            r matches Ok(g) ==> g.well_formed(),
    {
        let python = match Self::compile_for(FileType::Python) {
            Ok(q) => q,
            Err(e) => return Err(e),
        };
        let rust = match Self::compile_for(FileType::Rust) {
            Ok(q) => q,
            Err(e) => return Err(e),
        };
        let javascript = match Self::compile_for(FileType::JavaScript) {
            Ok(q) => q,
            Err(e) => return Err(e),
        };
        let g = Registry { python, rust, javascript };
        assert forall|t: FileType| #[trigger] grammar_ok(t, g.grammar_for(t)) by {
            match t {
                FileType::Python => {},
                FileType::Rust => {},
                FileType::JavaScript => {},
            }
        }
        Ok(g)
    }
}

} // verus!
