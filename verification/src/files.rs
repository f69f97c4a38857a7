//! Cleaning the source files of a crate. The caller reads the files and
//! writes back what this module hands it.

use vstd::prelude::*;
use vstd::string::StrSliceExecFns;
use vstd::string::StringExecFns;
use crate::attr_cleaning::{clean_source, cleaned, CleanError};
use crate::syntax::parsed_annotations;

verus! {

/// A source file that was read: where it lies and what it holds.
pub struct SourceFile {
    pub path: String,
    pub source: String,
}

/// A file that could not be cleaned, and why.
pub struct FileCleanError {
    pub path: String,
    pub error: CleanError,
}

/// New contents for a file. The caller keeps a copy of the old contents
/// before it writes these.
pub struct Rewrite {
    pub path: String,
    pub contents: String,
}

/// What is to be done with one file.
pub enum FileAction {
    /// No attribute controls lints: the file stays as it is.
    Leave,
    /// The file gets new contents.
    Write(Rewrite),
    /// The file does not parse: it stays as it is and the error is noted.
    Report(FileCleanError),
}

/// What cleaning a crate's files comes to.
pub struct CleanReport {
    /// The files to write, in the order they were given.
    pub rewrites: Vec<Rewrite>,
    /// The files that do not parse, in the order they were given.
    pub errors: Vec<FileCleanError>,
}

/// Whether a file name has the extension `rs`: it ends in `.rs` and there
/// is more before that than a single leading dot.
pub open spec fn names_rust_source(name: Seq<char>) -> bool {
    &&& name.len() > 3
    &&& name[name.len() - 3] == '.'
    &&& name[name.len() - 2] == 'r'
    &&& name[name.len() - 1] == 's'
}

/// Decides `names_rust_source` for the last component of a path.
pub fn is_rust_source(name: &str) -> (r: bool)
    ensures
        r == names_rust_source(name@),
{
    let ending = ".rs";
    proof {
        reveal_strlit(".rs");
    }
    let length = name.unicode_len();
    if length <= 3 {
        return false;
    }
    let tail = name.substring_char(length - 3, length);
    assert(tail@ == name@.subrange(length - 3, length as int));
    assert(tail@.len() == 3 && tail@[0] == name@[length - 3] && tail@[1] == name@[length - 2]
        && tail@[2] == name@[length - 1]);
    let same = crate::text::same_text(tail, ending);
    proof {
        if names_rust_source(name@) {
            assert(tail@ == ending@);
        }
    }
    same
}

/// What is to be done with a file, given what cleaning its source comes
/// to.
pub open spec fn action_for(
    path: Seq<char>,
    outcome: Result<Option<Seq<char>>, CleanError>,
    action: FileAction,
) -> bool {
    match outcome {
        Ok(None) => action is Leave,
        Ok(Some(text)) => action matches FileAction::Write(rewrite) && rewrite.path@ == path
            && rewrite.contents@ == text,
        Err(error) => action matches FileAction::Report(failure) && failure.path@ == path
            && failure.error == error,
    }
}

/// Cleans the source of one file and says what is to be done with the
/// file.
pub fn clean_attrs_file(path: &str, source: &str) -> (action: FileAction)
    ensures
        action_for(path@, cleaned(source@, parsed_annotations(source@)), action),
{
    match clean_source(source) {
        Ok(None) => FileAction::Leave,
        Ok(Some(contents)) => FileAction::Write(Rewrite { path: String::from_str(path), contents }),
        Err(error) => FileAction::Report(FileCleanError { path: String::from_str(path), error }),
    }
}

/// Whether a report accounts for `files`: for each file in turn, the
/// report's next rewrite or error is the action for that file, and nothing
/// is left over.
pub open spec fn accounts_for(
    files: Seq<SourceFile>,
    rewrites: Seq<Rewrite>,
    errors: Seq<FileCleanError>,
) -> bool
    decreases files.len(),
{
    if files.len() == 0 {
        rewrites.len() == 0 && errors.len() == 0
    } else {
        let file = files.last();
        match cleaned(file.source@, parsed_annotations(file.source@)) {
            Ok(None) => accounts_for(files.drop_last(), rewrites, errors),
            Ok(Some(text)) => {
                &&& rewrites.len() > 0
                &&& rewrites.last().path@ == file.path@
                &&& rewrites.last().contents@ == text
                &&& accounts_for(files.drop_last(), rewrites.drop_last(), errors)
            },
            Err(error) => {
                &&& errors.len() > 0
                &&& errors.last().path@ == file.path@
                &&& errors.last().error == error
                &&& accounts_for(files.drop_last(), rewrites, errors.drop_last())
            },
        }
    }
}

/// Cleans the attributes that control lints out of every file given. A
/// file that does not parse is noted and does not stop the others.
pub fn clean_attrs(files: &Vec<SourceFile>) -> (report: CleanReport)
    ensures
        accounts_for(files@, report.rewrites@, report.errors@),
{
    let mut rewrites: Vec<Rewrite> = Vec::new();
    let mut errors: Vec<FileCleanError> = Vec::new();
    let mut index: usize = 0;
    while index < files.len()
        invariant
            index <= files.len(),
            accounts_for(files@.take(index as int), rewrites@, errors@),
        decreases files.len() - index,
    {
        let ghost before = (rewrites@, errors@);
        let action = clean_attrs_file(files[index].path.as_str(), files[index].source.as_str());
        match action {
            FileAction::Leave => {},
            FileAction::Write(rewrite) => {
                rewrites.push(rewrite);
                assert(rewrites@.drop_last() == before.0);
            },
            FileAction::Report(failure) => {
                errors.push(failure);
                assert(errors@.drop_last() == before.1);
            },
        }
        proof {
            let upto = files@.take(index + 1);
            assert(upto.drop_last() == files@.take(index as int));
            assert(upto.last() == files@[index as int]);
        }
        index = index + 1;
    }
    assert(files@.take(index as int) == files@);
    CleanReport { rewrites, errors }
}

/// How a directory that is to be empty was found.
#[derive(Clone, Copy, Debug, PartialEq, Eq, Structural)]
pub enum EnsureEmptyDirOutcome {
    /// It was not there and has been created.
    Created,
    /// It was there and empty.
    Empty,
    /// It was there and holds something.
    NonEmpty,
}

/// What reading a directory came to.
#[derive(Clone, Copy, Debug, PartialEq, Eq, Structural)]
pub enum DirProbe {
    /// The directory was read; `has_entry` says whether it holds anything.
    Listed { has_entry: bool },
    /// There is no such directory.
    NotFound,
    /// The directory could not be read.
    Unreadable,
}

/// What is to be done about a directory that is to be empty.
#[derive(Clone, Copy, Debug, PartialEq, Eq, Structural)]
pub enum DirStep {
    /// Nothing: this is how the directory was found.
    Found(EnsureEmptyDirOutcome),
    /// The directory is to be created, with the directories above it.
    Create,
    /// The failure to read it is to be reported.
    Fail,
}

/// Decides what is to be done about a directory that is to be empty, from
/// what reading it came to.
pub fn ensure_empty_dir(probe: DirProbe) -> (step: DirStep)
    ensures
        step == match probe {
            DirProbe::Listed { has_entry: false } => DirStep::Found(EnsureEmptyDirOutcome::Empty),
            DirProbe::Listed { has_entry: true } => DirStep::Found(EnsureEmptyDirOutcome::NonEmpty),
            DirProbe::NotFound => DirStep::Create,
            DirProbe::Unreadable => DirStep::Fail,
        },
{
    match probe {
        DirProbe::Listed { has_entry } => DirStep::Found(
            if has_entry {
                EnsureEmptyDirOutcome::NonEmpty
            } else {
                EnsureEmptyDirOutcome::Empty
            },
        ),
        DirProbe::NotFound => DirStep::Create,
        DirProbe::Unreadable => DirStep::Fail,
    }
}

} // verus!
