//! The errors of the version calculation, their messages and exit codes.
use vstd::prelude::*;
use vstd::string::*;
use crate::decimal::{numeral, push_number};

verus! {

/// Exit code of an error that has no code of its own.
pub const EXIT_UNEXPECTED_ERROR: i32 = 10;

/// Exit code where the repository could not be read.
pub const EXIT_NOT_CALCULATED_CODE: i32 = 12;

/// Exit code where a required file has not been changed.
pub const EXIT_MISSING_REQUIRED_CODE: i32 = 13;

/// Exit code where the change stays below the level asked for.
pub const EXIT_NOT_REQUIRED_LEVEL: i32 = 14;

/// Exit code where no list of changed files is at hand.
pub const EXIT_NO_FILES_LISTED: i32 = 15;

/// The error type of the crate.
#[non_exhaustive]
#[derive(Debug)]
pub enum Error {
    /// The tag does not start with the version prefix: the prefix, then the
    /// tag.
    NotVersionTag(String, String),
    /// More than three components were found.
    TooManyComponents(usize),
    /// Fewer than three components were found.
    TooFewComponents(usize),
    /// The component is not a number.
    MustBeNumber(String),
    /// No tag of the repository is a version tag.
    NoVersionTag,
    /// The first production release has been made already: the major number.
    MajorAlreadyUsed(String),
    /// The calculator holds no conventional commits.
    NoConventionalCommits,
    /// The required files that have not been changed.
    MissingRequiredFile(Vec<String>),
    /// The name is not that of a level of the type hierarchy.
    NotTypeHierachyName(String),
    /// The changed files have not been listed yet.
    NoFilesListed,
    /// The change reaches the level asked for.
    MinimumChangeLevelMet,
    /// The change stays below the level asked for.
    MinimumChangeLevelNotMet,
    /// The text after the version number is not a pre-release.
    InvalidPreReleaseFormat(String),
}

/// What an `Error` holds, as plain values.
pub enum ErrorView {
    NotVersionTag(Seq<char>, Seq<char>),
    TooManyComponents(nat),
    TooFewComponents(nat),
    MustBeNumber(Seq<char>),
    NoVersionTag,
    MajorAlreadyUsed(Seq<char>),
    NoConventionalCommits,
    MissingRequiredFile(Seq<Seq<char>>),
    NotTypeHierachyName(Seq<char>),
    NoFilesListed,
    MinimumChangeLevelMet,
    MinimumChangeLevelNotMet,
    InvalidPreReleaseFormat(Seq<char>),
}

/// The texts of a list of strings.
pub open spec fn texts(names: Seq<String>) -> Seq<Seq<char>> {
    Seq::new(names.len(), |i: int| names[i]@)
}

/// What `std`'s `Debug` formatting writes for a string with this text: the
/// text between double quotes, with its escapes.
pub uninterp spec fn debug_name(name: Seq<char>) -> Seq<char>;

/// Calls `std`'s `Debug` formatting of a string (`{:?}`). The contract gives
/// the text a name and claims only that it depends on the string alone.
#[verifier::external_body]
fn debug_text(name: &str) -> (s: String)
    ensures
        s@ == debug_name(name@),
{
    format!("{:?}", name)
}

/// The names as they are written in a list, each in its debug form, with a
/// comma and a space between each two.
pub open spec fn listed(names: Seq<Seq<char>>) -> Seq<char>
    decreases names.len(),
{
    if names.len() == 0 {
        Seq::empty()
    } else if names.len() == 1 {
        debug_name(names[0])
    } else {
        listed(names.drop_last()) + ", "@ + debug_name(names.last())
    }
}

/// The list of the names, between square brackets.
pub open spec fn debug_list(names: Seq<Seq<char>>) -> Seq<char> {
    "["@ + listed(names) + "]"@
}

/// The list of the names, between square brackets.
fn list_text(names: &Vec<String>) -> (s: String)
    ensures
        s@ == debug_list(texts(names@)),
{
    let ghost all = texts(names@);
    let mut s = String::from_str("[");
    let mut i: usize = 0;
    assert(listed(all.take(0)) =~= Seq::<char>::empty());
    assert(s@ =~= "["@ + listed(all.take(0)));
    while i < names.len()
        invariant
            i <= names.len(),
            all == texts(names@),
            s@ == "["@ + listed(all.take(i as int)),
        decreases names.len() - i,
    {
        proof {
            assert(all.take(i + 1).drop_last() =~= all.take(i as int));
            assert(all.take(i + 1).last() == names@[i as int]@);
            assert(all.take(i + 1)[0] == all[0]);
        }
        if i > 0 {
            s.append(", ");
        }
        let name = debug_text(names[i].as_str());
        s.append(name.as_str());
        proof {
            if i == 0 {
                assert(listed(all.take(0)) =~= Seq::<char>::empty());
                assert(s@ =~= "["@ + listed(all.take(1)));
            } else {
                assert(s@ =~= "["@ + listed(all.take(i + 1)));
            }
        }
        i = i + 1;
    }
    assert(all.take(i as int) =~= all);
    s.append("]");
    s
}

impl View for Error {
    type V = ErrorView;

    open spec fn view(&self) -> ErrorView {
        match self {
            Error::NotVersionTag(prefix, tag) => ErrorView::NotVersionTag(prefix@, tag@),
            Error::TooManyComponents(n) => ErrorView::TooManyComponents(*n as nat),
            Error::TooFewComponents(n) => ErrorView::TooFewComponents(*n as nat),
            Error::MustBeNumber(text) => ErrorView::MustBeNumber(text@),
            Error::NoVersionTag => ErrorView::NoVersionTag,
            Error::MajorAlreadyUsed(major) => ErrorView::MajorAlreadyUsed(major@),
            Error::NoConventionalCommits => ErrorView::NoConventionalCommits,
            Error::MissingRequiredFile(files) => ErrorView::MissingRequiredFile(texts(files@)),
            Error::NotTypeHierachyName(name) => ErrorView::NotTypeHierachyName(name@),
            Error::NoFilesListed => ErrorView::NoFilesListed,
            Error::MinimumChangeLevelMet => ErrorView::MinimumChangeLevelMet,
            Error::MinimumChangeLevelNotMet => ErrorView::MinimumChangeLevelNotMet,
            Error::InvalidPreReleaseFormat(text) => ErrorView::InvalidPreReleaseFormat(text@),
        }
    }
}

impl ErrorView {
    /// The message of the error.
    pub open spec fn message(self) -> Seq<char> {
        match self {
            ErrorView::NotVersionTag(prefix, tag) => "Version tags must start with \""@ + prefix
                + "\" but tag is "@ + tag,
            ErrorView::TooManyComponents(n) => "Version must have three components but at least "@
                + numeral(n) + " were found"@,
            ErrorView::TooFewComponents(n) => "Version must have three components but only "@
                + numeral(n) + " found"@,
            ErrorView::MustBeNumber(text) => "Version must be a number but found "@ + text,
            ErrorView::NoVersionTag => "No valid version tag found in the repository"@,
            ErrorView::MajorAlreadyUsed(major) =>
                "First production release already deployed. Current major version: "@ + major,
            ErrorView::NoConventionalCommits =>
                "No conventional commits have been loaded into the VersionCalculator struct. May have been called before `commits`."@,
            ErrorView::MissingRequiredFile(files) => "Missing the required file(s): "@
                + debug_list(files) + "."@,
            ErrorView::NotTypeHierachyName(name) => name + " is not a valid type hierarchy namne."@,
            ErrorView::NoFilesListed =>
                "No files have been listed. May have been called before `commits`."@,
            ErrorView::MinimumChangeLevelMet => "Minimum change Level has been met."@,
            ErrorView::MinimumChangeLevelNotMet => "Minimum change level has not been met."@,
            ErrorView::InvalidPreReleaseFormat(text) => "Invalid PreRelease format: "@ + text,
        }
    }

    /// The exit code that a program ends with on the error.
    pub open spec fn exit_code(self) -> int {
        match self {
            ErrorView::MissingRequiredFile(_) => 13,
            ErrorView::NoFilesListed => 15,
            ErrorView::MinimumChangeLevelMet => 0,
            ErrorView::MinimumChangeLevelNotMet => 14,
            _ => 10,
        }
    }

    /// The error is one that a program reports with its message; the others
    /// end the program with their exit code alone.
    pub open spec fn is_reported(self) -> bool {
        self is MissingRequiredFile || self is NoFilesListed || self is MinimumChangeLevelMet
            || self is MinimumChangeLevelNotMet
    }
}

impl Error {
    /// The message of the error.
    pub fn to_string(&self) -> (s: String)
        ensures
            s@ == self@.message(),
    {
        match self {
            Error::NotVersionTag(prefix, tag) => {
                let mut s = String::from_str("Version tags must start with \"");
                s.append(prefix.as_str());
                s.append("\" but tag is ");
                s.append(tag.as_str());
                s
            },
            Error::TooManyComponents(n) => {
                let mut s = String::from_str("Version must have three components but at least ");
                push_number(&mut s, *n);
                s.append(" were found");
                s
            },
            Error::TooFewComponents(n) => {
                let mut s = String::from_str("Version must have three components but only ");
                push_number(&mut s, *n);
                s.append(" found");
                s
            },
            Error::MustBeNumber(text) => {
                let mut s = String::from_str("Version must be a number but found ");
                s.append(text.as_str());
                s
            },
            Error::NoVersionTag => String::from_str("No valid version tag found in the repository"),
            Error::MajorAlreadyUsed(major) => {
                let mut s = String::from_str(
                    "First production release already deployed. Current major version: ",
                );
                s.append(major.as_str());
                s
            },
            Error::NoConventionalCommits => String::from_str(
                "No conventional commits have been loaded into the VersionCalculator struct. May have been called before `commits`.",
            ),
            Error::MissingRequiredFile(files) => {
                let mut s = String::from_str("Missing the required file(s): ");
                let list = list_text(files);
                s.append(list.as_str());
                s.append(".");
                s
            },
            Error::NotTypeHierachyName(name) => {
                let mut s = name.clone();
                s.append(" is not a valid type hierarchy namne.");
                s
            },
            Error::NoFilesListed => String::from_str(
                "No files have been listed. May have been called before `commits`.",
            ),
            Error::MinimumChangeLevelMet => String::from_str("Minimum change Level has been met."),
            Error::MinimumChangeLevelNotMet => String::from_str(
                "Minimum change level has not been met.",
            ),
            Error::InvalidPreReleaseFormat(text) => {
                let mut s = String::from_str("Invalid PreRelease format: ");
                s.append(text.as_str());
                s
            },
        }
    }

    /// The exit code that a program ends with on the error.
    pub fn exit_code(&self) -> (code: i32)
        ensures
            code == self@.exit_code(),
    {
        match self {
            Error::MissingRequiredFile(_) => EXIT_MISSING_REQUIRED_CODE,
            Error::NoFilesListed => EXIT_NO_FILES_LISTED,
            Error::MinimumChangeLevelMet => 0,
            Error::MinimumChangeLevelNotMet => EXIT_NOT_REQUIRED_LEVEL,
            _ => EXIT_UNEXPECTED_ERROR,
        }
    }

    /// The message that a program ends with on the error, where it reports
    /// one.
    pub fn exit_message(&self) -> (message: Option<String>)
        ensures
            message is Some == self@.is_reported(),
            message matches Some(text) ==> text@ == self@.message(),
    {
        match self {
            Error::MissingRequiredFile(_) => Some(self.to_string()),
            Error::NoFilesListed => Some(self.to_string()),
            Error::MinimumChangeLevelMet => Some(self.to_string()),
            Error::MinimumChangeLevelNotMet => Some(self.to_string()),
            _ => None,
        }
    }
}

} // verus!
