//! The decision on the next version: the request for a pre-release, the
//! check for required files, a forced level, and the commits, in that order.
use vstd::prelude::*;
use vstd::string::*;
use crate::calculator::{Answer, AnswerView, CalculatorView, ForceLevel, VersionCalculator};
use crate::conventional::TypeHierarchy;
use crate::decimal::numeral;
use crate::error::{texts, Error, ErrorView};
use crate::semantic::{is_suffix, Level, Semantic};

verus! {

/// What the calculation can be forced to.
#[derive(Debug, Clone, Copy, PartialEq, Eq, Structural)]
pub enum ForceOptions {
    /// force change to the major component of semver
    Major,
    /// force change to the minor component of semver
    Minor,
    /// force change to the patch component of semver
    Patch,
    /// force the first production release
    First,
}

impl ForceOptions {
    /// The name of the option, in lower case.
    pub open spec fn text(self) -> Seq<char> {
        match self {
            ForceOptions::Major => "major"@,
            ForceOptions::Minor => "minor"@,
            ForceOptions::Patch => "patch"@,
            ForceOptions::First => "first"@,
        }
    }

    /// The name of the option, in lower case.
    pub fn to_string(&self) -> (s: String)
        ensures
            s@ == self.text(),
    {
        match self {
            ForceOptions::Major => String::from_str("major"),
            ForceOptions::Minor => String::from_str("minor"),
            ForceOptions::Patch => String::from_str("patch"),
            ForceOptions::First => String::from_str("first"),
        }
    }

    /// The level that the option forces; none for the first production
    /// release.
    pub open spec fn level(self) -> Option<ForceLevel> {
        match self {
            ForceOptions::Major => Some(ForceLevel::Major),
            ForceOptions::Minor => Some(ForceLevel::Minor),
            ForceOptions::Patch => Some(ForceLevel::Patch),
            ForceOptions::First => None,
        }
    }
}

/// The answer where nothing is forced: a pre-release with no request for
/// one is released as it is; else the commits decide, and a request for a
/// pre-release makes the result the first pre-release with the suffix asked
/// for, of the current version where that is a pre-release and of the next
/// version where it is not. A suffix that is empty or holds a `.` is
/// refused.
pub open spec fn unforced(calculator: CalculatorView) -> Result<AnswerView, ErrorView> {
    match calculator.pre_release {
        None => if calculator.current.pre_release is Some {
            Ok(
                AnswerView {
                    bump_level: Level::Release,
                    version_number: calculator.current.released(),
                    change_level: None,
                },
            )
        } else {
            Ok(calculator.next_answer())
        },
        Some(suffix) => if !is_suffix(suffix) {
            Err(ErrorView::InvalidPreReleaseFormat(suffix))
        } else {
            let base = if calculator.current.pre_release is Some {
                calculator.current
            } else {
                calculator.next_answer().version_number
            };
            Ok(
                AnswerView {
                    bump_level: Level::PreRelease,
                    version_number: base.with_pre_release(suffix),
                    change_level: calculator.top_level(),
                },
            )
        },
    }
}

/// The answer of the whole calculation.
///
/// A request for the pre-release that the current version is a build of
/// gives the next build, whatever else is asked. Else the required files are
/// checked, where any are given. Then a forced level decides, or the first
/// production release is made, or, with nothing forced, `unforced` decides.
pub open spec fn decide(
    calculator: CalculatorView,
    force: Option<ForceOptions>,
    required: Option<Seq<Seq<char>>>,
    enforce_level: TypeHierarchy,
) -> Result<AnswerView, ErrorView> {
    if calculator.continues_pre_release() {
        Ok(
            AnswerView {
                bump_level: Level::PreRelease,
                version_number: calculator.current.next_pre_release(),
                change_level: None,
            },
        )
    } else if required is Some && calculator.required_gate(required->0, enforce_level) is Err {
        Err(calculator.required_gate(required->0, enforce_level)->Err_0)
    } else {
        match force {
            Some(option) => match option.level() {
                Some(level) => Ok(calculator.forced(level).next_answer()),
                None => calculator.first_release(),
            },
            None => unforced(calculator),
        }
    }
}

/// The numbers that the decision increases can be increased.
pub open spec fn can_decide(calculator: CalculatorView, force: Option<ForceOptions>) -> bool {
    if calculator.continues_pre_release() {
        calculator.current.pre_release->0.id < usize::MAX
    } else {
        match force {
            Some(option) => match option.level() {
                Some(level) => calculator.current.has_room(calculator.forced(level).next_level()),
                None => true,
            },
            None => calculator.current.pre_release is Some || calculator.current.has_room(
                calculator.next_level(),
            ),
        }
    }
}

/// The numbers that the calculation increases can be increased: what
/// `calculate` asks of its caller.
pub fn can_calculate(latest_version: &VersionCalculator, force: Option<ForceOptions>) -> (can: bool)
    ensures
        can == can_decide(latest_version@, force),
{
    let current = latest_version.name();
    if latest_version.continues_pre_release() {
        match current.pre_release() {
            Some(pre) => pre.id() < usize::MAX,
            None => true,
        }
    } else {
        let level = match force {
            Some(ForceOptions::First) => {
                return true;
            },
            Some(ForceOptions::Major) => latest_version.clone().force(ForceLevel::Major).level_of_next(),
            Some(ForceOptions::Minor) => latest_version.clone().force(ForceLevel::Minor).level_of_next(),
            Some(ForceOptions::Patch) => latest_version.clone().force(ForceLevel::Patch).level_of_next(),
            None => {
                if current.pre_release().is_some() {
                    return true;
                }
                latest_version.level_of_next()
            },
        };
        current.has_room(&level)
    }
}

/// The required files, as plain values.
pub open spec fn required_view(files: Option<Vec<String>>) -> Option<Seq<Seq<char>>> {
    match files {
        Some(names) => Some(texts(names@)),
        None => None,
    }
}

/// Reports if version is a pre-release.
pub fn has_existing_pre_release(version: Semantic) -> (existing: bool)
    ensures
        existing == version@.pre_release is Some,
{
    match version.pre_release() {
        Some(_) => true,
        None => false,
    }
}

/// Check that the level of the change meets a threshold, where one is set.
/// The outcome of a check is an error either way: that the level has been
/// met, or that it has not. With no threshold nothing is checked.
pub fn check_level(threshold: Option<TypeHierarchy>, change_level: TypeHierarchy) -> (result: Result<
    (),
    Error,
>)
    ensures
        match threshold {
            Some(minimum) => result matches Err(error) && error@ == (if change_level.spec_rank()
                >= minimum.spec_rank() {
                ErrorView::MinimumChangeLevelMet
            } else {
                ErrorView::MinimumChangeLevelNotMet
            }),
            None => result is Ok,
        },
{
    match threshold {
        Some(minimum_level) => {
            if change_level.rank() >= minimum_level.rank() {
                Err(Error::MinimumChangeLevelMet)
            } else {
                Err(Error::MinimumChangeLevelNotMet)
            }
        },
        None => Ok(()),
    }
}

/// The answer where nothing is forced.
fn calculate_unforced(latest_version: VersionCalculator, pre_release: Option<String>) -> (result: Result<
    Answer,
    Error,
>)
    requires
        latest_version@.current.pre_release is Some || latest_version@.current.has_room(
            latest_version@.next_level(),
        ),
        match pre_release {
            Some(suffix) => latest_version@.pre_release == Some(suffix@),
            None => latest_version@.pre_release is None,
        },
    ensures
        match result {
            Ok(answer) => unforced(latest_version@) == Ok::<AnswerView, ErrorView>(answer@),
            Err(error) => unforced(latest_version@) == Err::<AnswerView, ErrorView>(error@),
        },
{
    let mut latest_version = latest_version;
    let existing = has_existing_pre_release(latest_version.name());
    match pre_release {
        None => {
            if existing {
                let mut new_version = latest_version.name();
                new_version.unset_pre_release();
                Ok(Answer::new(Level::Release, new_version, None))
            } else {
                Ok(latest_version.next_version())
            }
        },
        Some(suffix) => {
            if !Semantic::can_be_suffix(suffix.as_str()) {
                return Err(Error::InvalidPreReleaseFormat(suffix));
            }
            let mut next_version = if existing {
                latest_version.name()
            } else {
                latest_version.next_version().version_number
            };
            next_version.first_pre_release(suffix.as_str());
            Ok(Answer::new(Level::PreRelease, next_version, latest_version.top_level()))
        },
    }
}

/// Calculate the answer from a calculator that has walked the commits.
///
/// A calculator that continues a pre-release (`continues_pre_release`) need
/// not have walked them: the answer is then the next build of the
/// pre-release.
pub fn calculate(
    latest_version: VersionCalculator,
    force: Option<ForceOptions>,
    files: Option<Vec<String>>,
    enforce_level: TypeHierarchy,
) -> (result: Result<Answer, Error>)
    requires
        can_decide(latest_version@, force),
    ensures
        match result {
            Ok(answer) => decide(latest_version@, force, required_view(files), enforce_level) == Ok::<
                AnswerView,
                ErrorView,
            >(answer@),
            Err(error) => decide(latest_version@, force, required_view(files), enforce_level)
                == Err::<AnswerView, ErrorView>(error@),
        },
{
    let mut latest_version = latest_version;
    let pre_release = latest_version.get_pre_release();
    if latest_version.continues_pre_release() {
        let mut new_version = latest_version.name();
        new_version.increment_pre_release();
        return Ok(Answer::new(Level::PreRelease, new_version, None));
    }
    match files {
        Some(names) => {
            match latest_version.has_required(names, enforce_level) {
                Ok(()) => {},
                Err(error) => {
                    return Err(error);
                },
            }
        },
        None => {},
    }
    match force {
        Some(ForceOptions::Major) => {
            let mut forced = latest_version.force(ForceLevel::Major);
            Ok(forced.next_version())
        },
        Some(ForceOptions::Minor) => {
            let mut forced = latest_version.force(ForceLevel::Minor);
            Ok(forced.next_version())
        },
        Some(ForceOptions::Patch) => {
            let mut forced = latest_version.force(ForceLevel::Patch);
            Ok(forced.next_version())
        },
        Some(ForceOptions::First) => latest_version.promote_first(),
        None => calculate_unforced(latest_version, pre_release),
    }
}

/// What is printed for an answer: the level, or the version number where
/// the number is asked for, or the number and below it the level where both
/// are asked for.
pub open spec fn output_view(number: bool, level: bool, response: AnswerView) -> Seq<char> {
    if !number {
        response.bump_level.text()
    } else if !level {
        response.version_number.text()
    } else {
        response.version_number.text() + seq!['\n'] + response.bump_level.text()
    }
}

/// The text to print for an answer.
pub fn output_text(number: bool, level: bool, response: &Answer) -> (text: String)
    ensures
        text@ == output_view(number, level, response@),
{
    if !number {
        response.bump_level.to_string()
    } else if !level {
        response.version_number.to_string()
    } else {
        proof {
            reveal_strlit("\n");
        }
        let mut text = response.version_number.to_string();
        text.append("\n");
        let level_text = response.bump_level.to_string();
        text.append(level_text.as_str());
        text
    }
}

} // verus!
