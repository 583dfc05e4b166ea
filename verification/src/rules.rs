//! What holds of the rules of the calculation, whatever the version and the
//! commits.
use vstd::prelude::*;
use vstd::string::*;
use crate::aggregation::lemma_breaking_wins;
use crate::calculator::{dampen, table_level, AnswerView, CalculatorView};
use crate::decision::{decide, ForceOptions};
use crate::conventional::TypeHierarchy;
use crate::conventional::{aggregate, conventional_commit, Tally};
use crate::decimal::numeral;
use crate::error::ErrorView;
use crate::ordering::version_before;
use crate::semantic::{Level, SemanticView};

verus! {

/// An increment changes its own number by 1, sets the lower numbers to 0
/// and leaves the higher numbers, the prefix and the pre-release as they
/// are; the version after it comes after the version before it.
pub proof fn lemma_increments(version: SemanticView)
    ensures
        version.bump_patch().major == version.major,
        version.bump_patch().minor == version.minor,
        version.bump_patch().patch == version.patch + 1,
        version.bump_minor().major == version.major,
        version.bump_minor().minor == version.minor + 1,
        version.bump_minor().patch == 0,
        version.bump_major().major == version.major + 1,
        version.bump_major().minor == 0,
        version.bump_major().patch == 0,
        version_before(version, version.bump_patch()),
        version_before(version, version.bump_minor()),
        version_before(version, version.bump_major()),
        version_before(version, version.bump_breaking()),
{
}

/// A breaking change asks for the major level, whether or not a `feat` has
/// been counted too.
pub proof fn lemma_breaking_before_feature(tally: Tally)
    requires
        tally.breaking,
    ensures
        table_level(tally) == Level::Major,
{
}

/// While the major number is 0 a level goes one step down and no further:
/// major to minor, minor to patch. From 1 on every level stays.
pub proof fn lemma_dampen(level: Level, major: nat)
    ensures
        major > 0 ==> dampen(level, major) == level,
        major == 0 && level == Level::Major ==> dampen(level, major) == Level::Minor,
        major == 0 && level == Level::Minor ==> dampen(level, major) == Level::Patch,
        major == 0 && level != Level::Major && level != Level::Minor ==> dampen(level, major)
            == level,
{
}

/// Before the first production release a breaking change is made at the
/// minor level, not at the major level. The next version can be made
/// where the minor number can be increased.
pub proof fn lemma_breaking_before_one(calculator: CalculatorView)
    requires
        calculator.current.major == 0,
        calculator.conventional matches Some(tally) && tally.breaking,
    ensures
        calculator.next_answer().bump_level == Level::Minor,
        calculator.next_answer().version_number == calculator.current.bump_minor(),
        calculator.current.has_room(calculator.next_level()) == (calculator.current.minor
            < usize::MAX),
{
}

/// From the first production release on a breaking change is made at the
/// major level. The next version can be made where the major number can be
/// increased.
pub proof fn lemma_breaking_from_one(calculator: CalculatorView)
    requires
        calculator.current.major > 0,
        calculator.conventional matches Some(tally) && tally.breaking,
    ensures
        calculator.next_answer().bump_level == Level::Major,
        calculator.next_answer().version_number == calculator.current.bump_major(),
        calculator.current.has_room(calculator.next_level()) == (calculator.current.major
            < usize::MAX),
{
}

/// The same of the commits themselves: where one of the commits walked is
/// marked as breaking, the next version is a minor change while the major
/// number is 0 and a major change from 1 on, whatever the other commits.
pub proof fn lemma_breaking_commit(calculator: CalculatorView, summaries: Seq<Seq<char>>, at: int)
    requires
        calculator.conventional == Some(aggregate(summaries)),
        0 <= at < summaries.len(),
        conventional_commit(summaries[at]) matches Some((_, breaking)) && breaking,
    ensures
        table_level(aggregate(summaries)) == Level::Major,
        calculator.next_answer().bump_level == (if calculator.current.major == 0 {
            Level::Minor
        } else {
            Level::Major
        }),
{
    lemma_breaking_wins(summaries, at);
}

/// No commits, no change: a calculator that has tallied no commits answers
/// with no change and the current version.
pub proof fn lemma_no_commits_no_change(calculator: CalculatorView)
    requires
        calculator.conventional is None,
    ensures
        calculator.next_answer() == (AnswerView {
            bump_level: Level::NoChange,
            version_number: calculator.current,
            change_level: None,
        }),
{
}

/// The first production release is made once: from a major number of 0 it
/// gives `1.0.0` at the major level, and from that version it is refused,
/// with the major number 1 in the error.
pub proof fn lemma_first_release_once(calculator: CalculatorView)
    requires
        calculator.current.major == 0,
    ensures
        calculator.first_release() == Ok::<AnswerView, ErrorView>(
            AnswerView {
                bump_level: Level::Major,
                version_number: calculator.current.production(),
                change_level: None,
            },
        ),
        calculator.current.production().major == 1,
        calculator.current.production().minor == 0,
        calculator.current.production().patch == 0,
        calculator.current.production().pre_release is None,
        (CalculatorView { current: calculator.current.production(), ..calculator }).first_release()
            == Err::<AnswerView, ErrorView>(ErrorView::MajorAlreadyUsed("1"@)),
{
    reveal_strlit("1");
    assert(numeral(1) =~= "1"@);
}

/// Every version that the calculation makes reads back: from a current
/// version that is well formed, the version of the answer is well formed,
/// and a version that is well formed is what `parse` reads from its text.
pub proof fn lemma_answer_reads_back(
    calculator: CalculatorView,
    force: Option<ForceOptions>,
    required: Option<Seq<Seq<char>>>,
    enforce_level: TypeHierarchy,
)
    requires
        calculator.current.wf(),
        decide(calculator, force, required, enforce_level) is Ok,
    ensures
        decide(calculator, force, required, enforce_level)->Ok_0.version_number.wf(),
        calculator.next_answer().version_number.wf(),
{
}

} // verus!
