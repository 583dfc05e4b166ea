//! The calculation of the next version: the current version, the tally of
//! the commits made since, the files they changed, and the rules that turn
//! these into a version number and the level of the change.
use vstd::prelude::*;
use vstd::std_specs::cmp::PartialEqSpecImpl;
use vstd::string::*;
use crate::conventional::{
    aggregate, conventional_commit, lemma_aggregate, lemma_record, ConventionalCommits, Tally,
    TypeHierarchy,
};
use crate::decimal::{number_text, numeral};
use crate::error::{texts, Error, ErrorView};
use crate::semantic::{Level, Semantic, SemanticView};
use crate::tags::latest;
use crate::tags::latest_version;
use crate::text::same_text;

verus! {

/// The result of the calculation as plain values.
pub struct AnswerView {
    pub bump_level: Level,
    pub version_number: SemanticView,
    pub change_level: Option<TypeHierarchy>,
}

/// Struct to store the result of the calculation (the "answer").
#[derive(Debug)]
pub struct Answer {
    /// the semantic level bump calculated based on conventional commits
    pub bump_level: Level,
    /// the next version number calculated by applying the bump level to the
    /// current version number
    pub version_number: Semantic,
    /// the change level calculated during the review of conventional commits
    pub change_level: Option<TypeHierarchy>,
}

impl View for Answer {
    type V = AnswerView;

    open spec fn view(&self) -> AnswerView {
        AnswerView {
            bump_level: self.bump_level,
            version_number: self.version_number@,
            change_level: self.change_level,
        }
    }
}

impl AnswerView {
    /// The change level, with the lowest level where none was found.
    pub open spec fn level_or_other(self) -> TypeHierarchy {
        match self.change_level {
            Some(level) => level,
            None => TypeHierarchy::Other,
        }
    }
}

impl Answer {
    /// Create a calculation.
    pub fn new(bump_level: Level, version_number: Semantic, change_level: Option<TypeHierarchy>) -> (answer:
        Answer)
        ensures
            answer.bump_level == bump_level,
            answer.version_number == version_number,
            answer.change_level == change_level,
    {
        Answer { bump_level, version_number, change_level }
    }

    /// Unwrap the change level: where none was found, the lowest level of
    /// the hierarchy is returned.
    pub fn change_level(&self) -> (level: TypeHierarchy)
        ensures
            level == self@.level_or_other(),
    {
        match self.change_level {
            Some(level) => level,
            None => TypeHierarchy::Other,
        }
    }
}

/// The options for choosing the level of a forced change.
#[derive(Debug, Clone, Copy, PartialEq, Eq, Structural)]
pub enum ForceLevel {
    /// force change to the major component of semver
    Major,
    /// force change to the minor component of semver
    Minor,
    /// force change to the patch component of semver
    Patch,
}

impl ForceLevel {
    /// The name of the level, in lower case.
    pub open spec fn text(self) -> Seq<char> {
        match self {
            ForceLevel::Major => "major"@,
            ForceLevel::Minor => "minor"@,
            ForceLevel::Patch => "patch"@,
        }
    }

    /// The name of the level, in lower case.
    pub fn to_string(&self) -> (s: String)
        ensures
            s@ == self.text(),
    {
        match self {
            ForceLevel::Major => String::from_str("major"),
            ForceLevel::Minor => String::from_str("minor"),
            ForceLevel::Patch => String::from_str("patch"),
        }
    }

    /// The tally that stands for exactly one commit of the level: a breaking
    /// change for the major level, one `feat` for the minor level, one `fix`
    /// for the patch level.
    pub open spec fn tally(self) -> Tally {
        match self {
            ForceLevel::Major => Tally { breaking: true, ..Tally::empty() },
            ForceLevel::Minor => Tally::empty().bump("feat"@),
            ForceLevel::Patch => Tally::empty().bump("fix"@),
        }
    }
}

/// The level that the commits of a tally ask for, before the major number
/// is looked at: major for a breaking change, else minor where a `feat` was
/// counted, else patch where any commit was counted, else none.
pub open spec fn table_level(tally: Tally) -> Level {
    if tally.breaking {
        Level::Major
    } else if tally.count("feat"@) > 0 {
        Level::Minor
    } else if tally.total() > 0 {
        Level::Patch
    } else {
        Level::NoChange
    }
}

/// The level one step down while the major number is 0: major becomes
/// minor, and minor becomes patch. From 1 on the level stays.
pub open spec fn dampen(level: Level, major: nat) -> Level {
    if major == 0 {
        match level {
            Level::Major => Level::Minor,
            Level::Minor => Level::Patch,
            _ => level,
        }
    } else {
        level
    }
}

/// The names as a set.
pub open spec fn name_set(names: Seq<Seq<char>>) -> Set<Seq<char>> {
    Set::new(|name: Seq<char>| names.contains(name))
}

/// The required files that are not among the changed ones, in the order in
/// which they are required.
pub open spec fn missing_files(required: Seq<Seq<char>>, changed: Set<Seq<char>>) -> Seq<Seq<char>>
    decreases required.len(),
{
    if required.len() == 0 {
        Seq::empty()
    } else {
        let before = missing_files(required.drop_last(), changed);
        if changed.contains(required.last()) {
            before
        } else {
            before.push(required.last())
        }
    }
}

/// The missing files are exactly the required files that have not been
/// changed: a name is among them where it is required and has not been
/// changed, and only there.
pub proof fn lemma_missing_files(required: Seq<Seq<char>>, changed: Set<Seq<char>>, name: Seq<char>)
    ensures
        missing_files(required, changed).contains(name) <==> required.contains(name)
            && !changed.contains(name),
    decreases required.len(),
{
    let missing = missing_files(required, changed);
    if required.len() > 0 {
        let init = required.drop_last();
        let before = missing_files(init, changed);
        lemma_missing_files(init, changed, name);
        if missing.contains(name) {
            let i = choose|i: int| 0 <= i < missing.len() && missing[i] == name;
            if i < before.len() {
                assert(before[i] == name);
                assert(before.contains(name));
                let j = choose|j: int| 0 <= j < init.len() && init[j] == name;
                assert(required[j] == name);
            } else {
                assert(required[required.len() - 1] == name);
            }
        }
        if required.contains(name) && !changed.contains(name) {
            let j = choose|j: int| 0 <= j < required.len() && required[j] == name;
            if j < init.len() {
                assert(init[j] == name);
                assert(init.contains(name));
                let i = choose|i: int| 0 <= i < before.len() && before[i] == name;
                assert(missing[i] == name);
            } else {
                assert(missing[missing.len() - 1] == name);
            }
        }
    }
}

/// One commit of the history as plain values.
pub struct ChangeView {
    pub summary: Option<Seq<char>>,
    pub files: Seq<Seq<char>>,
}

/// One commit of the history, as far as the calculation reads it.
#[derive(Debug)]
pub struct Change {
    /// The summary of the commit, where it has one.
    pub summary: Option<String>,
    /// The names of the files that the commit changed.
    pub files: Vec<String>,
}

impl View for Change {
    type V = ChangeView;

    open spec fn view(&self) -> ChangeView {
        ChangeView {
            summary: match self.summary {
                Some(text) => Some(text@),
                None => None,
            },
            files: texts(self.files@),
        }
    }
}

/// The commits as plain values.
pub open spec fn change_views(changes: Seq<Change>) -> Seq<ChangeView> {
    Seq::new(changes.len(), |i: int| changes[i]@)
}

/// The summaries of the commits that have one, in their order.
pub open spec fn summaries_of(changes: Seq<ChangeView>) -> Seq<Seq<char>>
    decreases changes.len(),
{
    if changes.len() == 0 {
        Seq::empty()
    } else {
        let before = summaries_of(changes.drop_last());
        match changes.last().summary {
            Some(text) => before.push(text),
            None => before,
        }
    }
}

/// The names of the files that the commits changed.
pub open spec fn files_of(changes: Seq<ChangeView>) -> Set<Seq<char>> {
    Set::new(
        |name: Seq<char>|
            exists|i: int| 0 <= i < changes.len() && (#[trigger] changes[i]).files.contains(name),
    )
}

/// There are no more summaries than commits.
pub proof fn lemma_summaries_len(changes: Seq<ChangeView>)
    ensures
        summaries_of(changes).len() <= changes.len(),
    decreases changes.len(),
{
    if changes.len() > 0 {
        lemma_summaries_len(changes.drop_last());
    }
}

/// Adds to `files` each of the names that it does not hold yet.
fn add_names(files: &mut Vec<String>, names: &Vec<String>)
    ensures
        name_set(texts(final(files)@)) == name_set(texts(old(files)@)).union(name_set(texts(names@))),
{
    let ghost start = texts(files@);
    let mut i: usize = 0;
    while i < names.len()
        invariant
            i <= names.len(),
            name_set(texts(files@)) == name_set(start).union(name_set(texts(names@).take(i as int))),
        decreases names.len() - i,
    {
        let ghost before = texts(files@);
        let ghost name = names@[i as int]@;
        let ghost seen = texts(names@).take(i as int);
        let ghost next = texts(names@).take(i + 1);
        if !holds_name(files, names[i].as_str()) {
            files.push(names[i].clone());
            assert(texts(files@) =~= before.push(name));
        }
        proof {
            assert(next =~= seen.push(name));
            assert forall|f: Seq<char>| name_set(texts(files@)).contains(f) <==> name_set(
                start,
            ).union(name_set(next)).contains(f) by {
                let after = texts(files@);
                if after.contains(f) {
                    if !before.contains(f) {
                        let k = choose|k: int| 0 <= k < after.len() && after[k] == f;
                        assert(k == before.len());
                        assert(next[i as int] == f);
                    } else {
                        assert(name_set(before).contains(f));
                        if seen.contains(f) {
                            let k = choose|k: int| 0 <= k < seen.len() && seen[k] == f;
                            assert(next[k] == f);
                        }
                    }
                }
                if start.contains(f) {
                    assert(name_set(before).contains(f));
                    let k = choose|k: int| 0 <= k < before.len() && before[k] == f;
                    assert(after[k] == f);
                }
                if next.contains(f) {
                    let k = choose|k: int| 0 <= k < next.len() && next[k] == f;
                    if k < i {
                        assert(seen[k] == f);
                        assert(name_set(before).contains(f));
                        let m = choose|m: int| 0 <= m < before.len() && before[m] == f;
                        assert(after[m] == f);
                    } else {
                        assert(f == name);
                        if before.contains(f) {
                            let m = choose|m: int| 0 <= m < before.len() && before[m] == f;
                            assert(after[m] == f);
                        } else {
                            assert(after[after.len() - 1] == f);
                        }
                    }
                }
            }
            assert(name_set(texts(files@)) =~= name_set(start).union(name_set(next)));
        }
        i = i + 1;
    }
    assert(texts(names@).take(i as int) =~= texts(names@));
}

/// The files of the first commits and of one more.
pub proof fn lemma_files_of_next(changes: Seq<ChangeView>, n: int)
    requires
        0 <= n < changes.len(),
    ensures
        files_of(changes.take(n + 1)) == files_of(changes.take(n)).union(name_set(changes[n].files)),
{
    let more = changes.take(n + 1);
    let fewer = changes.take(n);
    assert forall|f: Seq<char>| files_of(more).contains(f) <==> files_of(fewer).union(
        name_set(changes[n].files),
    ).contains(f) by {
        if files_of(more).contains(f) {
            let i = choose|i: int| 0 <= i < more.len() && (#[trigger] more[i]).files.contains(f);
            if i < n {
                assert(fewer[i].files.contains(f));
            }
        }
        if files_of(fewer).contains(f) {
            let i = choose|i: int| 0 <= i < fewer.len() && (#[trigger] fewer[i]).files.contains(f);
            assert(more[i].files.contains(f));
        }
        if changes[n].files.contains(f) {
            assert(more[n].files.contains(f));
        }
    }
    assert(files_of(more) =~= files_of(fewer).union(name_set(changes[n].files)));
}

/// The calculator as plain values.
pub struct CalculatorView {
    /// The current version.
    pub current: SemanticView,
    /// The tally of the commits since the current version, once they have
    /// been walked.
    pub conventional: Option<Tally>,
    /// The names of the files that those commits changed, once they have
    /// been walked.
    pub files: Option<Set<Seq<char>>>,
    /// The suffix of the pre-release to make, where one is asked for.
    pub pre_release: Option<Seq<char>>,
}

impl CalculatorView {
    /// The tally, where there is one, is well formed.
    pub open spec fn wf(self) -> bool {
        self.conventional matches Some(tally) ==> tally.wf()
    }

    /// The highest level found among the commits.
    pub open spec fn top_level(self) -> Option<TypeHierarchy> {
        match self.conventional {
            Some(tally) => tally.top_type,
            None => None,
        }
    }

    /// The level of the next version: none while no commits have been
    /// tallied, else what the commits ask for, one step down while the major
    /// number is 0.
    pub open spec fn next_level(self) -> Level {
        match self.conventional {
            Some(tally) => dampen(table_level(tally), self.current.major),
            None => Level::NoChange,
        }
    }

    /// The answer of the calculation: the level, the current version after a
    /// change at that level, and the highest level found among the commits.
    pub open spec fn next_answer(self) -> AnswerView {
        AnswerView {
            bump_level: self.next_level(),
            version_number: self.current.bump(self.next_level()),
            change_level: self.top_level(),
        }
    }

    /// The calculator with the tally that forces the level in place of its
    /// own.
    pub open spec fn forced(self, level: ForceLevel) -> CalculatorView {
        CalculatorView { conventional: Some(level.tally()), ..self }
    }

    /// The place in the hierarchy of the highest level found, with the
    /// lowest level where none was found.
    pub open spec fn observed_rank(self) -> nat {
        match self.top_level() {
            Some(level) => level.spec_rank(),
            None => TypeHierarchy::Other.spec_rank(),
        }
    }

    /// The check for required files: it applies where the highest level
    /// found is at least `level`. It then fails while the changed files have
    /// not been listed, and where a required file is not among them; the
    /// error names every such file.
    pub open spec fn required_gate(self, required: Seq<Seq<char>>, level: TypeHierarchy) -> Result<
        (),
        ErrorView,
    > {
        if self.observed_rank() >= level.spec_rank() {
            match self.files {
                Some(changed) => if missing_files(required, changed).len() > 0 {
                    Err(ErrorView::MissingRequiredFile(missing_files(required, changed)))
                } else {
                    Ok(())
                },
                None => Err(ErrorView::NoFilesListed),
            }
        } else {
            Ok(())
        }
    }

    /// The calculator after the walk through the commits since the current
    /// version: with their tally and the names of the files they changed.
    pub open spec fn walked(self, changes: Seq<ChangeView>) -> CalculatorView {
        CalculatorView {
            conventional: Some(aggregate(summaries_of(changes))),
            files: Some(files_of(changes)),
            ..self
        }
    }

    /// The request for a pre-release continues the pre-release that the
    /// current version is: the suffix asked for is its suffix.
    pub open spec fn continues_pre_release(self) -> bool {
        self.current.pre_release matches Some(pre) && self.pre_release == Some(pre.suffix)
    }

    /// The first production release: an error where the major number is
    /// above 0, else `1.0.0` at the major level. The release is forced, not
    /// found among the commits: the answer holds no change level.
    pub open spec fn first_release(self) -> Result<AnswerView, ErrorView> {
        if self.current.major > 0 {
            Err(ErrorView::MajorAlreadyUsed(numeral(self.current.major)))
        } else {
            Ok(
                AnswerView {
                    bump_level: Level::Major,
                    version_number: self.current.production(),
                    change_level: None,
                },
            )
        }
    }
}

/// VersionCalculator
///
/// Builds up data about the current version to calculate the next version
/// number and change level.
#[derive(Debug)]
pub struct VersionCalculator {
    current_version: Semantic,
    conventional: Option<ConventionalCommits>,
    files: Option<Vec<String>>,
    pre_release: Option<String>,
}

impl View for VersionCalculator {
    type V = CalculatorView;

    closed spec fn view(&self) -> CalculatorView {
        CalculatorView {
            current: self.current_version@,
            conventional: match self.conventional {
                Some(tally) => Some(tally@),
                None => None,
            },
            files: match self.files {
                Some(names) => Some(name_set(texts(names@))),
                None => None,
            },
            pre_release: match self.pre_release {
                Some(suffix) => Some(suffix@),
                None => None,
            },
        }
    }
}

/// A copy of the names.
fn copy_names(names: &Vec<String>) -> (copy: Vec<String>)
    ensures
        texts(copy@) == texts(names@),
{
    let mut copy: Vec<String> = Vec::new();
    let mut i: usize = 0;
    while i < names.len()
        invariant
            i <= names.len(),
            copy@.len() == i,
            forall|k: int| 0 <= k < i ==> copy@[k]@ == names@[k]@,
        decreases names.len() - i,
    {
        copy.push(names[i].clone());
        i = i + 1;
    }
    assert(texts(copy@) =~= texts(names@));
    copy
}

/// The name is among the names.
fn holds_name(names: &Vec<String>, name: &str) -> (found: bool)
    ensures
        found == texts(names@).contains(name@),
{
    let mut i: usize = 0;
    while i < names.len()
        invariant
            i <= names.len(),
            forall|k: int| 0 <= k < i ==> texts(names@)[k] != name@,
        decreases names.len() - i,
    {
        if same_text(names[i].as_str(), name) {
            assert(texts(names@)[i as int] == name@);
            return true;
        }
        i = i + 1;
    }
    false
}

/// Each of the names is among the others.
fn holds_names(names: &Vec<String>, others: &Vec<String>) -> (all: bool)
    ensures
        all == name_set(texts(names@)).subset_of(name_set(texts(others@))),
{
    let mut i: usize = 0;
    while i < names.len()
        invariant
            i <= names.len(),
            forall|k: int| 0 <= k < i ==> texts(others@).contains(#[trigger] texts(names@)[k]),
        decreases names.len() - i,
    {
        if !holds_name(others, names[i].as_str()) {
            assert(texts(names@)[i as int] == names@[i as int]@);
            assert(name_set(texts(names@)).contains(names@[i as int]@));
            return false;
        }
        assert(texts(names@)[i as int] == names@[i as int]@);
        i = i + 1;
    }
    true
}

impl PartialEq for VersionCalculator {
    fn eq(&self, other: &Self) -> (equal: bool) {
        let same_tally = match (&self.conventional, &other.conventional) {
            (Some(mine), Some(theirs)) => mine == theirs,
            (None, None) => true,
            _ => false,
        };
        let same_files = match (&self.files, &other.files) {
            (Some(mine), Some(theirs)) => {
                proof {
                    let a = name_set(texts(mine@));
                    let b = name_set(texts(theirs@));
                    if a.subset_of(b) && b.subset_of(a) {
                        assert(a =~= b);
                    }
                }
                holds_names(mine, theirs) && holds_names(theirs, mine)
            },
            (None, None) => true,
            _ => false,
        };
        let same_suffix = match (&self.pre_release, &other.pre_release) {
            (Some(mine), Some(theirs)) => same_text(mine.as_str(), theirs.as_str()),
            (None, None) => true,
            _ => false,
        };
        self.current_version == other.current_version && same_tally && same_files && same_suffix
    }
}

impl PartialEqSpecImpl for VersionCalculator {
    open spec fn obeys_eq_spec() -> bool {
        true
    }

    open spec fn eq_spec(&self, other: &Self) -> bool {
        self@ == other@
    }
}

impl Eq for VersionCalculator {

}

impl Clone for VersionCalculator {
    fn clone(&self) -> (copy: Self)
        ensures
            copy@ == self@,
    {
        VersionCalculator {
            current_version: self.current_version.clone(),
            conventional: match &self.conventional {
                Some(tally) => Some(tally.clone()),
                None => None,
            },
            files: match &self.files {
                Some(names) => Some(copy_names(names)),
                None => None,
            },
            pre_release: match &self.pre_release {
                Some(suffix) => Some(suffix.clone()),
                None => None,
            },
        }
    }
}

impl VersionCalculator {
    /// The tally of the calculator, where it has one, is well formed.
    pub open spec fn wf(&self) -> bool {
        self@.wf()
    }

    /// A calculator for the current version, with no commits walked yet.
    pub fn from_version(current_version: Semantic, pre_release: Option<String>) -> (calculator: Self)
        ensures
            calculator@ == (CalculatorView {
                current: current_version@,
                conventional: None,
                files: None,
                pre_release: match pre_release {
                    Some(suffix) => Some(suffix@),
                    None => None,
                },
            }),
            calculator.wf(),
    {
        VersionCalculator { current_version, conventional: None, files: None, pre_release }
    }

    /// Create a new VersionCalculator struct for the latest version among
    /// the names of the references to tags.
    ///
    /// ## Parameters
    ///
    ///  - tag_names - the names of the references, such as `refs/tags/v1.2.3`
    ///  - version_prefix - identifies version tags
    ///  - pre_release - the suffix of the pre-release to make, if any
    pub fn new(tag_names: &Vec<String>, version_prefix: &str, pre_release: Option<String>) -> (result:
        Result<VersionCalculator, Error>)
        ensures
            match result {
                Ok(calculator) => latest_version(texts(tag_names@), version_prefix@) == Some(
                    calculator@.current,
                ) && calculator@.current.wf() && calculator@.conventional is None && calculator@.files is None
                    && calculator@.pre_release == (match pre_release {
                    Some(suffix) => Some(suffix@),
                    None => None,
                }) && calculator.wf(),
                Err(error) => latest_version(texts(tag_names@), version_prefix@) is None && error@
                    == ErrorView::NoVersionTag,
            },
    {
        match latest(tag_names, version_prefix) {
            Ok(current_version) => Ok(VersionCalculator::from_version(current_version, pre_release)),
            Err(error) => Err(error),
        }
    }

    /// Take in the commits made since the tag was created: the conventional
    /// commits among them are tallied, and the names of the files they
    /// changed are listed.
    pub fn walk_commits(self, changes: &Vec<Change>) -> (walked: Self)
        requires
            changes@.len() <= u32::MAX,
        ensures
            walked@ == self@.walked(change_views(changes@)),
            walked.wf(),
    {
        let ghost views = change_views(changes@);
        let mut tally = ConventionalCommits::new();
        let mut files: Vec<String> = Vec::new();
        let mut i: usize = 0;
        assert(name_set(texts(files@)) =~= files_of(views.take(0)));
        assert(summaries_of(views.take(0)) =~= Seq::empty());
        while i < changes.len()
            invariant
                i <= changes.len(),
                changes@.len() <= u32::MAX,
                views == change_views(changes@),
                tally@ == aggregate(summaries_of(views.take(i as int))),
                tally.wf(),
                name_set(texts(files@)) == files_of(views.take(i as int)),
            decreases changes.len() - i,
        {
            let change = &changes[i];
            proof {
                let seen = summaries_of(views.take(i as int));
                lemma_aggregate(seen);
                lemma_summaries_len(views.take(i as int));
                assert(views.take(i + 1).drop_last() =~= views.take(i as int));
                assert(views.take(i + 1).last() == change@);
                lemma_files_of_next(views, i as int);
                if change@.summary is Some {
                    assert(seen.push(change@.summary->0).drop_last() =~= seen);
                }
            }
            match &change.summary {
                Some(summary) => {
                    tally.push(summary.as_str());
                },
                None => {},
            }
            add_names(&mut files, &change.files);
            i = i + 1;
        }
        assert(views.take(i as int) =~= views);
        let mut walked = self;
        walked.conventional = Some(tally);
        walked.files = Some(files);
        walked
    }

    /// The calculator is asked for the pre-release that its current version
    /// is a build of: the next version is then the next build, whatever the
    /// commits.
    pub fn continues_pre_release(&self) -> (continues: bool)
        ensures
            continues == self@.continues_pre_release(),
    {
        match (self.current_version.pre_release(), &self.pre_release) {
            (Some(pre), Some(suffix)) => same_text(pre.suffix(), suffix.as_str()),
            _ => false,
        }
    }

    /// Report the current version.
    pub fn name(&self) -> (version: Semantic)
        ensures
            version@ == self@.current,
    {
        self.current_version.clone()
    }

    /// Report the highest level found among the commits.
    pub fn top_level(&self) -> (top: Option<TypeHierarchy>)
        ensures
            top == self@.top_level(),
    {
        match &self.conventional {
            Some(tally) => tally.top_type(),
            None => None,
        }
    }

    /// The count of commits of a type in the conventional commits: 0 where
    /// there are no commits of the type, or none have been tallied.
    pub fn count_commits_by_type(&self, commit_type: &str) -> (count: u32)
        ensures
            count == match self@.conventional {
                Some(tally) => tally.count(commit_type@),
                None => 0,
            },
    {
        match &self.conventional {
            Some(tally) => tally.commits_by_type(commit_type),
            None => 0,
        }
    }

    /// The count of feature commits in the conventional commits: 0 where
    /// none have been tallied.
    pub fn feat_commits(&self) -> (count: u32)
        ensures
            count == match self@.conventional {
                Some(tally) => tally.count("feat"@),
                None => 0,
            },
    {
        self.count_commits_by_type("feat")
    }

    /// The count of fix commits in the conventional commits: 0 where none
    /// have been tallied.
    pub fn fix_commits(&self) -> (count: u32)
        ensures
            count == match self@.conventional {
                Some(tally) => tally.count("fix"@),
                None => 0,
            },
    {
        self.count_commits_by_type("fix")
    }

    /// The count of docs commits in the conventional commits: 0 where none
    /// have been tallied.
    pub fn docs_commits(&self) -> (count: u32)
        ensures
            count == match self@.conventional {
                Some(tally) => tally.count("docs"@),
                None => 0,
            },
    {
        self.count_commits_by_type("docs")
    }

    /// The count of chore commits in the conventional commits: 0 where none
    /// have been tallied.
    pub fn chore_commits(&self) -> (count: u32)
        ensures
            count == match self@.conventional {
                Some(tally) => tally.count("chore"@),
                None => 0,
            },
    {
        self.count_commits_by_type("chore")
    }

    /// The count of refactor commits in the conventional commits: 0 where
    /// none have been tallied.
    pub fn refactor_commits(&self) -> (count: u32)
        ensures
            count == match self@.conventional {
                Some(tally) => tally.count("refactor"@),
                None => 0,
            },
    {
        self.count_commits_by_type("refactor")
    }

    /// Report the status of the breaking flag in the conventional commits:
    /// false where none have been tallied.
    pub fn breaking(&self) -> (breaking: bool)
        ensures
            breaking == match self@.conventional {
                Some(tally) => tally.breaking,
                None => false,
            },
    {
        match &self.conventional {
            Some(tally) => tally.breaking(),
            None => false,
        }
    }

    /// Force `next_version` to a level: the tally of the calculator is
    /// replaced by one that stands for exactly one commit of that level.
    pub fn force(&mut self, level: ForceLevel) -> (forced: Self)
        ensures
            final(self)@ == old(self)@.forced(level),
            final(self).wf(),
            forced@ == final(self)@,
    {
        let mut tally = ConventionalCommits::new();
        match level {
            ForceLevel::Major => {
                tally.set_breaking(true);
            },
            ForceLevel::Minor => {
                tally.increment_counts("feat");
            },
            ForceLevel::Patch => {
                tally.increment_counts("fix");
            },
        }
        proof {
            assert(Tally::empty().bump("feat"@).counts =~= seq![("feat"@, 1nat)]);
            assert(Tally::empty().bump("fix"@).counts =~= seq![("fix"@, 1nat)]);
            crate::conventional::lemma_bump(Tally::empty(), "feat"@);
            crate::conventional::lemma_bump(Tally::empty(), "fix"@);
        }
        self.conventional = Some(tally);
        self.clone()
    }

    /// Construct conventional commits that force a major update.
    pub fn force_major(&mut self) -> (forced: Self)
        ensures
            final(self)@ == old(self)@.forced(ForceLevel::Major),
            final(self).wf(),
            forced@ == final(self)@,
    {
        self.force(ForceLevel::Major)
    }

    /// Construct conventional commits that force a minor update.
    pub fn force_minor(&mut self) -> (forced: Self)
        ensures
            final(self)@ == old(self)@.forced(ForceLevel::Minor),
            final(self).wf(),
            forced@ == final(self)@,
    {
        self.force(ForceLevel::Minor)
    }

    /// Construct conventional commits that force a patch update.
    pub fn force_patch(&mut self) -> (forced: Self)
        ensures
            final(self)@ == old(self)@.forced(ForceLevel::Patch),
            final(self).wf(),
            forced@ == final(self)@,
    {
        self.force(ForceLevel::Patch)
    }

    /// The level at which the next version is made.
    pub fn level_of_next(&self) -> (level: Level)
        ensures
            level == self@.next_level(),
    {
        let bump = match &self.conventional {
            Some(tally) => {
                if tally.breaking() {
                    Level::Major
                } else if 0 < tally.commits_by_type("feat") {
                    Level::Minor
                } else if tally.has_commits() {
                    Level::Patch
                } else {
                    Level::NoChange
                }
            },
            None => Level::NoChange,
        };
        if self.current_version.major() == 0 {
            match bump {
                Level::Major => Level::Minor,
                Level::Minor => Level::Patch,
                _ => bump,
            }
        } else {
            bump
        }
    }

    /// Calculate the next version and report the version number and the
    /// level at which the change is made.
    pub fn next_version(&mut self) -> (answer: Answer)
        requires
            old(self)@.current.has_room(old(self)@.next_level()),
        ensures
            answer@ == old(self)@.next_answer(),
            *final(self) == *old(self),
    {
        let final_bump = self.level_of_next();
        let top = self.top_level();
        let next_version = next_version_calculator(self.current_version.clone(), &final_bump);
        Answer::new(final_bump, next_version, top)
    }

    /// Report version 1.0.0 and the major level, and make 1.0.0 the current
    /// version. Where the major version number is above 0 the first
    /// production release has been made, and nothing changes.
    pub fn promote_first(&mut self) -> (result: Result<Answer, Error>)
        ensures
            match result {
                Ok(answer) => old(self)@.first_release() == Ok::<AnswerView, ErrorView>(answer@)
                    && final(self)@ == (CalculatorView {
                    current: old(self)@.current.production(),
                    ..old(self)@
                }),
                Err(error) => old(self)@.first_release() == Err::<AnswerView, ErrorView>(error@)
                    && *final(self) == *old(self),
            },
    {
        if 0 < self.current_version.major() {
            return Err(Error::MajorAlreadyUsed(number_text(self.current_version.major())));
        }
        match self.current_version.first_production() {
            Ok(_) => {},
            Err(_) => {},
        }
        Ok(Answer::new(Level::Major, self.current_version.clone(), None))
    }

    /// Check for required files: where the highest level found among the
    /// commits is at least `level`, every required file must be among the
    /// changed files. The error names all the files that are not.
    pub fn has_required(&self, files_required: Vec<String>, level: TypeHierarchy) -> (result: Result<
        (),
        Error,
    >)
        ensures
            match result {
                Ok(()) => self@.required_gate(texts(files_required@), level) == Ok::<(), ErrorView>(
                    (),
                ),
                Err(error) => self@.required_gate(texts(files_required@), level) == Err::<
                    (),
                    ErrorView,
                >(error@),
            },
    {
        let observed = match self.top_level() {
            Some(top) => top,
            None => TypeHierarchy::Other,
        };
        if observed.rank() >= level.rank() {
            match &self.files {
                Some(files) => {
                    let ghost changed = name_set(texts(files@));
                    let ghost required = texts(files_required@);
                    let mut missing: Vec<String> = Vec::new();
                    let mut i: usize = 0;
                    while i < files_required.len()
                        invariant
                            i <= files_required.len(),
                            changed == name_set(texts(files@)),
                            required == texts(files_required@),
                            texts(missing@) == missing_files(required.take(i as int), changed),
                        decreases files_required.len() - i,
                    {
                        proof {
                            assert(required.take(i + 1).drop_last() =~= required.take(i as int));
                            assert(required.take(i + 1).last() == files_required@[i as int]@);
                        }
                        if !holds_name(files, files_required[i].as_str()) {
                            let ghost before = texts(missing@);
                            missing.push(files_required[i].clone());
                            assert(texts(missing@) =~= before.push(files_required@[i as int]@));
                        }
                        i = i + 1;
                    }
                    assert(required.take(i as int) =~= required);
                    if !missing.is_empty() {
                        return Err(Error::MissingRequiredFile(missing));
                    }
                },
                None => {
                    return Err(Error::NoFilesListed);
                },
            }
        }
        Ok(())
    }

    /// Get the pre-release value.
    pub fn get_pre_release(&mut self) -> (suffix: Option<String>)
        ensures
            *final(self) == *old(self),
            match suffix {
                Some(text) => old(self)@.pre_release == Some(text@),
                None => old(self)@.pre_release is None,
            },
    {
        match &self.pre_release {
            Some(text) => Some(text.clone()),
            None => None,
        }
    }

    /// Set the pre-release value.
    pub fn set_pre_release(&mut self, suffix: Option<String>) -> (calculator: &mut Self)
        ensures
            calculator@ == (CalculatorView {
                pre_release: match suffix {
                    Some(text) => Some(text@),
                    None => None,
                },
                ..old(self)@
            }),
            *final(self) == *final(calculator),
    {
        self.pre_release = suffix;
        self
    }
}

/// The version after a change at the level.
pub fn next_version_calculator(version: Semantic, bump: &Level) -> (next: Semantic)
    requires
        version@.has_room(*bump),
    ensures
        next@ == version@.bump(*bump),
{
    let mut version = version;
    match bump {
        Level::Major => {
            version.increment_major();
        },
        Level::Minor => {
            version.increment_minor();
        },
        Level::Patch => {
            version.increment_patch();
        },
        _ => {},
    }
    version
}

} // verus!
