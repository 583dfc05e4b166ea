//! Conventional commits: the hierarchy of their types, and the tally of the
//! commits made since a version.
use vstd::prelude::*;
use vstd::std_specs::cmp::PartialEqSpecImpl;
use vstd::string::*;
use crate::error::{texts, Error, ErrorView};
use crate::text::{
    is_text_before, lemma_text_order, lemma_text_same, lemma_text_transitive, same_names, same_text,
    text_before,
};

verus! {

/// TypeHierarchy maps the types of conventional commits to a hierarchy of
/// levels, lowest first, so that the highest level found in a set of commits
/// can be told.
///
/// Types are mapped as follows:
/// - feat: Feature
/// - fix: Fix
/// - revert: Fix
/// - every other type: Other
///
/// A breaking change is at the level Breaking, whatever its type.
#[derive(Debug, Clone, Copy, PartialEq, Eq, PartialOrd, Ord, Structural)]
pub enum TypeHierarchy {
    /// enforce requirements for all types
    Other,
    /// enforce requirements for fix, feature and breaking
    Fix,
    /// enforce requirements for features and breaking
    Feature,
    /// enforce requirements for breaking only
    Breaking,
}

impl Default for TypeHierarchy {
    fn default() -> (level: Self)
        ensures
            level == TypeHierarchy::Other,
    {
        TypeHierarchy::Other
    }
}

/// What `str::to_lowercase` of `std` gives for a text: the text in lower
/// case, as Unicode has it.
pub uninterp spec fn lowercase_of(text: Seq<char>) -> Seq<char>;

/// Calls `str::to_lowercase` of `std`. The contract gives the result a name
/// and so claims only that it depends on the text alone.
#[verifier::external_body]
fn lowercase(text: &str) -> (lower: String)
    ensures
        lower@ == lowercase_of(text@),
{
    text.to_lowercase()
}

/// The level that a word in lower case stands for: the names of the common
/// commit types, and `breaking`.
pub open spec fn level_of_word(word: Seq<char>) -> Option<TypeHierarchy> {
    if word == "feat"@ {
        Some(TypeHierarchy::Feature)
    } else if word == "fix"@ || word == "revert"@ {
        Some(TypeHierarchy::Fix)
    } else if word == "docs"@ || word == "style"@ || word == "refactor"@ || word == "perf"@ || word
        == "test"@ || word == "chore"@ {
        Some(TypeHierarchy::Other)
    } else if word == "breaking"@ {
        Some(TypeHierarchy::Breaking)
    } else {
        None
    }
}

/// The level that a name stands for, whatever the case of its letters: the
/// level of the name in lower case.
pub open spec fn level_named(name: Seq<char>) -> Option<TypeHierarchy> {
    level_of_word(lowercase_of(name))
}

/// The level of a commit whose type, in lower case, is `word`: Breaking
/// where the commit is marked as breaking, else Feature for `feat`, Fix for
/// `fix` and `revert`, and Other for any other type.
pub open spec fn level_of_commit(word: Seq<char>, breaking: bool) -> TypeHierarchy {
    if breaking {
        TypeHierarchy::Breaking
    } else if word == "feat"@ {
        TypeHierarchy::Feature
    } else if word == "fix"@ || word == "revert"@ {
        TypeHierarchy::Fix
    } else {
        TypeHierarchy::Other
    }
}

/// The level of a commit of the type `kind`, whatever the case of its
/// letters: the level of a commit of the type in lower case.
pub open spec fn commit_level(kind: Seq<char>, breaking: bool) -> TypeHierarchy {
    level_of_commit(lowercase_of(kind), breaking)
}

impl TypeHierarchy {
    /// The place of the level in the hierarchy, from 1 for Other to 4 for
    /// Breaking.
    pub open spec fn spec_rank(self) -> nat {
        match self {
            TypeHierarchy::Other => 1,
            TypeHierarchy::Fix => 2,
            TypeHierarchy::Feature => 3,
            TypeHierarchy::Breaking => 4,
        }
    }

    /// The place of the level in the hierarchy, from 1 for Other to 4 for
    /// Breaking.
    pub fn rank(&self) -> (rank: u32)
        ensures
            rank == self.spec_rank(),
    {
        match self {
            TypeHierarchy::Other => 1,
            TypeHierarchy::Fix => 2,
            TypeHierarchy::Feature => 3,
            TypeHierarchy::Breaking => 4,
        }
    }

    /// The level that a word in lower case stands for, where it stands for
    /// one.
    pub fn of_lowercase(word: &str) -> (level: Option<TypeHierarchy>)
        ensures
            level == level_of_word(word@),
    {
        if same_text(word, "feat") {
            Some(TypeHierarchy::Feature)
        } else if same_text(word, "fix") || same_text(word, "revert") {
            Some(TypeHierarchy::Fix)
        } else if same_text(word, "docs") || same_text(word, "style") || same_text(word, "refactor")
            || same_text(word, "perf") || same_text(word, "test") || same_text(word, "chore") {
            Some(TypeHierarchy::Other)
        } else if same_text(word, "breaking") {
            Some(TypeHierarchy::Breaking)
        } else {
            None
        }
    }

    /// Parse a string into a TypeHierarchy mapping the types or "breaking",
    /// whatever the case of the letters.
    pub fn parse(s: &str) -> (result: Result<TypeHierarchy, Error>)
        ensures
            match result {
                Ok(level) => level_named(s@) == Some(level),
                Err(error) => level_named(s@) is None && error@ == ErrorView::NotTypeHierachyName(
                    s@,
                ),
            },
    {
        let word = lowercase(s);
        match TypeHierarchy::of_lowercase(word.as_str()) {
            Some(level) => Ok(level),
            None => Err(Error::NotTypeHierachyName(String::from_str(s))),
        }
    }

    /// The level of a commit whose type, in lower case, is `word`.
    pub fn of_lowercase_commit(word: &str, breaking: bool) -> (level: TypeHierarchy)
        ensures
            level == level_of_commit(word@, breaking),
    {
        if breaking {
            TypeHierarchy::Breaking
        } else if same_text(word, "feat") {
            TypeHierarchy::Feature
        } else if same_text(word, "fix") || same_text(word, "revert") {
            TypeHierarchy::Fix
        } else {
            TypeHierarchy::Other
        }
    }

    /// The level of a commit of the type `kind`, marked as breaking or not,
    /// whatever the case of the letters of the type.
    pub fn of_commit(kind: &str, breaking: bool) -> (level: TypeHierarchy)
        ensures
            level == commit_level(kind@, breaking),
    {
        let word = lowercase(kind);
        TypeHierarchy::of_lowercase_commit(word.as_str(), breaking)
    }
}

/// Where the type `kind` stands in the counts; their length where it has
/// not been counted.
pub open spec fn kind_index(counts: Seq<(Seq<char>, nat)>, kind: Seq<char>) -> int
    decreases counts.len(),
{
    if counts.len() == 0 {
        0
    } else if counts[0].0 == kind {
        0
    } else {
        1 + kind_index(counts.drop_first(), kind)
    }
}

/// The count of the type `kind` in the counts; 0 where it has not been
/// counted.
pub open spec fn count_in(counts: Seq<(Seq<char>, nat)>, kind: Seq<char>) -> nat {
    let at = kind_index(counts, kind);
    if 0 <= at < counts.len() {
        counts[at].1
    } else {
        0
    }
}

/// The sum of the counts.
pub open spec fn sum_counts(counts: Seq<(Seq<char>, nat)>) -> nat
    decreases counts.len(),
{
    if counts.len() == 0 {
        0
    } else {
        sum_counts(counts.drop_last()) + counts.last().1
    }
}

/// The types stand in the order of the dictionary, each of them once.
pub open spec fn sorted_kinds(counts: Seq<(Seq<char>, nat)>) -> bool {
    forall|i: int, j: int|
        0 <= i < j < counts.len() ==> text_before((#[trigger] counts[i]).0, (#[trigger] counts[j]).0)
}

/// Each type that stands in the counts has been counted at least once.
pub open spec fn counted_kinds(counts: Seq<(Seq<char>, nat)>) -> bool {
    forall|i: int| 0 <= i < counts.len() ==> (#[trigger] counts[i]).1 > 0
}

/// Where a type that comes new belongs in the counts: behind the types
/// that come before it in the dictionary.
pub open spec fn slot(counts: Seq<(Seq<char>, nat)>, kind: Seq<char>) -> int
    decreases counts.len(),
{
    if counts.len() == 0 {
        0
    } else if text_before(counts[0].0, kind) {
        1 + slot(counts.drop_first(), kind)
    } else {
        0
    }
}

/// A conventional commit as plain values: its type as it is written, and
/// whether it is marked as breaking.
pub type ParsedView = Option<(Seq<char>, bool)>;

/// The tally of a set of commits as plain values.
pub struct Tally {
    /// The summaries that were recorded, in the order in which they came.
    pub commits: Seq<Seq<char>>,
    /// The number of conventional commits of each type, the types in the
    /// order of the dictionary.
    pub counts: Seq<(Seq<char>, nat)>,
    /// A breaking change has been found.
    pub breaking: bool,
    /// The highest level found.
    pub top_type: Option<TypeHierarchy>,
}

impl Tally {
    /// The tally of no commits.
    pub open spec fn empty() -> Tally {
        Tally { commits: Seq::empty(), counts: Seq::empty(), breaking: false, top_type: None }
    }

    /// The number of commits of the type `kind`; 0 for a type that has not
    /// been seen.
    pub open spec fn count(self, kind: Seq<char>) -> nat {
        count_in(self.counts, kind)
    }

    /// The number of commits of all types.
    pub open spec fn total(self) -> nat {
        sum_counts(self.counts)
    }

    /// The counts as a mapping from the types that have been counted.
    pub open spec fn counts_map(self) -> Map<Seq<char>, nat> {
        Map::new(|kind: Seq<char>| self.count(kind) > 0, |kind: Seq<char>| self.count(kind))
    }

    /// The place of the highest level found; 0 where none has been found.
    pub open spec fn top_rank(self) -> nat {
        match self.top_type {
            Some(level) => level.spec_rank(),
            None => 0,
        }
    }

    /// The tally with one commit more of the type `kind`.
    pub open spec fn bump(self, kind: Seq<char>) -> Tally {
        let at = kind_index(self.counts, kind);
        if 0 <= at < self.counts.len() {
            Tally { counts: self.counts.update(at, (kind, self.counts[at].1 + 1)), ..self }
        } else {
            Tally { counts: self.counts.insert(slot(self.counts, kind), (kind, 1)), ..self }
        }
    }

    /// The tally with its highest level raised to `level`, where that is
    /// higher; a level that is not higher leaves it as it is.
    pub open spec fn raise(self, level: TypeHierarchy) -> Tally {
        if level.spec_rank() > self.top_rank() {
            Tally { top_type: Some(level), ..self }
        } else {
            self
        }
    }

    /// The tally after a commit with the summary `summary`, which reads as
    /// the conventional commit `parsed`, or as none.
    pub open spec fn record(self, summary: Seq<char>, parsed: ParsedView) -> Tally {
        match parsed {
            Some((kind, breaking)) => {
                let counted = self.bump(kind).raise(commit_level(kind, breaking));
                Tally {
                    commits: self.commits.push(summary),
                    breaking: self.breaking || breaking,
                    ..counted
                }
            },
            None => Tally { commits: self.commits.push(summary), ..self },
        }
    }

    /// The counts are those of a mapping, written in one way: each type
    /// once, in the order of the dictionary, with a count above 0. Their
    /// sum is a number that a `u32` holds.
    pub open spec fn wf(self) -> bool {
        sorted_kinds(self.counts) && counted_kinds(self.counts) && self.total() <= u32::MAX
    }
}

/// `kind_index` is the least index that holds the type.
pub proof fn lemma_kind_index(counts: Seq<(Seq<char>, nat)>, kind: Seq<char>)
    ensures
        0 <= kind_index(counts, kind) <= counts.len(),
        kind_index(counts, kind) < counts.len() ==> counts[kind_index(counts, kind)].0 == kind,
        forall|i: int| 0 <= i < kind_index(counts, kind) ==> (#[trigger] counts[i]).0 != kind,
    decreases counts.len(),
{
    if counts.len() > 0 && counts[0].0 != kind {
        let rest = counts.drop_first();
        lemma_kind_index(rest, kind);
        assert forall|i: int| 0 <= i < kind_index(counts, kind) implies (#[trigger] counts[i]).0
            != kind by {
            if i > 0 {
                assert(rest[i - 1] == counts[i]);
            }
        }
    }
}

/// An index that holds the type, with none before it, is its `kind_index`.
pub proof fn lemma_kind_index_is(counts: Seq<(Seq<char>, nat)>, kind: Seq<char>, at: int)
    requires
        0 <= at <= counts.len(),
        at < counts.len() ==> counts[at].0 == kind,
        forall|i: int| 0 <= i < at ==> (#[trigger] counts[i]).0 != kind,
    ensures
        kind_index(counts, kind) == at,
{
    lemma_kind_index(counts, kind);
    let found = kind_index(counts, kind);
    if found < at {
        assert(counts[found].0 == kind);
    }
}

/// The sum of the counts with one of them changed.
pub proof fn lemma_sum_update(counts: Seq<(Seq<char>, nat)>, at: int, entry: (Seq<char>, nat))
    requires
        0 <= at < counts.len(),
    ensures
        sum_counts(counts.update(at, entry)) == sum_counts(counts) - counts[at].1 + entry.1,
    decreases counts.len(),
{
    let changed = counts.update(at, entry);
    if at == counts.len() - 1 {
        assert(changed.drop_last() =~= counts.drop_last());
    } else {
        lemma_sum_update(counts.drop_last(), at, entry);
        assert(changed.drop_last() =~= counts.drop_last().update(at, entry));
    }
}

/// One count is no more than the sum of all.
pub proof fn lemma_sum_bounds(counts: Seq<(Seq<char>, nat)>, at: int)
    requires
        0 <= at < counts.len(),
    ensures
        counts[at].1 <= sum_counts(counts),
    decreases counts.len(),
{
    if at < counts.len() - 1 {
        lemma_sum_bounds(counts.drop_last(), at);
    }
}

/// `slot` is the least index whose type does not come before the type.
pub proof fn lemma_slot(counts: Seq<(Seq<char>, nat)>, kind: Seq<char>)
    ensures
        0 <= slot(counts, kind) <= counts.len(),
        slot(counts, kind) < counts.len() ==> !text_before(counts[slot(counts, kind)].0, kind),
        forall|i: int| 0 <= i < slot(counts, kind) ==> text_before((#[trigger] counts[i]).0, kind),
    decreases counts.len(),
{
    if counts.len() > 0 && text_before(counts[0].0, kind) {
        let rest = counts.drop_first();
        lemma_slot(rest, kind);
        assert forall|i: int| 0 <= i < slot(counts, kind) implies text_before(
            (#[trigger] counts[i]).0,
            kind,
        ) by {
            if i > 0 {
                assert(rest[i - 1] == counts[i]);
            }
        }
    }
}

/// An index whose type does not come before the type, with only such
/// before it as do, is its `slot`.
pub proof fn lemma_slot_is(counts: Seq<(Seq<char>, nat)>, kind: Seq<char>, at: int)
    requires
        0 <= at <= counts.len(),
        at < counts.len() ==> !text_before(counts[at].0, kind),
        forall|i: int| 0 <= i < at ==> text_before((#[trigger] counts[i]).0, kind),
    ensures
        slot(counts, kind) == at,
{
    lemma_slot(counts, kind);
    let found = slot(counts, kind);
    if found < at {
        assert(text_before(counts[found].0, kind));
    } else if at < found {
        assert(text_before(counts[at].0, kind));
    }
}

/// The sum of the counts with one more put in.
pub proof fn lemma_sum_insert(counts: Seq<(Seq<char>, nat)>, at: int, entry: (Seq<char>, nat))
    requires
        0 <= at <= counts.len(),
    ensures
        sum_counts(counts.insert(at, entry)) == sum_counts(counts) + entry.1,
    decreases counts.len(),
{
    let more = counts.insert(at, entry);
    if at == counts.len() {
        assert(more =~= counts.push(entry));
        assert(more.drop_last() =~= counts);
    } else {
        lemma_sum_insert(counts.drop_last(), at, entry);
        assert(more.drop_last() =~= counts.drop_last().insert(at, entry));
        assert(more.last() == counts.last());
    }
}

/// The count of a type in counts with another type put in.
proof fn lemma_count_insert(
    counts: Seq<(Seq<char>, nat)>,
    at: int,
    entry: (Seq<char>, nat),
    other: Seq<char>,
)
    requires
        0 <= at <= counts.len(),
        other != entry.0,
    ensures
        count_in(counts.insert(at, entry), other) == count_in(counts, other),
{
    let more = counts.insert(at, entry);
    lemma_kind_index(counts, other);
    let there = kind_index(counts, other);
    if there < at {
        assert forall|i: int| 0 <= i < there implies (#[trigger] more[i]).0 != other by {
            assert(more[i] == counts[i]);
        }
        assert(more[there] == counts[there]);
        lemma_kind_index_is(more, other, there);
    } else if there < counts.len() {
        assert forall|i: int| 0 <= i < there + 1 implies (#[trigger] more[i]).0 != other by {
            if i < at {
                assert(more[i] == counts[i]);
            } else if i > at {
                assert(more[i] == counts[i - 1]);
            }
        }
        assert(more[there + 1] == counts[there]);
        lemma_kind_index_is(more, other, there + 1);
    } else {
        assert forall|i: int| 0 <= i < more.len() implies (#[trigger] more[i]).0 != other by {
            if i < at {
                assert(more[i] == counts[i]);
            } else if i > at {
                assert(more[i] == counts[i - 1]);
            }
        }
        lemma_kind_index_is(more, other, more.len() as int);
    }
}

/// Counts in order stay in order with a new type put in at its slot.
proof fn lemma_insert_sorted(counts: Seq<(Seq<char>, nat)>, kind: Seq<char>)
    requires
        sorted_kinds(counts),
        kind_index(counts, kind) == counts.len(),
    ensures
        sorted_kinds(counts.insert(slot(counts, kind), (kind, 1nat))),
{
    let at = slot(counts, kind);
    let more = counts.insert(at, (kind, 1nat));
    lemma_slot(counts, kind);
    lemma_kind_index(counts, kind);
    assert forall|i: int, j: int| 0 <= i < j < more.len() implies text_before(
        (#[trigger] more[i]).0,
        (#[trigger] more[j]).0,
    ) by {
        if j < at {
            assert(more[i] == counts[i] && more[j] == counts[j]);
        } else if j == at {
            assert(more[i] == counts[i]);
        } else if i == at {
            // the types from the slot on come after the new type
            assert(more[j] == counts[j - 1]);
            assert(!text_before(counts[at].0, kind));
            assert(counts[at].0 != kind);
            lemma_text_order(counts[at].0, kind);
            if j - 1 > at {
                assert(text_before(counts[at].0, counts[j - 1].0));
                lemma_text_transitive(kind, counts[at].0, counts[j - 1].0);
            }
        } else if i < at {
            assert(more[i] == counts[i] && more[j] == counts[j - 1]);
        } else {
            assert(more[i] == counts[i - 1] && more[j] == counts[j - 1]);
        }
    }
}

/// Counting one commit more: the count of its type and the sum go up by 1,
/// the other counts stay, and counts that are written in the one way stay
/// so.
pub proof fn lemma_bump(tally: Tally, kind: Seq<char>)
    ensures
        tally.bump(kind).count(kind) == tally.count(kind) + 1,
        forall|other: Seq<char>| other != kind ==> tally.bump(kind).count(other) == tally.count(other),
        tally.bump(kind).total() == tally.total() + 1,
        sorted_kinds(tally.counts) ==> sorted_kinds(tally.bump(kind).counts),
        counted_kinds(tally.counts) ==> counted_kinds(tally.bump(kind).counts),
{
    let counts = tally.counts;
    let at = kind_index(counts, kind);
    let after = tally.bump(kind).counts;
    lemma_kind_index(counts, kind);
    if at < counts.len() {
        lemma_sum_update(counts, at, (kind, counts[at].1 + 1));
        lemma_kind_index_is(after, kind, at);
        assert forall|other: Seq<char>| other != kind implies tally.bump(kind).count(other)
            == tally.count(other) by {
            lemma_kind_index(counts, other);
            let there = kind_index(counts, other);
            assert forall|i: int| 0 <= i < there implies (#[trigger] after[i]).0 != other by {
                assert(counts[i].0 != other);
            }
            lemma_kind_index_is(after, other, there);
        }
        if sorted_kinds(counts) {
            assert forall|i: int, j: int| 0 <= i < j < after.len() implies text_before(
                (#[trigger] after[i]).0,
                (#[trigger] after[j]).0,
            ) by {
                assert(text_before(counts[i].0, counts[j].0));
            }
        }
        if counted_kinds(counts) {
            assert forall|i: int| 0 <= i < after.len() implies (#[trigger] after[i]).1 > 0 by {
                assert(counts[i].1 > 0);
            }
        }
    } else {
        let to = slot(counts, kind);
        lemma_slot(counts, kind);
        lemma_sum_insert(counts, to, (kind, 1nat));
        assert forall|i: int| 0 <= i < to implies (#[trigger] after[i]).0 != kind by {
            assert(after[i] == counts[i]);
            assert(counts[i].0 != kind);
        }
        assert(after[to] == (kind, 1nat));
        lemma_kind_index_is(after, kind, to);
        assert forall|other: Seq<char>| other != kind implies tally.bump(kind).count(other)
            == tally.count(other) by {
            lemma_count_insert(counts, to, (kind, 1nat), other);
        }
        if sorted_kinds(counts) {
            lemma_insert_sorted(counts, kind);
        }
        if counted_kinds(counts) {
            assert forall|i: int| 0 <= i < after.len() implies (#[trigger] after[i]).1 > 0 by {
                if i < to {
                    assert(after[i] == counts[i]);
                } else if i > to {
                    assert(after[i] == counts[i - 1]);
                }
            }
        }
    }
}

/// Counts that are written in the one way and give every type the same
/// count are the same counts.
pub proof fn lemma_counts_are_one(a: Seq<(Seq<char>, nat)>, b: Seq<(Seq<char>, nat)>)
    requires
        sorted_kinds(a),
        sorted_kinds(b),
        counted_kinds(a),
        counted_kinds(b),
        forall|kind: Seq<char>| #[trigger] count_in(a, kind) == count_in(b, kind),
    ensures
        a == b,
    decreases a.len(),
{
    if a.len() == 0 {
        if b.len() > 0 {
            lemma_kind_index_is(b, b[0].0, 0);
            assert(count_in(a, b[0].0) == count_in(b, b[0].0));
        }
        assert(a =~= b);
    } else if b.len() == 0 {
        lemma_kind_index_is(a, a[0].0, 0);
        assert(count_in(a, a[0].0) == count_in(b, a[0].0));
    } else {
        let ka = a[0].0;
        let kb = b[0].0;
        lemma_kind_index_is(a, ka, 0);
        lemma_kind_index_is(b, kb, 0);
        assert(count_in(a, ka) == count_in(b, ka));
        assert(count_in(a, kb) == count_in(b, kb));
        lemma_kind_index(b, ka);
        lemma_kind_index(a, kb);
        let j = kind_index(b, ka);
        let i = kind_index(a, kb);
        assert(j < b.len());
        assert(i < a.len());
        if j > 0 {
            // then `kb` comes before `ka`, and `ka` not after `kb`
            assert(text_before(b[0].0, b[j].0));
            lemma_text_order(ka, kb);
            if i > 0 {
                assert(text_before(a[0].0, a[i].0));
            }
        }
        assert(j == 0);
        assert(ka == kb && a[0].1 == b[0].1);
        let ra = a.drop_first();
        let rb = b.drop_first();
        assert forall|p: int, q: int| 0 <= p < q < ra.len() implies text_before(
            (#[trigger] ra[p]).0,
            (#[trigger] ra[q]).0,
        ) by {
            assert(text_before(a[p + 1].0, a[q + 1].0));
        }
        assert forall|p: int, q: int| 0 <= p < q < rb.len() implies text_before(
            (#[trigger] rb[p]).0,
            (#[trigger] rb[q]).0,
        ) by {
            assert(text_before(b[p + 1].0, b[q + 1].0));
        }
        assert forall|p: int| 0 <= p < ra.len() implies (#[trigger] ra[p]).1 > 0 by {
            assert(a[p + 1].1 > 0);
        }
        assert forall|p: int| 0 <= p < rb.len() implies (#[trigger] rb[p]).1 > 0 by {
            assert(b[p + 1].1 > 0);
        }
        assert forall|kind: Seq<char>| #[trigger] count_in(ra, kind) == count_in(rb, kind) by {
            assert(count_in(a, kind) == count_in(b, kind));
            if kind == ka {
                lemma_text_same(ka);
                assert forall|p: int| 0 <= p < ra.len() implies (#[trigger] ra[p]).0 != ka by {
                    assert(text_before(a[0].0, a[p + 1].0));
                }
                assert forall|p: int| 0 <= p < rb.len() implies (#[trigger] rb[p]).0 != ka by {
                    assert(text_before(b[0].0, b[p + 1].0));
                }
                lemma_kind_index_is(ra, ka, ra.len() as int);
                lemma_kind_index_is(rb, ka, rb.len() as int);
            } else {
                lemma_kind_index(ra, kind);
                lemma_kind_index(rb, kind);
                let p = kind_index(ra, kind);
                let q = kind_index(rb, kind);
                assert(kind_index(a, kind) == 1 + p);
                assert(kind_index(b, kind) == 1 + q);
                if p < ra.len() {
                    assert(a[1 + p] == ra[p]);
                }
                if q < rb.len() {
                    assert(b[1 + q] == rb[q]);
                }
            }
        }
        lemma_counts_are_one(ra, rb);
        assert(a =~= seq![a[0]] + ra);
        assert(b =~= seq![b[0]] + rb);
    }
}

/// What a commit summary reads as under the Conventional Commits grammar, as
/// the crate `git_conventional` parses it: the type as written and the
/// breaking mark, or nothing where the summary does not follow the grammar.
pub uninterp spec fn conventional_commit(summary: Seq<char>) -> ParsedView;

/// The tally of the commits with these summaries, recorded one after the
/// other from the first.
pub open spec fn aggregate(summaries: Seq<Seq<char>>) -> Tally
    decreases summaries.len(),
{
    if summaries.len() == 0 {
        Tally::empty()
    } else {
        aggregate(summaries.drop_last()).record(
            summaries.last(),
            conventional_commit(summaries.last()),
        )
    }
}

/// Recording a commit counts at most one commit more, and keeps the counts
/// written in the one way.
pub proof fn lemma_record(tally: Tally, summary: Seq<char>, parsed: ParsedView)
    ensures
        tally.record(summary, parsed).total() == tally.total() + (if parsed is Some {
            1nat
        } else {
            0nat
        }),
        sorted_kinds(tally.counts) ==> sorted_kinds(tally.record(summary, parsed).counts),
        counted_kinds(tally.counts) ==> counted_kinds(tally.record(summary, parsed).counts),
        tally.breaking ==> tally.record(summary, parsed).breaking,
        tally.record(summary, parsed).top_rank() >= tally.top_rank(),
{
    match parsed {
        Some((kind, breaking)) => {
            lemma_bump(tally, kind);
        },
        None => {},
    }
}

/// The tally of commits counts no more commits than there are summaries,
/// and its counts are written in the one way.
pub proof fn lemma_aggregate(summaries: Seq<Seq<char>>)
    ensures
        aggregate(summaries).total() <= summaries.len(),
        sorted_kinds(aggregate(summaries).counts),
        counted_kinds(aggregate(summaries).counts),
        aggregate(summaries).commits == summaries,
    decreases summaries.len(),
{
    if summaries.len() > 0 {
        let init = summaries.drop_last();
        lemma_aggregate(init);
        lemma_record(aggregate(init), summaries.last(), conventional_commit(summaries.last()));
        assert(init.push(summaries.last()) =~= summaries);
    }
}

/// A conventional commit, as far as the tally reads it.
#[derive(Debug)]
pub struct ConventionalCommit {
    /// The type of the commit, as it is written.
    pub kind: String,
    /// The commit is marked as a breaking change.
    pub breaking: bool,
}

impl View for ConventionalCommit {
    type V = (Seq<char>, bool);

    open spec fn view(&self) -> (Seq<char>, bool) {
        (self.kind@, self.breaking)
    }
}

/// The plain values of a commit that may have been parsed.
pub open spec fn parsed_view(parsed: Option<ConventionalCommit>) -> ParsedView {
    match parsed {
        Some(commit) => Some(commit@),
        None => None,
    }
}

/// Calls `git_conventional::Commit::parse` on the summary, and reads the
/// type (`type_`) and the breaking mark (`breaking`) of the commit it gives.
/// The contract names the outcome `conventional_commit` of the summary, and
/// so claims that it depends on the summary alone.
#[verifier::external_body]
fn parse_conventional(summary: &str) -> (parsed: Option<ConventionalCommit>)
    ensures
        parsed_view(parsed) == conventional_commit(summary@),
{
    match git_conventional::Commit::parse(summary) {
        Ok(commit) => Some(
            ConventionalCommit { kind: commit.type_().as_str().to_string(), breaking: commit.breaking() },
        ),
        Err(_) => None,
    }
}

/// The commits made since a version: their summaries, the number of
/// conventional commits of each type, whether one of them is breaking, and
/// the highest level among them.
#[derive(Debug)]
pub struct ConventionalCommits {
    commits: Vec<String>,
    counts: Vec<(String, u32)>,
    breaking: bool,
    top_type: Option<TypeHierarchy>,
}

impl View for ConventionalCommits {
    type V = Tally;

    closed spec fn view(&self) -> Tally {
        Tally {
            commits: Seq::new(self.commits@.len(), |i: int| self.commits@[i]@),
            counts: Seq::new(self.counts@.len(), |i: int| (self.counts@[i].0@, self.counts@[i].1 as nat)),
            breaking: self.breaking,
            top_type: self.top_type,
        }
    }
}

impl Clone for ConventionalCommits {
    fn clone(&self) -> (copy: Self)
        ensures
            copy@ == self@,
    {
        let mut commits: Vec<String> = Vec::new();
        let mut i: usize = 0;
        while i < self.commits.len()
            invariant
                i <= self.commits.len(),
                commits@.len() == i,
                forall|k: int| 0 <= k < i ==> commits@[k]@ == self.commits@[k]@,
            decreases self.commits.len() - i,
        {
            commits.push(self.commits[i].clone());
            i = i + 1;
        }
        let mut counts: Vec<(String, u32)> = Vec::new();
        let mut j: usize = 0;
        while j < self.counts.len()
            invariant
                j <= self.counts.len(),
                counts@.len() == j,
                forall|k: int|
                    0 <= k < j ==> counts@[k].0@ == self.counts@[k].0@ && counts@[k].1
                        == self.counts@[k].1,
            decreases self.counts.len() - j,
        {
            counts.push((self.counts[j].0.clone(), self.counts[j].1));
            j = j + 1;
        }
        let copy = ConventionalCommits { commits, counts, breaking: self.breaking, top_type: self.top_type };
        assert(copy@.commits =~= self@.commits);
        assert(copy@.counts =~= self@.counts);
        copy
    }
}

impl PartialEq for ConventionalCommits {
    fn eq(&self, other: &Self) -> (equal: bool) {
        let same_top = match (self.top_type, other.top_type) {
            (Some(mine), Some(theirs)) => mine.rank() == theirs.rank(),
            (None, None) => true,
            _ => false,
        };
        proof {
            assert(texts(self.commits@) =~= self@.commits);
            assert(texts(other.commits@) =~= other@.commits);
        }
        same_names(&self.commits, &other.commits) && self.same_counts(other) && self.breaking
            == other.breaking && same_top
    }
}

impl PartialEqSpecImpl for ConventionalCommits {
    open spec fn obeys_eq_spec() -> bool {
        true
    }

    open spec fn eq_spec(&self, other: &Self) -> bool {
        self@ == other@
    }
}

impl Eq for ConventionalCommits {

}

impl ConventionalCommits {
    /// The counts of two tallies are the same.
    fn same_counts(&self, other: &Self) -> (same: bool)
        ensures
            same == (self@.counts == other@.counts),
    {
        if self.counts.len() != other.counts.len() {
            assert(self@.counts.len() != other@.counts.len());
            return false;
        }
        let mut i: usize = 0;
        while i < self.counts.len()
            invariant
                i <= self.counts.len(),
                self.counts.len() == other.counts.len(),
                forall|k: int| 0 <= k < i ==> self@.counts[k] == other@.counts[k],
            decreases self.counts.len() - i,
        {
            if !same_text(self.counts[i].0.as_str(), other.counts[i].0.as_str()) || self.counts[i].1
                != other.counts[i].1 {
                assert(self@.counts[i as int] != other@.counts[i as int]);
                return false;
            }
            assert(self@.counts[i as int] == other@.counts[i as int]);
            i = i + 1;
        }
        assert(self@.counts =~= other@.counts);
        true
    }

    /// The tally is well formed: see `Tally::wf`.
    pub open spec fn wf(&self) -> bool {
        self@.wf()
    }

    /// A tally of no commits.
    pub fn new() -> (tally: ConventionalCommits)
        ensures
            tally@ == Tally::empty(),
            tally.wf(),
    {
        let tally = ConventionalCommits {
            commits: Vec::new(),
            counts: Vec::new(),
            breaking: false,
            top_type: None,
        };
        assert(tally@.commits =~= Seq::empty());
        assert(tally@.counts =~= Seq::empty());
        tally
    }

    /// Where the type stands in the counts; their length where it has not
    /// been counted.
    fn find_kind(&self, kind: &str) -> (at: usize)
        ensures
            at == kind_index(self@.counts, kind@),
            at <= self.counts@.len(),
            self.counts@.len() == self@.counts.len(),
    {
        let mut i: usize = 0;
        while i < self.counts.len()
            invariant
                i <= self.counts.len(),
                self.counts@.len() == self@.counts.len(),
                forall|k: int| 0 <= k < i ==> (#[trigger] self@.counts[k]).0 != kind@,
            decreases self.counts.len() - i,
        {
            if same_text(self.counts[i].0.as_str(), kind) {
                proof {
                    assert(self@.counts[i as int].0 == kind@);
                    lemma_kind_index_is(self@.counts, kind@, i as int);
                }
                return i;
            }
            assert(self@.counts[i as int].0 != kind@);
            i = i + 1;
        }
        proof {
            lemma_kind_index_is(self@.counts, kind@, i as int);
        }
        i
    }

    /// Where a type that comes new belongs in the counts.
    fn find_slot(&self, kind: &str) -> (at: usize)
        ensures
            at == slot(self@.counts, kind@),
            at <= self.counts@.len(),
    {
        let mut i: usize = 0;
        while i < self.counts.len()
            invariant
                i <= self.counts.len(),
                self.counts@.len() == self@.counts.len(),
                forall|k: int| 0 <= k < i ==> text_before((#[trigger] self@.counts[k]).0, kind@),
            decreases self.counts.len() - i,
        {
            if !is_text_before(self.counts[i].0.as_str(), kind) {
                proof {
                    assert(!text_before(self@.counts[i as int].0, kind@));
                    lemma_slot_is(self@.counts, kind@, i as int);
                }
                return i;
            }
            assert(text_before(self@.counts[i as int].0, kind@));
            i = i + 1;
        }
        proof {
            lemma_slot_is(self@.counts, kind@, i as int);
        }
        i
    }

    /// Record a commit by its summary. Where the summary reads as a
    /// conventional commit, the commit is counted under its type, a breaking
    /// change is noted, and the highest level is raised to the level of the
    /// commit where that is higher. The summary is kept in either case.
    pub fn push(&mut self, summary: &str) -> (tally: &Self)
        requires
            old(self).wf(),
            old(self)@.total() < u32::MAX,
        ensures
            final(self)@ == old(self)@.record(summary@, conventional_commit(summary@)),
            final(self).wf(),
            *tally == *final(self),
    {
        let parsed = parse_conventional(summary);
        self.record(summary, parsed);
        self
    }

    /// Record a commit by its summary and by what the summary reads as: a
    /// conventional commit, or none.
    pub fn record(&mut self, summary: &str, parsed: Option<ConventionalCommit>)
        requires
            old(self).wf(),
            parsed is Some ==> old(self)@.total() < u32::MAX,
        ensures
            final(self)@ == old(self)@.record(summary@, parsed_view(parsed)),
            final(self).wf(),
    {
        let ghost before = self@;
        match parsed {
            Some(commit) => {
                self.increment_counts(commit.kind.as_str());
                if commit.breaking {
                    self.breaking = true;
                }
                let level = TypeHierarchy::of_commit(commit.kind.as_str(), commit.breaking);
                self.raise_top_type(level);
            },
            None => {},
        }
        let ghost counted = self@;
        self.commits.push(String::from_str(summary));
        proof {
            assert(self@.commits =~= before.commits.push(summary@));
            assert(self@.counts =~= counted.counts);
        }
    }

    /// Count one commit more of the type.
    pub fn increment_counts(&mut self, commit_type: &str)
        requires
            old(self).wf(),
            old(self)@.total() < u32::MAX,
        ensures
            final(self)@ == old(self)@.bump(commit_type@),
            final(self).wf(),
    {
        let ghost before = self@;
        proof {
            lemma_bump(before, commit_type@);
        }
        let at = self.find_kind(commit_type);
        if at < self.counts.len() {
            proof {
                lemma_sum_bounds(before.counts, at as int);
            }
            let count: u32 = self.counts[at].1;
            self.counts.set(at, (String::from_str(commit_type), count + 1));
        } else {
            let to = self.find_slot(commit_type);
            self.counts.insert(to, (String::from_str(commit_type), 1));
        }
        proof {
            assert(self@.counts =~= before.bump(commit_type@).counts);
            assert(self@.commits =~= before.commits);
        }
    }

    /// The number of commits of each type, the types in the order of the
    /// dictionary.
    pub fn counts(&self) -> (counts: Vec<(String, u32)>)
        ensures
            counts@.len() == self@.counts.len(),
            forall|i: int|
                0 <= i < counts@.len() ==> (#[trigger] counts@[i]).0@ == self@.counts[i].0
                    && counts@[i].1 == self@.counts[i].1,
    {
        let mut counts: Vec<(String, u32)> = Vec::new();
        let mut j: usize = 0;
        while j < self.counts.len()
            invariant
                j <= self.counts.len(),
                counts@.len() == j,
                forall|k: int|
                    0 <= k < j ==> (#[trigger] counts@[k]).0@ == self.counts@[k].0@ && counts@[k].1
                        == self.counts@[k].1,
            decreases self.counts.len() - j,
        {
            counts.push((self.counts[j].0.clone(), self.counts[j].1));
            j = j + 1;
        }
        counts
    }

    /// The summaries that were recorded, in the order in which they came.
    pub fn commits(&self) -> (commits: &Vec<String>)
        ensures
            commits@.len() == self@.commits.len(),
            forall|i: int| 0 <= i < commits@.len() ==> (#[trigger] commits@[i])@ == self@.commits[i],
    {
        &self.commits
    }

    /// The number of commits of the type; 0 for a type that has not been
    /// seen.
    pub fn commits_by_type(&self, commit_type: &str) -> (count: u32)
        ensures
            count == self@.count(commit_type@),
    {
        let at = self.find_kind(commit_type);
        if at < self.counts.len() {
            self.counts[at].1
        } else {
            0
        }
    }

    /// The number of commits of all types.
    pub fn commits_all_types(&self) -> (count: u32)
        requires
            self.wf(),
        ensures
            count == self@.total(),
    {
        let ghost counts = self@.counts;
        let mut sum: u32 = 0;
        let mut i: usize = 0;
        while i < self.counts.len()
            invariant
                i <= self.counts.len(),
                counts == self@.counts,
                counts.len() == self.counts@.len(),
                sum_counts(counts) <= u32::MAX,
                sum == sum_counts(counts.take(i as int)),
            decreases self.counts.len() - i,
        {
            proof {
                assert(counts.take(i + 1).drop_last() =~= counts.take(i as int));
                lemma_sum_take(counts, i + 1);
            }
            sum = sum + self.counts[i].1;
            i = i + 1;
        }
        assert(counts.take(i as int) =~= counts);
        sum
    }

    /// A commit of any type has been counted.
    pub fn has_commits(&self) -> (any: bool)
        ensures
            any == (self@.total() > 0),
    {
        let ghost counts = self@.counts;
        let mut i: usize = 0;
        while i < self.counts.len()
            invariant
                i <= self.counts.len(),
                counts == self@.counts,
                counts.len() == self.counts@.len(),
                sum_counts(counts.take(i as int)) == 0,
            decreases self.counts.len() - i,
        {
            if self.counts[i].1 > 0 {
                proof {
                    lemma_sum_bounds(counts, i as int);
                }
                return true;
            }
            proof {
                assert(counts.take(i + 1).drop_last() =~= counts.take(i as int));
            }
            i = i + 1;
        }
        assert(counts.take(i as int) =~= counts);
        false
    }

    /// A breaking change has been found.
    pub fn breaking(&self) -> (breaking: bool)
        ensures
            breaking == self@.breaking,
    {
        self.breaking
    }

    /// Set the breaking flag value.
    pub fn set_breaking(&mut self, flag: bool) -> (tally: &mut Self)
        ensures
            tally@ == (Tally { breaking: flag, ..old(self)@ }),
            *final(self) == *final(tally),
    {
        self.breaking = flag;
        self
    }

    /// Raise the highest level to `level`, where that is higher.
    pub fn raise_top_type(&mut self, level: TypeHierarchy)
        ensures
            final(self)@ == old(self)@.raise(level),
    {
        if level.rank() > self.top_type_discriminant() {
            self.top_type = Some(level);
        }
    }

    /// Raise the highest level to the level that the name stands for, where
    /// that is higher. A name that stands for no level changes nothing.
    pub fn set_top_type_if_higher(&mut self, type_: &str) -> (tally: &mut Self)
        ensures
            tally@ == match level_named(type_@) {
                Some(level) => old(self)@.raise(level),
                None => old(self)@,
            },
            *final(self) == *final(tally),
    {
        match TypeHierarchy::parse(type_) {
            Ok(level) => {
                self.raise_top_type(level);
            },
            Err(_) => {},
        }
        self
    }

    /// The place of the highest level in the hierarchy; 0 where no level has
    /// been found.
    pub fn top_type_discriminant(&self) -> (rank: u32)
        ensures
            rank == self@.top_rank(),
    {
        match self.top_type {
            Some(level) => level.rank(),
            None => 0,
        }
    }

    /// The highest level found.
    pub fn top_type(&self) -> (top: Option<TypeHierarchy>)
        ensures
            top == self@.top_type,
    {
        self.top_type
    }
}

/// The sum of the first counts is no more than the sum of all.
pub proof fn lemma_sum_take(counts: Seq<(Seq<char>, nat)>, n: int)
    requires
        0 <= n <= counts.len(),
    ensures
        sum_counts(counts.take(n)) <= sum_counts(counts),
    decreases counts.len() - n,
{
    if n < counts.len() {
        lemma_sum_take(counts, n + 1);
        assert(counts.take(n + 1).drop_last() =~= counts.take(n));
    } else {
        assert(counts.take(n) =~= counts);
    }
}

} // verus!
