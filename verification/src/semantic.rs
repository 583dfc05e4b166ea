//! Semantic version numbers: the level of a change, the version with its
//! prefix and optional pre-release, and the steps from one version to the
//! next.
use vstd::prelude::*;
use vstd::std_specs::cmp::PartialEqSpecImpl;
use vstd::string::*;
use crate::decimal::{number_of, number_text, numeral, parse_number, push_number};
use crate::error::{Error, ErrorView};
use crate::text::{
    chars_of, find_in, lemma_mark, lemma_marks_len, lemma_position, lemma_skip_holds_no,
    lemma_split_parts, marks, occurs, position, split, split_from, starts_with,
};

verus! {

/// Level at which the next increment will be made.
#[derive(Debug, Clone, Copy, PartialEq, Eq, PartialOrd, Ord, Structural)]
pub enum Level {
    /// No update has been detected.
    NoChange,
    /// Update will be made at the patch level.
    Patch,
    /// Update will be made at the minor level.
    Minor,
    /// Update will be made at the major level.
    Major,
    /// Update starts or continues a pre-release.
    PreRelease,
    /// Update is a release removing the pre-release suffix.
    Release,
    /// Update is to an alpha pre-release suffix (for future use).
    Alpha,
    /// Update is to a beta pre-release suffix (for future use).
    Beta,
    /// Update is to an rc pre-release suffix (for future use).
    Rc,
}

impl Default for Level {
    fn default() -> (level: Self)
        ensures
            level == Level::NoChange,
    {
        Level::NoChange
    }
}

impl Level {
    /// The name of the level, in lower case.
    pub open spec fn text(self) -> Seq<char> {
        match self {
            Level::NoChange => "none"@,
            Level::Patch => "patch"@,
            Level::Minor => "minor"@,
            Level::Major => "major"@,
            Level::PreRelease => "pre-release"@,
            Level::Release => "release"@,
            Level::Alpha => "alpha"@,
            Level::Beta => "beta"@,
            Level::Rc => "rc"@,
        }
    }

    /// The name of the level, in lower case.
    pub fn to_string(&self) -> (s: String)
        ensures
            s@ == self.text(),
    {
        match self {
            Level::NoChange => String::from_str("none"),
            Level::Patch => String::from_str("patch"),
            Level::Minor => String::from_str("minor"),
            Level::Major => String::from_str("major"),
            Level::PreRelease => String::from_str("pre-release"),
            Level::Release => String::from_str("release"),
            Level::Alpha => String::from_str("alpha"),
            Level::Beta => String::from_str("beta"),
            Level::Rc => String::from_str("rc"),
        }
    }
}

/// A text can be the suffix of a pre-release: it is not empty, and holds no
/// `.`, which ends the suffix in a tag.
pub open spec fn is_suffix(text: Seq<char>) -> bool {
    text.len() > 0 && !occurs(text, '.')
}

/// A pre-release as plain values: the suffix and the number of the build.
pub struct PreReleaseView {
    pub suffix: Seq<char>,
    pub id: nat,
}

/// A version as plain values.
pub struct SemanticView {
    pub prefix: Seq<char>,
    pub major: nat,
    pub minor: nat,
    pub patch: nat,
    pub pre_release: Option<PreReleaseView>,
}

impl SemanticView {
    /// A pre-release, where there is one, has a suffix that can be one.
    pub open spec fn wf(self) -> bool {
        self.pre_release matches Some(pre) ==> is_suffix(pre.suffix)
    }

    /// The version as it is written in a tag: the prefix, the three numbers
    /// with a `.` between them and, for a pre-release, `-`, the suffix, `.`
    /// and the number of the build.
    pub open spec fn text(self) -> Seq<char> {
        let release = self.prefix + numeral(self.major) + seq!['.'] + numeral(self.minor) + seq![
            '.',
        ] + numeral(self.patch);
        match self.pre_release {
            Some(pre) => release + seq!['-'] + pre.suffix + seq!['.'] + numeral(pre.id),
            None => release,
        }
    }

    /// The version after a change at the patch level.
    pub open spec fn bump_patch(self) -> SemanticView {
        SemanticView { patch: self.patch + 1, ..self }
    }

    /// The version after a change at the minor level.
    pub open spec fn bump_minor(self) -> SemanticView {
        SemanticView { minor: self.minor + 1, patch: 0, ..self }
    }

    /// The version after a change at the major level.
    pub open spec fn bump_major(self) -> SemanticView {
        SemanticView { major: self.major + 1, minor: 0, patch: 0, ..self }
    }

    /// The version after a breaking change: the minor level while the major
    /// number is 0, the major level from then on.
    pub open spec fn bump_breaking(self) -> SemanticView {
        if self.major == 0 {
            self.bump_minor()
        } else {
            self.bump_major()
        }
    }

    /// The first production release: `1.0.0` under the same prefix.
    pub open spec fn production(self) -> SemanticView {
        SemanticView { major: 1, minor: 0, patch: 0, pre_release: None, ..self }
    }

    /// The version as the first pre-release with the suffix.
    pub open spec fn with_pre_release(self, suffix: Seq<char>) -> SemanticView {
        SemanticView { pre_release: Some(PreReleaseView { suffix, id: 0 }), ..self }
    }

    /// The next build of the pre-release.
    pub open spec fn next_pre_release(self) -> SemanticView
        recommends
            self.pre_release is Some,
    {
        let pre = self.pre_release->0;
        SemanticView { pre_release: Some(PreReleaseView { id: pre.id + 1, ..pre }), ..self }
    }

    /// The version without its pre-release.
    pub open spec fn released(self) -> SemanticView {
        SemanticView { pre_release: None, ..self }
    }

    /// The version after a change at the level: the three numeric levels
    /// change it, the others leave it as it is.
    pub open spec fn bump(self, level: Level) -> SemanticView {
        match level {
            Level::Major => self.bump_major(),
            Level::Minor => self.bump_minor(),
            Level::Patch => self.bump_patch(),
            _ => self,
        }
    }

    /// The number that a change at the level increases can be increased.
    pub open spec fn has_room(self, level: Level) -> bool {
        match level {
            Level::Major => self.major < usize::MAX,
            Level::Minor => self.minor < usize::MAX,
            Level::Patch => self.patch < usize::MAX,
            _ => true,
        }
    }
}

/// What a tag says, read under a prefix.
///
/// The tag starts with the prefix. What follows is split at each `.`, and
/// the parts are read from the left: the first three are numerals, a fourth
/// part is one too many, and fewer than three are too few. Where the third
/// part holds a `-`, what stands before the `-` is the patch numeral and
/// what follows it, to the end of the tag, is the pre-release: a suffix that
/// is not empty, a `.`, and the numeral of the build. Any other text after
/// the `-` is no pre-release.
pub open spec fn parse_spec(tag: Seq<char>, prefix: Seq<char>) -> Result<SemanticView, ErrorView> {
    if !prefix.is_prefix_of(tag) {
        Err(ErrorView::NotVersionTag(prefix, tag))
    } else {
        let rest = tag.skip(prefix.len() as int);
        read_parts(prefix, rest, split(rest, '.'))
    }
}

/// What the parts of a tag after its prefix say: `rest` is the tag after the
/// prefix, `parts` what is between its `.`s.
pub open spec fn read_parts(prefix: Seq<char>, rest: Seq<char>, parts: Seq<Seq<char>>) -> Result<
    SemanticView,
    ErrorView,
> {
    if number_of(parts[0]) is None {
        Err(ErrorView::MustBeNumber(parts[0]))
    } else if parts.len() < 2 {
        Err(ErrorView::TooFewComponents(1))
    } else if number_of(parts[1]) is None {
        Err(ErrorView::MustBeNumber(parts[1]))
    } else if parts.len() < 3 {
        Err(ErrorView::TooFewComponents(2))
    } else if occurs(parts[2], '-') {
        read_pre_release(prefix, rest, parts)
    } else if number_of(parts[2]) is None {
        Err(ErrorView::MustBeNumber(parts[2]))
    } else if parts.len() > 3 {
        Err(ErrorView::TooManyComponents(4))
    } else {
        Ok(
            SemanticView {
                prefix,
                major: number_of(parts[0])->0 as nat,
                minor: number_of(parts[1])->0 as nat,
                patch: number_of(parts[2])->0 as nat,
                pre_release: None,
            },
        )
    }
}

/// What the parts say from the third on, where that one holds a `-`.
pub open spec fn read_pre_release(prefix: Seq<char>, rest: Seq<char>, parts: Seq<Seq<char>>) -> Result<
    SemanticView,
    ErrorView,
> {
    let dash = position(parts[2], '-');
    let lead = parts[2].take(dash);
    let suffix = parts[2].skip(dash + 1);
    let after = rest.skip(parts[0].len() + parts[1].len() + dash + 3);
    if number_of(lead) is None {
        Err(ErrorView::MustBeNumber(lead))
    } else if suffix.len() == 0 || parts.len() != 4 || number_of(parts[3]) is None {
        Err(ErrorView::InvalidPreReleaseFormat(after))
    } else {
        Ok(
            SemanticView {
                prefix,
                major: number_of(parts[0])->0 as nat,
                minor: number_of(parts[1])->0 as nat,
                patch: number_of(lead)->0 as nat,
                pre_release: Some(PreReleaseView { suffix, id: number_of(parts[3])->0 as nat }),
            },
        )
    }
}

/// Reads the characters of the tag from `from` up to `to` as a number; `t`
/// holds the characters of `tag`.
fn read_number(tag: &str, t: &Vec<char>, from: usize, to: usize) -> (result: Result<usize, Error>)
    requires
        t@ == tag@,
        from <= to <= t.len(),
    ensures
        match result {
            Ok(n) => number_of(t@.subrange(from as int, to as int)) == Some(n),
            Err(error) => number_of(t@.subrange(from as int, to as int)) is None && error@
                == ErrorView::MustBeNumber(t@.subrange(from as int, to as int)),
        },
{
    match parse_number(t, from, to) {
        Some(n) => Ok(n),
        None => Err(Error::MustBeNumber(piece(tag, from, to))),
    }
}

/// The characters of `tag` from `from` up to `to`, as a string.
fn piece(tag: &str, from: usize, to: usize) -> (s: String)
    requires
        from <= to <= tag@.len(),
    ensures
        s@ == tag@.subrange(from as int, to as int),
{
    String::from_str(tag.substring_char(from, to))
}

/// The pre-release of a semantic version: a suffix such as `alpha` or `rc`,
/// and the number of the build, counted from 0.
#[derive(Debug)]
pub struct SemanticPreRelease {
    suffix: String,
    id: usize,
}

impl View for SemanticPreRelease {
    type V = PreReleaseView;

    closed spec fn view(&self) -> PreReleaseView {
        PreReleaseView { suffix: self.suffix@, id: self.id as nat }
    }
}

impl Clone for SemanticPreRelease {
    fn clone(&self) -> (copy: Self)
        ensures
            copy == *self,
    {
        SemanticPreRelease { suffix: self.suffix.clone(), id: self.id }
    }
}

impl PartialEq for SemanticPreRelease {
    fn eq(&self, other: &Self) -> (equal: bool) {
        self.suffix == other.suffix && self.id == other.id
    }
}

impl PartialEqSpecImpl for SemanticPreRelease {
    open spec fn obeys_eq_spec() -> bool {
        true
    }

    open spec fn eq_spec(&self, other: &Self) -> bool {
        self@ == other@
    }
}

impl Eq for SemanticPreRelease {

}

impl SemanticPreRelease {
    /// The suffix of the pre-release.
    pub fn suffix(&self) -> (suffix: &str)
        ensures
            suffix@ == self@.suffix,
    {
        self.suffix.as_str()
    }

    /// The number of the build.
    pub fn id(&self) -> (id: usize)
        ensures
            id == self@.id,
    {
        self.id
    }
}

/// The Semantic data structure represents a semantic version number.
#[derive(Debug)]
pub struct Semantic {
    version_prefix: String,
    major: usize,
    minor: usize,
    patch: usize,
    pre_release: Option<SemanticPreRelease>,
}

impl View for Semantic {
    type V = SemanticView;

    closed spec fn view(&self) -> SemanticView {
        SemanticView {
            prefix: self.version_prefix@,
            major: self.major as nat,
            minor: self.minor as nat,
            patch: self.patch as nat,
            pre_release: match self.pre_release {
                Some(pre) => Some(pre@),
                None => None,
            },
        }
    }
}

impl Clone for Semantic {
    fn clone(&self) -> (copy: Self)
        ensures
            copy == *self,
    {
        Semantic {
            version_prefix: self.version_prefix.clone(),
            major: self.major,
            minor: self.minor,
            patch: self.patch,
            pre_release: match &self.pre_release {
                Some(pre) => Some(pre.clone()),
                None => None,
            },
        }
    }
}

impl PartialEq for Semantic {
    fn eq(&self, other: &Self) -> (equal: bool) {
        let same_pre_release = match (&self.pre_release, &other.pre_release) {
            (Some(mine), Some(theirs)) => mine == theirs,
            (None, None) => true,
            _ => false,
        };
        self.version_prefix == other.version_prefix && self.major == other.major && self.minor
            == other.minor && self.patch == other.patch && same_pre_release
    }
}

impl PartialEqSpecImpl for Semantic {
    open spec fn obeys_eq_spec() -> bool {
        true
    }

    open spec fn eq_spec(&self, other: &Self) -> bool {
        self@ == other@
    }
}

impl Eq for Semantic {

}

impl Default for Semantic {
    fn default() -> (version: Self)
        ensures
            version@ == (SemanticView {
                prefix: Seq::empty(),
                major: 0,
                minor: 0,
                patch: 0,
                pre_release: None,
            }),
    {
        Semantic { version_prefix: String::new(), major: 0, minor: 0, patch: 0, pre_release: None }
    }
}

impl Semantic {
    /// A version with the three numbers, under the prefix.
    pub fn new(version_prefix: String, major: usize, minor: usize, patch: usize) -> (version: Self)
        ensures
            version@ == (SemanticView {
                prefix: version_prefix@,
                major: major as nat,
                minor: minor as nat,
                patch: patch as nat,
                pre_release: None,
            }),
    {
        Semantic { version_prefix, major, minor, patch, pre_release: None }
    }

    /// Parse a tag and return a struct. The tag is the version prefix and
    /// then `x.y.z`, or `x.y.z-suffix.n` for a pre-release.
    pub fn parse(tag: &str, version_prefix: &str) -> (result: Result<Self, Error>)
        ensures
            match result {
                Ok(version) => parse_spec(tag@, version_prefix@) == Ok::<SemanticView, ErrorView>(
                    version@,
                ),
                Err(error) => parse_spec(tag@, version_prefix@) == Err::<SemanticView, ErrorView>(
                    error@,
                ),
            },
            result matches Ok(version) ==> version@.wf() && version@.prefix == version_prefix@,
    {
        let t = chars_of(tag);
        let p = chars_of(version_prefix);
        if !starts_with(&t, &p) {
            return Err(Error::NotVersionTag(String::from_str(version_prefix), String::from_str(tag)));
        }
        let cuts = split_from(&t, p.len(), '.');
        let result = Semantic::from_parts(tag, version_prefix, &t, &cuts);
        proof {
            if result is Ok {
                let rest = tag@.skip(version_prefix@.len() as int);
                let third = split(rest, '.')[2];
                lemma_position(third, '-');
                lemma_split_parts(rest, '.', 2);
                if occurs(third, '-') {
                    lemma_skip_holds_no(third, '.', position(third, '-') + 1);
                }
            }
        }
        result
    }

    /// Reads the parts of a tag, given by their bounds in the tag.
    fn from_parts(tag: &str, version_prefix: &str, t: &Vec<char>, cuts: &Vec<(usize, usize)>) -> (result:
        Result<Self, Error>)
        requires
            t@ == tag@,
            version_prefix@.len() <= t@.len(),
            marks(
                t@,
                version_prefix@.len() as int,
                cuts@,
                split(t@.skip(version_prefix@.len() as int), '.'),
            ),
        ensures
            match result {
                Ok(version) => read_parts(
                    version_prefix@,
                    t@.skip(version_prefix@.len() as int),
                    split(t@.skip(version_prefix@.len() as int), '.'),
                ) == Ok::<SemanticView, ErrorView>(version@),
                Err(error) => read_parts(
                    version_prefix@,
                    t@.skip(version_prefix@.len() as int),
                    split(t@.skip(version_prefix@.len() as int), '.'),
                ) == Err::<SemanticView, ErrorView>(error@),
            },
    {
        let ghost from = version_prefix@.len() as int;
        let ghost rest = t@.skip(from);
        let ghost parts = split(rest, '.');
        let count: usize = cuts.len();
        proof {
            lemma_marks_len(t@, from, cuts@, parts);
            lemma_mark(t@, from, cuts@, parts, 0);
        }
        let first = cuts[0];
        let major = match read_number(tag, t, first.0, first.1) {
            Ok(n) => n,
            Err(error) => {
                return Err(error);
            },
        };
        if count < 2 {
            return Err(Error::TooFewComponents(1));
        }
        proof {
            lemma_mark(t@, from, cuts@, parts, 1);
        }
        let second = cuts[1];
        let minor = match read_number(tag, t, second.0, second.1) {
            Ok(n) => n,
            Err(error) => {
                return Err(error);
            },
        };
        if count < 3 {
            return Err(Error::TooFewComponents(2));
        }
        proof {
            lemma_mark(t@, from, cuts@, parts, 2);
        }
        let third = cuts[2];
        let dash = find_in(t, third.0, third.1, '-');
        if dash < third.1 {
            let fourth = if count >= 4 {
                cuts[3]
            } else {
                third
            };
            proof {
                if count >= 4 {
                    lemma_mark(t@, from, cuts@, parts, 3);
                }
                let at = dash - third.0;
                assert(at == position(parts[2], '-'));
                assert(t@.subrange(third.0 as int, dash as int) =~= parts[2].take(at));
                assert(t@.subrange(dash + 1, third.1 as int) =~= parts[2].skip(at + 1));
                assert(t@.subrange(dash + 1, t@.len() as int) =~= rest.skip(
                    parts[0].len() + parts[1].len() + at + 3,
                ));
            }
            Semantic::from_pre_release(tag, version_prefix, t, major, minor, third, dash, fourth, count)
        } else {
            let patch = match read_number(tag, t, third.0, third.1) {
                Ok(n) => n,
                Err(error) => {
                    return Err(error);
                },
            };
            if count > 3 {
                return Err(Error::TooManyComponents(4));
            }
            Ok(Semantic::new(String::from_str(version_prefix), major, minor, patch))
        }
    }

    /// Reads the patch number and the pre-release of a tag: `third` bounds
    /// the third part, `dash` is where the `-` stands in it, `count` is the
    /// number of parts, and `fourth` bounds the fourth part where there are
    /// four.
    fn from_pre_release(
        tag: &str,
        version_prefix: &str,
        t: &Vec<char>,
        major: usize,
        minor: usize,
        third: (usize, usize),
        dash: usize,
        fourth: (usize, usize),
        count: usize,
    ) -> (result: Result<Self, Error>)
        requires
            t@ == tag@,
            third.0 <= dash < third.1 <= t.len(),
            count == 4 ==> third.1 < fourth.0 <= fourth.1 <= t.len(),
        ensures
            match result {
                Ok(version) => version@ == (SemanticView {
                    prefix: version_prefix@,
                    major: major as nat,
                    minor: minor as nat,
                    patch: number_of(t@.subrange(third.0 as int, dash as int))->0 as nat,
                    pre_release: Some(
                        PreReleaseView {
                            suffix: t@.subrange(dash + 1, third.1 as int),
                            id: number_of(t@.subrange(fourth.0 as int, fourth.1 as int))->0 as nat,
                        },
                    ),
                }) && number_of(t@.subrange(third.0 as int, dash as int)) is Some && dash + 1
                    < third.1 && count == 4 && number_of(
                    t@.subrange(fourth.0 as int, fourth.1 as int),
                ) is Some,
                Err(error) => if number_of(t@.subrange(third.0 as int, dash as int)) is None {
                    error@ == ErrorView::MustBeNumber(t@.subrange(third.0 as int, dash as int))
                } else {
                    error@ == ErrorView::InvalidPreReleaseFormat(
                        t@.subrange(dash + 1, t@.len() as int),
                    ) && (dash + 1 == third.1 || count != 4 || number_of(
                        t@.subrange(fourth.0 as int, fourth.1 as int),
                    ) is None)
                },
            },
    {
        let patch = match read_number(tag, t, third.0, dash) {
            Ok(n) => n,
            Err(error) => {
                return Err(error);
            },
        };
        let id = if dash + 1 < third.1 && count == 4 {
            parse_number(t, fourth.0, fourth.1)
        } else {
            None
        };
        match id {
            Some(id) => {
                let pre = SemanticPreRelease { suffix: piece(tag, dash + 1, third.1), id };
                Ok(
                    Semantic {
                        version_prefix: String::from_str(version_prefix),
                        major,
                        minor,
                        patch,
                        pre_release: Some(pre),
                    },
                )
            },
            None => Err(Error::InvalidPreReleaseFormat(piece(tag, dash + 1, t.len()))),
        }
    }

    /// Increment the version based on a breaking change: when the major
    /// number is 0 increment the minor number, else increment the major
    /// number.
    pub fn breaking_increment(&mut self) -> (next: &mut Self)
        requires
            old(self)@.major == 0 ==> old(self)@.minor < usize::MAX,
            old(self)@.major != 0 ==> old(self)@.major < usize::MAX,
        ensures
            next@ == old(self)@.bump_breaking(),
            old(self)@.wf() ==> next@.wf(),
            *final(self) == *final(next),
    {
        if self.major == 0 {
            self.minor = self.minor + 1;
            self.patch = 0;
        } else {
            self.major = self.major + 1;
            self.minor = 0;
            self.patch = 0;
        }
        self
    }

    /// Increment the patch component of the version number by 1.
    pub fn increment_patch(&mut self) -> (next: &mut Self)
        requires
            old(self)@.patch < usize::MAX,
        ensures
            next@ == old(self)@.bump_patch(),
            old(self)@.wf() ==> next@.wf(),
            *final(self) == *final(next),
    {
        self.patch = self.patch + 1;
        self
    }

    /// Increment the minor component of the version number by 1, and set the
    /// patch component to 0.
    pub fn increment_minor(&mut self) -> (next: &mut Self)
        requires
            old(self)@.minor < usize::MAX,
        ensures
            next@ == old(self)@.bump_minor(),
            old(self)@.wf() ==> next@.wf(),
            *final(self) == *final(next),
    {
        self.minor = self.minor + 1;
        self.patch = 0;
        self
    }

    /// Increment the major component of the version number by 1, and set the
    /// minor and patch components to 0.
    pub fn increment_major(&mut self) -> (next: &mut Self)
        requires
            old(self)@.major < usize::MAX,
        ensures
            next@ == old(self)@.bump_major(),
            old(self)@.wf() ==> next@.wf(),
            *final(self) == *final(next),
    {
        self.major = self.major + 1;
        self.minor = 0;
        self.patch = 0;
        self
    }

    /// Set the first production release version, `1.0.0`. It can be made
    /// once: with a major number above 0 the version stays as it is.
    pub fn first_production(&mut self) -> (result: Result<&mut Self, Error>)
        ensures
            old(self)@.major == 0 ==> result is Ok,
            old(self)@.major != 0 ==> result is Err,
            match result {
                Ok(next) => next@ == old(self)@.production() && *final(self) == *final(next),
                Err(error) => error@ == ErrorView::MajorAlreadyUsed(numeral(old(self)@.major))
                    && *final(self) == *old(self),
            },
    {
        if 0 < self.major {
            return Err(Error::MajorAlreadyUsed(number_text(self.major)));
        } else {
            self.major = 1;
            self.minor = 0;
            self.patch = 0;
            self.pre_release = None;
        }
        Ok(self)
    }

    /// The number that a change at the level increases can be increased.
    pub fn has_room(&self, level: &Level) -> (room: bool)
        ensures
            room == self@.has_room(*level),
    {
        match level {
            Level::Major => self.major < usize::MAX,
            Level::Minor => self.minor < usize::MAX,
            Level::Patch => self.patch < usize::MAX,
            _ => true,
        }
    }

    /// Report the major version number.
    pub fn major(&self) -> (major: usize)
        ensures
            major == self@.major,
    {
        self.major
    }

    /// Report the minor version number.
    pub fn minor(&self) -> (minor: usize)
        ensures
            minor == self@.minor,
    {
        self.minor
    }

    /// Report the patch version number.
    pub fn patch(&self) -> (patch: usize)
        ensures
            patch == self@.patch,
    {
        self.patch
    }

    /// Report the pre-release of the version, where it has one.
    pub fn pre_release(&self) -> (pre: Option<&SemanticPreRelease>)
        ensures
            match pre {
                Some(p) => self@.pre_release == Some(p@),
                None => self@.pre_release is None,
            },
    {
        self.pre_release.as_ref()
    }

    /// A text can be the suffix of a pre-release: it is not empty and holds
    /// no `.`.
    pub fn can_be_suffix(text: &str) -> (can: bool)
        ensures
            can == is_suffix(text@),
    {
        let t = chars_of(text);
        assert(t@.subrange(0, t@.len() as int) =~= text@);
        t.len() > 0 && find_in(&t, 0, t.len(), '.') == t.len()
    }

    /// Make the version the first pre-release with the suffix.
    pub fn first_pre_release(&mut self, suffix: &str) -> (next: &mut Self)
        requires
            is_suffix(suffix@),
        ensures
            next@ == old(self)@.with_pre_release(suffix@),
            next@.wf(),
            *final(self) == *final(next),
    {
        self.pre_release = Some(SemanticPreRelease { suffix: String::from_str(suffix), id: 0 });
        self
    }

    /// Count the build of the pre-release up by 1.
    pub fn increment_pre_release(&mut self) -> (next: &mut Self)
        requires
            old(self)@.pre_release matches Some(pre) && pre.id < usize::MAX,
        ensures
            next@ == old(self)@.next_pre_release(),
            old(self)@.wf() ==> next@.wf(),
            *final(self) == *final(next),
    {
        match &mut self.pre_release {
            Some(pre) => {
                pre.id = pre.id + 1;
            },
            None => {},
        }
        self
    }

    /// Take the pre-release away: the version is then the release itself.
    pub fn unset_pre_release(&mut self) -> (next: &mut Self)
        ensures
            next@ == old(self)@.released(),
            old(self)@.wf() ==> next@.wf(),
            *final(self) == *final(next),
    {
        self.pre_release = None;
        self
    }

    /// The version as it is written in a tag.
    pub fn to_string(&self) -> (s: String)
        ensures
            s@ == self@.text(),
            self@.wf() ==> parse_spec(s@, self@.prefix) == Ok::<SemanticView, ErrorView>(self@),
    {
        proof {
            reveal_strlit(".");
            reveal_strlit("-");
            if self@.wf() {
                crate::tag_text::lemma_text_then_parse(self@);
            }
        }
        let mut s = self.version_prefix.clone();
        push_number(&mut s, self.major);
        s.append(".");
        push_number(&mut s, self.minor);
        s.append(".");
        push_number(&mut s, self.patch);
        match &self.pre_release {
            Some(pre) => {
                s.append("-");
                s.append(pre.suffix.as_str());
                s.append(".");
                push_number(&mut s, pre.id);
            },
            None => {},
        }
        assert(s@ =~= self@.text());
        s
    }
}

} // verus!
