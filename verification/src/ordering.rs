//! The order of versions: by the three numbers, major first; a pre-release
//! comes before its release, and pre-releases of one release go by suffix and
//! then by build.
use core::cmp::Ordering;
use vstd::prelude::*;
use vstd::std_specs::cmp::PartialOrdSpecImpl;
use crate::semantic::{PreReleaseView, Semantic, SemanticView};
use crate::text::{
    is_text_before, lemma_text_order, lemma_text_same, lemma_text_transitive, text_before,
};

verus! {

/// The pre-release `a` comes before `b`: by suffix, then by build.
pub open spec fn pre_release_before(a: PreReleaseView, b: PreReleaseView) -> bool {
    text_before(a.suffix, b.suffix) || (a.suffix == b.suffix && a.id < b.id)
}

/// The version `a` comes before `b`. The prefix plays no part.
pub open spec fn version_before(a: SemanticView, b: SemanticView) -> bool {
    if a.major != b.major {
        a.major < b.major
    } else if a.minor != b.minor {
        a.minor < b.minor
    } else if a.patch != b.patch {
        a.patch < b.patch
    } else {
        match (a.pre_release, b.pre_release) {
            (Some(x), Some(y)) => pre_release_before(x, y),
            (Some(_), None) => true,
            _ => false,
        }
    }
}

/// Two versions are one but for their prefixes.
pub open spec fn same_version(a: SemanticView, b: SemanticView) -> bool {
    a.major == b.major && a.minor == b.minor && a.patch == b.patch && a.pre_release
        == b.pre_release
}

/// The order of versions is total: of two versions one comes before the
/// other, or they are one but for their prefixes; and never both ways.
pub proof fn lemma_version_order(a: SemanticView, b: SemanticView)
    ensures
        version_before(a, b) || version_before(b, a) || same_version(a, b),
        !(version_before(a, b) && version_before(b, a)),
        !version_before(a, a),
{
    match (a.pre_release, b.pre_release) {
        (Some(x), Some(y)) => {
            lemma_text_order(x.suffix, y.suffix);
        },
        _ => {},
    }
    match a.pre_release {
        Some(x) => {
            lemma_text_same(x.suffix);
        },
        None => {},
    }
}

/// The order of versions is transitive.
pub proof fn lemma_version_transitive(a: SemanticView, b: SemanticView, c: SemanticView)
    requires
        version_before(a, b),
        version_before(b, c),
    ensures
        version_before(a, c),
{
    match (a.pre_release, b.pre_release, c.pre_release) {
        (Some(x), Some(y), Some(z)) => {
            lemma_text_order(x.suffix, y.suffix);
            lemma_text_order(y.suffix, z.suffix);
            if text_before(x.suffix, y.suffix) && text_before(y.suffix, z.suffix) {
                lemma_text_transitive(x.suffix, y.suffix, z.suffix);
            }
        },
        _ => {},
    }
}

/// The version `a` comes before the version `b`.
pub fn is_before(a: &Semantic, b: &Semantic) -> (before: bool)
    ensures
        before == version_before(a@, b@),
{
    if a.major() != b.major() {
        a.major() < b.major()
    } else if a.minor() != b.minor() {
        a.minor() < b.minor()
    } else if a.patch() != b.patch() {
        a.patch() < b.patch()
    } else {
        match (a.pre_release(), b.pre_release()) {
            (Some(x), Some(y)) => {
                if is_text_before(x.suffix(), y.suffix()) {
                    true
                } else if is_text_before(y.suffix(), x.suffix()) {
                    proof {
                        lemma_text_order(x@.suffix, y@.suffix);
                    }
                    false
                } else {
                    proof {
                        lemma_text_order(x@.suffix, y@.suffix);
                    }
                    x.id() < y.id()
                }
            },
            (Some(_), None) => true,
            _ => false,
        }
    }
}

impl PartialOrd for Semantic {
    /// Versions are compared in the order of versions. Two versions with
    /// the same numbers and pre-release under different prefixes are not
    /// compared.
    fn partial_cmp(&self, other: &Self) -> (order: Option<Ordering>) {
        if is_before(self, other) {
            Some(Ordering::Less)
        } else if is_before(other, self) {
            Some(Ordering::Greater)
        } else if self == other {
            Some(Ordering::Equal)
        } else {
            None
        }
    }
}

impl PartialOrdSpecImpl for Semantic {
    open spec fn obeys_partial_cmp_spec() -> bool {
        true
    }

    open spec fn partial_cmp_spec(&self, other: &Self) -> Option<Ordering> {
        if version_before(self@, other@) {
            Some(Ordering::Less)
        } else if version_before(other@, self@) {
            Some(Ordering::Greater)
        } else if self@ == other@ {
            Some(Ordering::Equal)
        } else {
            None
        }
    }
}

} // verus!
