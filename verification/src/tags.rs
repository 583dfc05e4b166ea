//! The latest version among the tags of a repository.
use vstd::prelude::*;
use vstd::string::*;
use crate::error::{texts, Error, ErrorView};
use crate::ordering::{is_before, lemma_version_order, lemma_version_transitive, version_before};
use crate::semantic::{parse_spec, Semantic, SemanticView};
use crate::text::{chars_of, starts_with};

verus! {

/// The tag that a reference names: what follows `refs/tags/`.
pub open spec fn tag_name(name: Seq<char>) -> Option<Seq<char>> {
    let lead = "refs/tags/"@;
    if lead.is_prefix_of(name) {
        Some(name.skip(lead.len() as int))
    } else {
        None
    }
}

/// The version that a reference names under the prefix, where it names a
/// tag and the tag is a version tag.
pub open spec fn tag_version(name: Seq<char>, prefix: Seq<char>) -> Option<SemanticView> {
    match tag_name(name) {
        Some(tag) => match parse_spec(tag, prefix) {
            Ok(version) => Some(version),
            Err(_) => None,
        },
        None => None,
    }
}

/// `version` is the latest of the versions that the names stand for: one of
/// them, and before none of them.
pub open spec fn is_latest(names: Seq<Seq<char>>, prefix: Seq<char>, version: SemanticView) -> bool {
    &&& exists|i: int| 0 <= i < names.len() && tag_version(#[trigger] names[i], prefix) == Some(version)
    &&& forall|j: int|
        0 <= j < names.len() ==> (tag_version(#[trigger] names[j], prefix) matches Some(other)
            ==> !version_before(version, other))
}

/// The latest of the versions that the names stand for, where any of them
/// stands for one.
pub open spec fn latest_version(names: Seq<Seq<char>>, prefix: Seq<char>) -> Option<SemanticView> {
    if exists|version: SemanticView| is_latest(names, prefix, version) {
        Some(choose|version: SemanticView| is_latest(names, prefix, version))
    } else {
        None
    }
}

/// Versions parsed under one prefix that are one but for the prefix are one.
pub proof fn lemma_latest_is_one(names: Seq<Seq<char>>, prefix: Seq<char>, a: SemanticView, b: SemanticView)
    requires
        is_latest(names, prefix, a),
        is_latest(names, prefix, b),
    ensures
        a == b,
{
    let i = choose|i: int| 0 <= i < names.len() && tag_version(#[trigger] names[i], prefix) == Some(a);
    let j = choose|j: int| 0 <= j < names.len() && tag_version(#[trigger] names[j], prefix) == Some(b);
    lemma_version_order(a, b);
    crate::tag_text::lemma_parse_then_text(tag_name(names[i])->0, prefix);
    crate::tag_text::lemma_parse_then_text(tag_name(names[j])->0, prefix);
}

/// The version that is held, as plain values.
pub open spec fn held_view(held: Option<Semantic>) -> Option<SemanticView> {
    match held {
        Some(version) => Some(version@),
        None => None,
    }
}

/// The tag that a reference names: what follows `refs/tags/`.
fn tag_of(name: &str) -> (tag: Option<&str>)
    ensures
        match tag {
            Some(text) => tag_name(name@) == Some(text@),
            None => tag_name(name@) is None,
        },
{
    proof {
        reveal_strlit("refs/tags/");
    }
    let whole = chars_of(name);
    let lead = chars_of("refs/tags/");
    if starts_with(&whole, &lead) {
        let tag = name.substring_char(lead.len(), whole.len());
        assert(tag@ =~= name@.skip(lead@.len() as int));
        Some(tag)
    } else {
        None
    }
}

/// The latest semantic version among the names of the references to tags:
/// each name is `refs/tags/` and a tag, and the tags that parse under the
/// version prefix are the versions to choose from.
pub fn latest(tag_names: &Vec<String>, version_prefix: &str) -> (result: Result<Semantic, Error>)
    ensures
        match result {
            Ok(version) => version@.wf() && is_latest(texts(tag_names@), version_prefix@, version@)
                && latest_version(
                texts(tag_names@),
                version_prefix@,
            ) == Some(version@),
            Err(error) => error@ == ErrorView::NoVersionTag && latest_version(
                texts(tag_names@),
                version_prefix@,
            ) is None && forall|j: int|
                0 <= j < tag_names@.len() ==> tag_version(
                    #[trigger] texts(tag_names@)[j],
                    version_prefix@,
                ) is None,
        },
{
    let ghost names = texts(tag_names@);
    let ghost prefix = version_prefix@;
    let mut best: Option<Semantic> = None;
    let mut i: usize = 0;
    while i < tag_names.len()
        invariant
            i <= tag_names.len(),
            names == texts(tag_names@),
            prefix == version_prefix@,
            match best {
                Some(version) => version@.wf() && is_latest(names.take(i as int), prefix, version@),
                None => forall|j: int| 0 <= j < i ==> tag_version(#[trigger] names[j], prefix) is None,
            },
        decreases tag_names.len() - i,
    {
        let ghost seen = names.take(i as int);
        let ghost more = names.take(i + 1);
        let ghost held = held_view(best);
        let candidate = match tag_of(tag_names[i].as_str()) {
            Some(tag) => match Semantic::parse(tag, version_prefix) {
                Ok(version) => Some(version),
                Err(_) => None,
            },
            None => None,
        };
        proof {
            assert(more[i as int] == names[i as int]);
            assert(forall|j: int| 0 <= j < i ==> seen[j] == more[j]);
        }
        match candidate {
            Some(version) => {
                let replace = match &best {
                    Some(current) => is_before(current, &version),
                    None => true,
                };
                proof {
                    lemma_version_order(version@, version@);
                    match held {
                        Some(current) => {
                            let k = choose|k: int|
                                0 <= k < seen.len() && tag_version(#[trigger] seen[k], prefix) == Some(
                                    current,
                                );
                            assert(more[k] == seen[k]);
                            if replace {
                                assert forall|j: int| 0 <= j < more.len() implies (tag_version(
                                    #[trigger] more[j],
                                    prefix,
                                ) matches Some(other) ==> !version_before(version@, other)) by {
                                    if j < i {
                                        assert(seen[j] == more[j]);
                                        match tag_version(more[j], prefix) {
                                            Some(other) => {
                                                if version_before(version@, other) {
                                                    lemma_version_transitive(
                                                        current,
                                                        version@,
                                                        other,
                                                    );
                                                }
                                            },
                                            None => {},
                                        }
                                    }
                                }
                                assert(is_latest(more, prefix, version@));
                            } else {
                                assert forall|j: int| 0 <= j < more.len() implies (tag_version(
                                    #[trigger] more[j],
                                    prefix,
                                ) matches Some(other) ==> !version_before(current, other)) by {
                                    if j < i {
                                        assert(seen[j] == more[j]);
                                    }
                                }
                                assert(is_latest(more, prefix, current));
                            }
                        },
                        None => {
                            assert forall|j: int| 0 <= j < more.len() implies (tag_version(
                                #[trigger] more[j],
                                prefix,
                            ) matches Some(other) ==> !version_before(version@, other)) by {
                                if j < i {
                                    assert(names[j] == more[j]);
                                }
                            }
                            assert(is_latest(more, prefix, version@));
                        },
                    }
                }
                if replace {
                    best = Some(version);
                }
            },
            None => {
                proof {
                    match held {
                        Some(current) => {
                            let k = choose|k: int|
                                0 <= k < seen.len() && tag_version(#[trigger] seen[k], prefix) == Some(
                                    current,
                                );
                            assert(more[k] == seen[k]);
                            assert forall|j: int| 0 <= j < more.len() implies (tag_version(
                                #[trigger] more[j],
                                prefix,
                            ) matches Some(other) ==> !version_before(current, other)) by {
                                if j < i {
                                    assert(seen[j] == more[j]);
                                }
                            }
                            assert(is_latest(more, prefix, current));
                        },
                        None => {},
                    }
                }
            },
        }
        i = i + 1;
    }
    proof {
        assert(names.take(i as int) =~= names);
    }
    match best {
        Some(version) => {
            proof {
                let chosen = choose|v: SemanticView| is_latest(names, prefix, v);
                lemma_latest_is_one(names, prefix, chosen, version@);
            }
            Ok(version)
        },
        None => {
            proof {
                assert forall|v: SemanticView| !is_latest(names, prefix, v) by {
                    if is_latest(names, prefix, v) {
                        let k = choose|k: int|
                            0 <= k < names.len() && tag_version(#[trigger] names[k], prefix) == Some(v);
                        assert(tag_version(names[k], prefix) is None);
                    }
                }
            }
            Err(Error::NoVersionTag)
        },
    }
}

} // verus!
