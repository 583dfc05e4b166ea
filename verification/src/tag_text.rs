//! Writing a version and parsing a tag undo each other.
use vstd::prelude::*;
use crate::decimal::{
    all_digits, is_digit, is_numeral, lemma_numeral_value, lemma_value_numeral, number_of, numeral,
    value,
};
use crate::error::ErrorView;
use crate::semantic::{parse_spec, read_parts, read_pre_release, SemanticView};
use crate::text::{
    join, lemma_join_split, lemma_position, lemma_position_is, lemma_split_cons, lemma_split_len,
    lemma_skip_holds_no, lemma_split_one, lemma_split_parts, occurs, position, split,
};

verus! {

/// A text of digits holds no character that is not a digit.
pub proof fn lemma_digits_hold_no(s: Seq<char>, c: char)
    requires
        all_digits(s),
        !is_digit(c),
    ensures
        !occurs(s, c),
        position(s, c) == s.len(),
{
    lemma_position_is(s, c, s.len() as int);
}

/// A text read as a number is the numeral of that number.
pub proof fn lemma_number_numeral(s: Seq<char>)
    requires
        number_of(s) is Some,
    ensures
        numeral(number_of(s)->0 as nat) == s,
{
    lemma_value_numeral(s);
}

/// The numeral of a number that a `usize` holds is read as that number.
pub proof fn lemma_numeral_number(n: nat)
    requires
        n <= usize::MAX,
    ensures
        number_of(numeral(n)) == Some(n as usize),
        all_digits(numeral(n)),
{
    lemma_numeral_value(n);
}

/// Three parts joined.
pub proof fn lemma_join_three(parts: Seq<Seq<char>>, c: char)
    requires
        parts.len() == 3,
    ensures
        join(parts, c) == parts[0] + seq![c] + parts[1] + seq![c] + parts[2],
{
    let tail = parts.drop_first();
    let last = tail.drop_first();
    assert(join(last, c) == parts[2]);
    assert(join(tail, c) == parts[1] + seq![c] + join(last, c));
    assert(join(parts, c) =~= parts[0] + seq![c] + parts[1] + seq![c] + parts[2]);
}

/// Four parts joined.
pub proof fn lemma_join_four(parts: Seq<Seq<char>>, c: char)
    requires
        parts.len() == 4,
    ensures
        join(parts, c) == parts[0] + seq![c] + parts[1] + seq![c] + parts[2] + seq![c] + parts[3],
{
    let tail = parts.drop_first();
    lemma_join_three(tail, c);
    assert(join(parts, c) =~= parts[0] + seq![c] + parts[1] + seq![c] + parts[2] + seq![c]
        + parts[3]);
}

/// Round trip from a tag: a tag that `parse` accepts under a prefix is
/// written back, character for character, by the version it was parsed to.
pub proof fn lemma_parse_then_text(tag: Seq<char>, prefix: Seq<char>)
    requires
        parse_spec(tag, prefix) is Ok,
    ensures
        parse_spec(tag, prefix)->Ok_0.text() == tag,
        parse_spec(tag, prefix)->Ok_0.prefix == prefix,
        parse_spec(tag, prefix)->Ok_0.wf(),
{
    let version = parse_spec(tag, prefix)->Ok_0;
    let rest = tag.skip(prefix.len() as int);
    let parts = split(rest, '.');
    assert(tag =~= prefix + rest);
    lemma_join_split(rest, '.');
    lemma_split_len(rest, '.');
    assert(read_parts(prefix, rest, parts) is Ok);
    lemma_number_numeral(parts[0]);
    lemma_number_numeral(parts[1]);
    if parts.len() >= 4 && occurs(parts[2], '-') {
        assert(read_pre_release(prefix, rest, parts) is Ok);
        let dash = position(parts[2], '-');
        let lead = parts[2].take(dash);
        let suffix = parts[2].skip(dash + 1);
        lemma_position(parts[2], '-');
        lemma_number_numeral(lead);
        lemma_number_numeral(parts[3]);
        lemma_join_four(parts, '.');
        lemma_split_parts(rest, '.', 2);
        lemma_skip_holds_no(parts[2], '.', dash + 1);
        assert(parts[2] =~= lead + seq!['-'] + suffix);
        assert(version.text() =~= tag);
    } else {
        lemma_number_numeral(parts[2]);
        lemma_join_three(parts, '.');
        assert(version.text() =~= tag);
    }
}

/// Three texts without a `.`, written with a `.` between them, split into
/// the three.
pub proof fn lemma_split_three(a: Seq<char>, b: Seq<char>, c: Seq<char>)
    requires
        !occurs(a, '.'),
        !occurs(b, '.'),
        !occurs(c, '.'),
    ensures
        split(a + seq!['.'] + b + seq!['.'] + c, '.') == seq![a, b, c],
{
    let dot = seq!['.'];
    let tail = b + dot + c;
    assert(a + dot + b + dot + c =~= a + dot + tail);
    lemma_split_cons(a, tail, '.');
    lemma_split_cons(b, c, '.');
    lemma_split_one(c, '.');
    assert(seq![a] + (seq![b] + seq![c]) =~= seq![a, b, c]);
}

/// Four texts without a `.`, written with a `.` between them, split into
/// the four.
pub proof fn lemma_split_four(a: Seq<char>, b: Seq<char>, c: Seq<char>, d: Seq<char>)
    requires
        !occurs(a, '.'),
        !occurs(b, '.'),
        !occurs(c, '.'),
        !occurs(d, '.'),
    ensures
        split(a + seq!['.'] + b + seq!['.'] + c + seq!['.'] + d, '.') == seq![a, b, c, d],
{
    let dot = seq!['.'];
    let tail = b + dot + c + dot + d;
    assert(a + dot + b + dot + c + dot + d =~= a + dot + tail);
    lemma_split_cons(a, tail, '.');
    lemma_split_three(b, c, d);
    assert(seq![a] + seq![b, c, d] =~= seq![a, b, c, d]);
}

/// A numeral, a `-` and a suffix without a `.`: the text holds no `.`, its
/// first `-` stands right after the numeral, and the suffix follows it.
pub proof fn lemma_patch_and_suffix(patch: Seq<char>, suffix: Seq<char>)
    requires
        all_digits(patch),
        !occurs(suffix, '.'),
    ensures
        !occurs(patch + seq!['-'] + suffix, '.'),
        occurs(patch + seq!['-'] + suffix, '-'),
        position(patch + seq!['-'] + suffix, '-') == patch.len(),
        (patch + seq!['-'] + suffix).take(patch.len() as int) == patch,
        (patch + seq!['-'] + suffix).skip(patch.len() as int + 1) == suffix,
{
    let third = patch + seq!['-'] + suffix;
    lemma_position(suffix, '.');
    assert forall|i: int| 0 <= i < third.len() implies third[i] != '.' by {
        if i < patch.len() {
            assert(third[i] == patch[i]);
            assert(is_digit(patch[i]));
        } else if i > patch.len() {
            assert(third[i] == suffix[i - patch.len() - 1]);
        }
    }
    lemma_position_is(third, '.', third.len() as int);
    assert forall|i: int| 0 <= i < patch.len() implies third[i] != '-' by {
        assert(third[i] == patch[i]);
        assert(is_digit(patch[i]));
    }
    assert(third[patch.len() as int] == '-');
    lemma_position_is(third, '-', patch.len() as int);
    assert(third.take(patch.len() as int) =~= patch);
    assert(third.skip(patch.len() as int + 1) =~= suffix);
}

/// What follows the prefix in the text of a version.
pub open spec fn text_after_prefix(version: SemanticView) -> Seq<char> {
    let release = numeral(version.major) + seq!['.'] + numeral(version.minor) + seq!['.'] + numeral(
        version.patch,
    );
    match version.pre_release {
        Some(pre) => release + seq!['-'] + pre.suffix + seq!['.'] + numeral(pre.id),
        None => release,
    }
}

/// The text of a version is its prefix and then the rest.
pub proof fn lemma_text_parts(version: SemanticView)
    ensures
        version.prefix.is_prefix_of(version.text()),
        version.text().skip(version.prefix.len() as int) == text_after_prefix(version),
{
    let tag = version.text();
    assert(tag =~= version.prefix + text_after_prefix(version));
    assert(tag.subrange(0, version.prefix.len() as int) =~= version.prefix);
    assert(tag.skip(version.prefix.len() as int) =~= text_after_prefix(version));
}

/// A version that can be written and parsed again: it is well formed, and
/// its numbers are such as a `usize` holds.
pub open spec fn is_taggable(version: SemanticView) -> bool {
    &&& version.wf()
    &&& version.major <= usize::MAX
    &&& version.minor <= usize::MAX
    &&& version.patch <= usize::MAX
    &&& version.pre_release matches Some(pre) ==> pre.id <= usize::MAX
}

/// The parts of a release, read: the version without a pre-release.
proof fn lemma_read_release(version: SemanticView)
    requires
        is_taggable(version),
        version.pre_release is None,
    ensures
        read_parts(
            version.prefix,
            text_after_prefix(version),
            split(text_after_prefix(version), '.'),
        ) == Ok::<SemanticView, ErrorView>(version),
{
    let major = numeral(version.major);
    let minor = numeral(version.minor);
    let patch = numeral(version.patch);
    lemma_numeral_number(version.major);
    lemma_numeral_number(version.minor);
    lemma_numeral_number(version.patch);
    lemma_digits_hold_no(major, '.');
    lemma_digits_hold_no(minor, '.');
    lemma_digits_hold_no(patch, '.');
    lemma_digits_hold_no(patch, '-');
    lemma_split_three(major, minor, patch);
    let parts = split(text_after_prefix(version), '.');
    assert(parts == seq![major, minor, patch]);
    assert(parts[0] == major && parts[1] == minor && parts[2] == patch && parts.len() == 3);
}

/// The parts of a pre-release, read: the version with its pre-release.
proof fn lemma_read_pre_release(version: SemanticView)
    requires
        is_taggable(version),
        version.pre_release is Some,
    ensures
        read_parts(
            version.prefix,
            text_after_prefix(version),
            split(text_after_prefix(version), '.'),
        ) == Ok::<SemanticView, ErrorView>(version),
{
    let pre = version.pre_release->0;
    let major = numeral(version.major);
    let minor = numeral(version.minor);
    let patch = numeral(version.patch);
    let id = numeral(pre.id);
    let third = patch + seq!['-'] + pre.suffix;
    let rest = text_after_prefix(version);
    lemma_numeral_number(version.major);
    lemma_numeral_number(version.minor);
    lemma_numeral_number(version.patch);
    lemma_numeral_number(pre.id);
    lemma_digits_hold_no(major, '.');
    lemma_digits_hold_no(minor, '.');
    lemma_digits_hold_no(id, '.');
    lemma_patch_and_suffix(patch, pre.suffix);
    lemma_split_four(major, minor, third, id);
    assert(rest =~= major + seq!['.'] + minor + seq!['.'] + third + seq!['.'] + id);
    let parts = split(rest, '.');
    assert(parts == seq![major, minor, third, id]);
    assert(parts[0] == major && parts[1] == minor && parts[2] == third && parts[3] == id
        && parts.len() == 4);
    assert(rest.skip(major.len() as int + minor.len() + patch.len() + 3) =~= pre.suffix + seq![
        '.',
    ] + id);
    assert(read_pre_release(version.prefix, rest, parts) == Ok::<SemanticView, ErrorView>(version));
}

/// Round trip from a version: the text of a version, parsed under the
/// version's prefix, is the version again.
pub proof fn lemma_text_then_parse(version: SemanticView)
    requires
        is_taggable(version),
    ensures
        parse_spec(version.text(), version.prefix) == Ok::<SemanticView, ErrorView>(version),
{
    lemma_text_parts(version);
    if version.pre_release is Some {
        lemma_read_pre_release(version);
    } else {
        lemma_read_release(version);
    }
}

} // verus!
