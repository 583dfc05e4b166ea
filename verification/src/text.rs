//! Texts as sequences of characters: where a character stands, the parts
//! between separators, and the order of the dictionary.
use vstd::prelude::*;
use vstd::string::*;
use crate::error::texts;

verus! {

/// Where `c` first stands in `s`; the length of `s` where it does not occur.
pub open spec fn position(s: Seq<char>, c: char) -> int
    decreases s.len(),
{
    if s.len() == 0 {
        0
    } else if s[0] == c {
        0
    } else {
        1 + position(s.drop_first(), c)
    }
}

/// `c` occurs in `s`.
pub open spec fn occurs(s: Seq<char>, c: char) -> bool {
    position(s, c) < s.len()
}

/// The parts of `s` between the occurrences of `c`: one more than there are
/// occurrences, some of them possibly empty.
pub open spec fn split(s: Seq<char>, c: char) -> Seq<Seq<char>>
    decreases s.len(),
{
    let i = position(s, c);
    if 0 <= i < s.len() {
        seq![s.take(i)] + split(s.skip(i + 1), c)
    } else {
        seq![s]
    }
}

/// The parts put together again, with `c` between each two.
pub open spec fn join(parts: Seq<Seq<char>>, c: char) -> Seq<char>
    decreases parts.len(),
{
    if parts.len() == 0 {
        Seq::empty()
    } else if parts.len() == 1 {
        parts[0]
    } else {
        parts[0] + seq![c] + join(parts.drop_first(), c)
    }
}

/// `position` is the least index that holds `c`.
pub proof fn lemma_position(s: Seq<char>, c: char)
    ensures
        0 <= position(s, c) <= s.len(),
        position(s, c) < s.len() ==> s[position(s, c)] == c,
        forall|i: int| 0 <= i < position(s, c) ==> s[i] != c,
    decreases s.len(),
{
    if s.len() > 0 && s[0] != c {
        let rest = s.drop_first();
        lemma_position(rest, c);
        assert forall|i: int| 0 <= i < position(s, c) implies s[i] != c by {
            if i > 0 {
                assert(rest[i - 1] == s[i]);
            }
        }
    }
}

/// An index that holds `c`, with none before it, is the position of `c`.
pub proof fn lemma_position_is(s: Seq<char>, c: char, at: int)
    requires
        0 <= at <= s.len(),
        at < s.len() ==> s[at] == c,
        forall|i: int| 0 <= i < at ==> s[i] != c,
    ensures
        position(s, c) == at,
{
    lemma_position(s, c);
    let p = position(s, c);
    if p < at {
        assert(s[p] == c);
    }
}

/// Splitting yields at least one part.
pub proof fn lemma_split_len(s: Seq<char>, c: char)
    ensures
        split(s, c).len() >= 1,
    decreases s.len(),
{
    lemma_position(s, c);
}

/// No part of a split holds the separator.
pub proof fn lemma_split_parts(s: Seq<char>, c: char, k: int)
    requires
        0 <= k < split(s, c).len(),
    ensures
        !occurs(split(s, c)[k], c),
    decreases s.len(),
{
    lemma_position(s, c);
    let i = position(s, c);
    if i < s.len() {
        if k == 0 {
            assert forall|j: int| 0 <= j < i implies s.take(i)[j] != c by {}
            lemma_position_is(s.take(i), c, i);
        } else {
            lemma_split_parts(s.skip(i + 1), c, k - 1);
        }
    }
}

/// What is left of a text without a character, with its beginning taken
/// away, is without it too.
pub proof fn lemma_skip_holds_no(s: Seq<char>, c: char, n: int)
    requires
        !occurs(s, c),
        0 <= n <= s.len(),
    ensures
        !occurs(s.skip(n), c),
{
    lemma_position(s, c);
    let rest = s.skip(n);
    assert forall|j: int| 0 <= j < rest.len() implies rest[j] != c by {
        assert(rest[j] == s[j + n]);
    }
    lemma_position_is(rest, c, rest.len() as int);
}

/// Joining the parts of a split gives the text back.
pub proof fn lemma_join_split(s: Seq<char>, c: char)
    ensures
        join(split(s, c), c) == s,
    decreases s.len(),
{
    lemma_position(s, c);
    let i = position(s, c);
    if i < s.len() {
        let rest = s.skip(i + 1);
        let parts = split(s, c);
        lemma_join_split(rest, c);
        lemma_split_len(rest, c);
        assert(parts.drop_first() =~= split(rest, c));
        assert(parts[0] == s.take(i));
        assert(s =~= s.take(i) + seq![c] + rest);
    }
}

/// Splitting `head`, the separator and `tail`, where `head` holds no
/// separator, gives `head` and then the parts of `tail`.
pub proof fn lemma_split_cons(head: Seq<char>, tail: Seq<char>, c: char)
    requires
        !occurs(head, c),
    ensures
        split(head + seq![c] + tail, c) == seq![head] + split(tail, c),
{
    let s = head + seq![c] + tail;
    lemma_position(head, c);
    assert forall|i: int| 0 <= i < head.len() implies s[i] != c by {
        assert(s[i] == head[i]);
    }
    assert(s[head.len() as int] == c);
    lemma_position_is(s, c, head.len() as int);
    assert(s.take(head.len() as int) =~= head);
    assert(s.skip(head.len() as int + 1) =~= tail);
}

/// A text without the separator is its own single part.
pub proof fn lemma_split_one(s: Seq<char>, c: char)
    requires
        !occurs(s, c),
    ensures
        split(s, c) == seq![s],
{
    lemma_position(s, c);
}

/// The characters of `s`.
pub fn chars_of(s: &str) -> (v: Vec<char>)
    ensures
        v@ == s@,
{
    let mut v: Vec<char> = Vec::new();
    for c in it: s.chars()
        invariant
            v@ == s@.take(it.index() as int),
            it.seq() == s@,
    {
        v.push(c);
    }
    v
}

/// `s` begins with `p`.
pub fn starts_with(s: &Vec<char>, p: &Vec<char>) -> (r: bool)
    ensures
        r == p@.is_prefix_of(s@),
{
    if p.len() > s.len() {
        return false;
    }
    let mut i: usize = 0;
    while i < p.len()
        invariant
            i <= p.len() <= s.len(),
            forall|j: int| 0 <= j < i ==> p@[j] == s@[j],
        decreases p.len() - i,
    {
        if p[i] != s[i] {
            assert(s@.subrange(0, p@.len() as int)[i as int] != p@[i as int]);
            return false;
        }
        i = i + 1;
    }
    assert(p@ =~= s@.subrange(0, p@.len() as int));
    true
}

/// Where `c` first stands in `s` between `from` and `to`; `to` where it does
/// not occur there.
pub fn find_in(s: &Vec<char>, from: usize, to: usize, c: char) -> (at: usize)
    requires
        from <= to <= s.len(),
    ensures
        from <= at <= to,
        at == from + position(s@.subrange(from as int, to as int), c),
{
    let ghost part = s@.subrange(from as int, to as int);
    let mut i: usize = from;
    while i < to
        invariant
            from <= i <= to <= s.len(),
            part == s@.subrange(from as int, to as int),
            forall|j: int| 0 <= j < i - from ==> part[j] != c,
        decreases to - i,
    {
        if s[i] == c {
            proof {
                lemma_position_is(part, c, i - from);
            }
            return i;
        }
        i = i + 1;
    }
    proof {
        lemma_position_is(part, c, to - from);
    }
    to
}

/// The bounds `cuts` mark, one after the other, the parts `parts` of `s`
/// from `from` on: each part between its two bounds, one separator between
/// a part and the next.
#[verifier::opaque]
pub open spec fn marks(s: Seq<char>, from: int, cuts: Seq<(usize, usize)>, parts: Seq<Seq<char>>) -> bool {
    &&& cuts.len() == parts.len()
    &&& cuts.len() >= 1
    &&& cuts[0].0 == from
    &&& cuts.last().1 == s.len()
    &&& forall|k: int|
        0 <= k < cuts.len() ==> from <= (#[trigger] cuts[k]).0 <= cuts[k].1 <= s.len()
            && s.subrange(cuts[k].0 as int, cuts[k].1 as int) == parts[k]
    &&& forall|k: int| 0 < k < cuts.len() ==> (#[trigger] cuts[k]).0 == cuts[k - 1].1 + 1
}

/// Bounds that mark parts are as many as the parts, and at least one.
pub proof fn lemma_marks_len(s: Seq<char>, from: int, cuts: Seq<(usize, usize)>, parts: Seq<Seq<char>>)
    requires
        marks(s, from, cuts, parts),
    ensures
        cuts.len() == parts.len(),
        cuts.len() >= 1,
{
    reveal(marks);
}

/// What `marks` says of the part `k`.
pub proof fn lemma_mark(s: Seq<char>, from: int, cuts: Seq<(usize, usize)>, parts: Seq<Seq<char>>, k: int)
    requires
        marks(s, from, cuts, parts),
        0 <= k < cuts.len(),
    ensures
        cuts.len() == parts.len(),
        from <= cuts[k].0 <= cuts[k].1 <= s.len(),
        s.subrange(cuts[k].0 as int, cuts[k].1 as int) == parts[k],
        k == 0 ==> cuts[k].0 == from,
        k > 0 ==> cuts[k].0 == cuts[k - 1].1 + 1,
        k == cuts.len() - 1 ==> cuts[k].1 == s.len(),
{
    reveal(marks);
}

/// The bounds of the parts of `s` from `from` on, split at each `c`.
pub fn split_from(s: &Vec<char>, from: usize, c: char) -> (cuts: Vec<(usize, usize)>)
    requires
        from <= s.len(),
    ensures
        marks(s@, from as int, cuts@, split(s@.skip(from as int), c)),
{
    let ghost whole = split(s@.skip(from as int), c);
    let ghost mut done: Seq<Seq<char>> = Seq::empty();
    let mut cuts: Vec<(usize, usize)> = Vec::new();
    let mut start: usize = from;
    let mut end: usize = find_in(s, start, s.len(), c);
    assert(s@.subrange(start as int, s@.len() as int) =~= s@.skip(start as int));
    while end < s.len()
        invariant
            from <= start <= end <= s.len(),
            end == start + position(s@.skip(start as int), c),
            whole == done + split(s@.skip(start as int), c),
            cuts@.len() == done.len(),
            cuts@.len() == 0 ==> start == from,
            cuts@.len() > 0 ==> cuts@[0].0 == from && start == cuts@.last().1 + 1,
            forall|k: int|
                0 <= k < cuts@.len() ==> from <= (#[trigger] cuts@[k]).0 <= cuts@[k].1 < s.len()
                    && s@.subrange(cuts@[k].0 as int, cuts@[k].1 as int) == done[k],
            forall|k: int| 0 < k < cuts@.len() ==> (#[trigger] cuts@[k]).0 == cuts@[k - 1].1 + 1,
        decreases s.len() - start,
    {
        proof {
            let t = s@.skip(start as int);
            let part = s@.subrange(start as int, end as int);
            assert(t.take(end - start) =~= part);
            assert(t.skip(end - start + 1) =~= s@.skip(end + 1));
            assert(done + (seq![part] + split(s@.skip(end + 1), c)) =~= done.push(part) + split(
                s@.skip(end + 1),
                c,
            ));
            done = done.push(part);
        }
        cuts.push((start, end));
        start = end + 1;
        end = find_in(s, start, s.len(), c);
        assert(s@.subrange(start as int, s@.len() as int) =~= s@.skip(start as int));
    }
    proof {
        let t = s@.skip(start as int);
        assert(s@.subrange(start as int, end as int) =~= t);
        assert(done + seq![t] =~= done.push(t));
        done = done.push(t);
    }
    cuts.push((start, end));
    proof {
        reveal(marks);
    }
    cuts
}

/// Two texts are the same.
pub fn same_text(a: &str, b: &str) -> (same: bool)
    ensures
        same == (a@ == b@),
{
    let x = chars_of(a);
    let y = chars_of(b);
    if x.len() != y.len() {
        return false;
    }
    let mut i: usize = 0;
    while i < x.len()
        invariant
            i <= x.len(),
            x.len() == y.len(),
            x@ == a@,
            y@ == b@,
            forall|k: int| 0 <= k < i ==> x@[k] == y@[k],
        decreases x.len() - i,
    {
        if x[i] != y[i] {
            assert(a@[i as int] != b@[i as int]);
            return false;
        }
        i = i + 1;
    }
    assert(x@ =~= y@);
    true
}

/// `a` comes before `b` in the order of the dictionary, character by
/// character; a text comes after each of its beginnings.
pub open spec fn text_before(a: Seq<char>, b: Seq<char>) -> bool
    decreases a.len(),
{
    if b.len() == 0 {
        false
    } else if a.len() == 0 {
        true
    } else if a[0] != b[0] {
        (a[0] as u32) < (b[0] as u32)
    } else {
        text_before(a.drop_first(), b.drop_first())
    }
}

/// Two characters with one code are one character.
pub proof fn lemma_codes(c: char, d: char)
    ensures
        c as u32 == d as u32 ==> c == d,
{
}

/// Of two texts one comes before the other, or they are the same; never
/// both ways.
pub proof fn lemma_text_order(a: Seq<char>, b: Seq<char>)
    ensures
        text_before(a, b) || text_before(b, a) || a == b,
        !(text_before(a, b) && text_before(b, a)),
        !text_before(a, a),
    decreases a.len(),
{
    if a.len() > 0 && b.len() > 0 && a[0] == b[0] {
        lemma_text_order(a.drop_first(), b.drop_first());
        if a.drop_first() == b.drop_first() {
            assert(a =~= seq![a[0]] + a.drop_first());
            assert(b =~= seq![b[0]] + b.drop_first());
        }
    } else if a.len() == 0 && b.len() == 0 {
        assert(a =~= b);
    } else if a.len() > 0 && b.len() > 0 {
        lemma_codes(a[0], b[0]);
    }
    lemma_text_same(a);
}

/// No text comes before itself.
pub proof fn lemma_text_same(a: Seq<char>)
    ensures
        !text_before(a, a),
    decreases a.len(),
{
    if a.len() > 0 {
        lemma_text_same(a.drop_first());
    }
}

/// The order of texts is transitive.
pub proof fn lemma_text_transitive(a: Seq<char>, b: Seq<char>, c: Seq<char>)
    requires
        text_before(a, b),
        text_before(b, c),
    ensures
        text_before(a, c),
    decreases a.len(),
{
    if a.len() > 0 && a[0] == b[0] && b[0] == c[0] {
        lemma_text_transitive(a.drop_first(), b.drop_first(), c.drop_first());
    }
}

/// `a` comes before `b` in the order of the dictionary.
pub fn is_text_before(a: &str, b: &str) -> (before: bool)
    ensures
        before == text_before(a@, b@),
{
    let x = chars_of(a);
    let y = chars_of(b);
    let mut i: usize = 0;
    assert(x@.skip(0) =~= x@ && y@.skip(0) =~= y@);
    while i < x.len() && i < y.len()
        invariant
            i <= x.len(),
            i <= y.len(),
            x@ == a@,
            y@ == b@,
            text_before(a@, b@) == text_before(x@.skip(i as int), y@.skip(i as int)),
        decreases x.len() - i,
    {
        proof {
            assert(x@.skip(i as int).drop_first() =~= x@.skip(i + 1));
            assert(y@.skip(i as int).drop_first() =~= y@.skip(i + 1));
        }
        if x[i] != y[i] {
            return (x[i] as u32) < (y[i] as u32);
        }
        i = i + 1;
    }
    i < y.len()
}

/// Two lists hold the same texts, one for one.
pub fn same_names(a: &Vec<String>, b: &Vec<String>) -> (same: bool)
    ensures
        same == (texts(a@) == texts(b@)),
{
    if a.len() != b.len() {
        assert(texts(a@).len() != texts(b@).len());
        return false;
    }
    let mut i: usize = 0;
    while i < a.len()
        invariant
            i <= a.len(),
            a.len() == b.len(),
            forall|k: int| 0 <= k < i ==> a@[k]@ == b@[k]@,
        decreases a.len() - i,
    {
        if !same_text(a[i].as_str(), b[i].as_str()) {
            assert(texts(a@)[i as int] != texts(b@)[i as int]);
            return false;
        }
        i = i + 1;
    }
    assert(texts(a@) =~= texts(b@));
    true
}

} // verus!
