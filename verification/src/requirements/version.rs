//! Versions as tools report them.
use vstd::prelude::*;
use vstd::string::*;

use crate::number::{is_digit, parse_unsigned, unsigned_parsed};
use crate::text::{chars_of, contains_char, is_whitespace, text_of, views, whitespace};

verus! {

/// What a run of characters is made of.
#[derive(Clone, Copy, Debug, PartialEq, Eq, Structural)]
pub enum Run {
    /// Decimal digits
    Digits,
    /// Anything but whitespace
    Word,
}

impl Run {
    /// Whether a character belongs to such a run.
    pub open spec fn takes(self, character: char) -> bool {
        match self {
            Run::Digits => is_digit(character),
            Run::Word => !is_whitespace(character),
        }
    }

    fn accepts(self, character: char) -> (r: bool)
        ensures
            r == self.takes(character),
    {
        match self {
            Run::Digits => '0' <= character && character <= '9',
            Run::Word => !whitespace(character),
        }
    }
}

/// The longest runs in text.
pub open spec fn runs(text: Seq<char>, kind: Run) -> Seq<Seq<char>>
    decreases text.len(),
{
    if text.len() == 0 {
        Seq::empty()
    } else {
        let rest = runs(text.drop_last(), kind);
        if !kind.takes(text.last()) {
            rest
        } else if text.len() > 1 && kind.takes(text[text.len() - 2]) {
            rest.drop_last().push(rest.last().push(text.last()))
        } else {
            rest.push(seq![text.last()])
        }
    }
}

/// Behind a character of a run there is a run.
proof fn lemma_runs(text: Seq<char>, kind: Run)
    ensures
        text.len() > 0 && kind.takes(text.last()) ==> runs(text, kind).len() > 0,
{
}

fn find_runs(text: &str, kind: Run) -> (r: Vec<String>)
    ensures
        views(r@) == runs(text@, kind),
{
    let chars = chars_of(text);
    let mut r: Vec<String> = Vec::new();
    let mut open = false;
    let mut i: usize = 0;
    assert(text@.take(0) =~= Seq::empty());
    assert(views(r@) =~= Seq::empty());
    while i < chars.len()
        invariant
            0 <= i <= chars@.len(),
            chars@ == text@,
            views(r@) == runs(text@.take(i as int), kind),
            open == (i > 0 && kind.takes(text@[i - 1])),
        decreases chars@.len() - i,
    {
        let ghost front = text@.take(i as int);
        let ghost next = text@.take(i + 1);
        let ghost earlier = r@;
        proof {
            assert(next.drop_last() =~= front);
            assert(next.last() == text@[i as int]);
            if i > 0 {
                assert(next[next.len() - 2] == text@[i - 1]);
                assert(front.last() == text@[i - 1]);
            }
            lemma_runs(front, kind);
            assert(views(earlier).len() == earlier.len());
        }
        let character = chars[i];
        if kind.accepts(character) {
            let mut run = if open {
                match r.pop() {
                    Some(run) => run,
                    None => String::new(),
                }
            } else {
                String::new()
            };
            proof {
                if open {
                    assert(views(earlier).last() == earlier.last()@);
                    assert(run@ == earlier.last()@);
                    assert(views(r@) =~= views(earlier).drop_last());
                } else {
                    assert(run@ =~= Seq::empty());
                }
            }
            let ghost kept = r@;
            run.push(character);
            let ghost whole = run@;
            r.push(run);
            assert(views(r@) =~= views(kept).push(whole));
            proof {
                if !open {
                    assert(whole =~= seq![character]);
                }
            }
            open = true;
        } else {
            open = false;
        }
        i += 1;
    }
    assert(text@.take(i as int) =~= text@);
    r
}

/// The number that a run of digits stands for: none too large for a machine word.
pub open spec fn number_of(run: Seq<char>) -> nat {
    match unsigned_parsed(run, u64::MAX as nat) {
        Some(value) => value,
        None => 0,
    }
}

/// A number of a version: one of its first four, or zero behind the last.
pub open spec fn part(version: Seq<char>, index: int) -> nat {
    if index < 4 && index < runs(version, Run::Digits).len() {
        number_of(runs(version, Run::Digits)[index])
    } else {
        0
    }
}

/// Whether a version is at least another from one of its numbers on.
pub open spec fn at_least_from(observed: Seq<char>, minimum: Seq<char>, index: int) -> bool
    decreases 4 - index,
{
    if index >= 4 || index < 0 {
        true
    } else if part(observed, index) != part(minimum, index) {
        part(observed, index) > part(minimum, index)
    } else {
        at_least_from(observed, minimum, index + 1)
    }
}

/// Whether a version is at least another: by the first of their numbers that differs.
pub open spec fn at_least(observed: Seq<char>, minimum: Seq<char>) -> bool {
    at_least_from(observed, minimum, 0)
}

fn part_at(parts: &Vec<String>, index: usize, Ghost(version): Ghost<Seq<char>>) -> (r: u64)
    requires
        views(parts@) == runs(version, Run::Digits),
        index < 4,
    ensures
        r == part(version, index as int),
{
    assert(parts@.len() == views(parts@).len());
    if index >= parts.len() {
        return 0;
    }
    assert(views(parts@)[index as int] == parts@[index as int]@);
    match parse_unsigned(parts[index].as_str(), u64::MAX) {
        Some(value) => value,
        None => 0,
    }
}

/// Whether a version is at least another.
pub fn version_at_least(observed: &str, minimum: &str) -> (r: bool)
    ensures
        r == at_least(observed@, minimum@),
{
    let left = find_runs(observed, Run::Digits);
    let right = find_runs(minimum, Run::Digits);
    let mut i: usize = 0;
    while i < 4
        invariant
            0 <= i <= 4,
            views(left@) == runs(observed@, Run::Digits),
            views(right@) == runs(minimum@, Run::Digits),
            at_least(observed@, minimum@) == at_least_from(observed@, minimum@, i as int),
        decreases 4 - i,
    {
        let a = part_at(&left, i, Ghost(observed@));
        let b = part_at(&right, i, Ghost(minimum@));
        if a != b {
            return a > b;
        }
        i += 1;
    }
    true
}

/// Every version is at least itself.
pub proof fn law_versions_are_at_least_themselves(version: Seq<char>)
    ensures
        at_least(version, version),
{
    lemma_reflexive(version, 0);
}

proof fn lemma_reflexive(version: Seq<char>, index: int)
    requires
        0 <= index,
    ensures
        at_least_from(version, version, index),
    decreases 4 - index,
{
    if index < 4 {
        lemma_reflexive(version, index + 1);
    }
}

/// What is at least a version is at least all that this one is at least.
pub proof fn law_versions_are_ordered(a: Seq<char>, b: Seq<char>, c: Seq<char>)
    requires
        at_least(a, b),
        at_least(b, c),
    ensures
        at_least(a, c),
{
    lemma_transitive(a, b, c, 0);
}

proof fn lemma_transitive(a: Seq<char>, b: Seq<char>, c: Seq<char>, index: int)
    requires
        0 <= index,
        at_least_from(a, b, index),
        at_least_from(b, c, index),
    ensures
        at_least_from(a, c, index),
    decreases 4 - index,
{
    if index < 4 && part(a, index) == part(b, index) && part(b, index) == part(c, index) {
        lemma_transitive(a, b, c, index + 1);
    }
}

/// Of two versions one is at least the other.
pub proof fn law_versions_are_comparable(a: Seq<char>, b: Seq<char>)
    ensures
        at_least(a, b) || at_least(b, a),
{
    lemma_total(a, b, 0);
}

proof fn lemma_total(a: Seq<char>, b: Seq<char>, index: int)
    requires
        0 <= index,
    ensures
        at_least_from(a, b, index) || at_least_from(b, a, index),
    decreases 4 - index,
{
    if index < 4 && part(a, index) == part(b, index) {
        lemma_total(a, b, index + 1);
    }
}

/// Whether a character may begin or end a version.
pub open spec fn bears_version(character: char) -> bool {
    ('a' <= character <= 'z') || ('A' <= character <= 'Z') || is_digit(character) || character
        == '.'
}

fn is_version_char(character: char) -> (r: bool)
    ensures
        r == bears_version(character),
{
    ('a' <= character && character <= 'z') || ('A' <= character && character <= 'Z') || ('0'
        <= character && character <= '9') || character == '.'
}

/// Text without what stands around a version.
pub open spec fn bared(text: Seq<char>) -> Seq<char>
    decreases text.len(),
{
    if text.len() == 0 {
        text
    } else if !bears_version(text[0]) {
        bared(text.skip(1))
    } else if !bears_version(text.last()) {
        bared(text.drop_last())
    } else {
        text
    }
}

fn bare(text: &str) -> (r: String)
    ensures
        r@ == bared(text@),
{
    let chars = chars_of(text);
    let mut from: usize = 0;
    let mut to: usize = chars.len();
    assert(text@.subrange(0, text@.len() as int) =~= text@);
    while from < to && !(is_version_char(chars[from]) && is_version_char(chars[to - 1]))
        invariant
            0 <= from <= to <= chars@.len(),
            chars@ == text@,
            bared(text@) == bared(text@.subrange(from as int, to as int)),
        decreases to - from,
    {
        let ghost now = text@.subrange(from as int, to as int);
        assert(now[0] == text@[from as int]);
        assert(now.last() == text@[to - 1]);
        assert(now.skip(1) =~= text@.subrange(from + 1, to as int));
        assert(now.drop_last() =~= text@.subrange(from as int, to - 1));
        if !is_version_char(chars[from]) {
            from += 1;
        } else {
            to -= 1;
        }
    }
    proof {
        let now = text@.subrange(from as int, to as int);
        if from < to {
            assert(now[0] == text@[from as int]);
            assert(now.last() == text@[to - 1]);
        }
    }
    text_of(&chars, from, to)
}

/// Whether text is a version: it begins with a digit and holds a dot.
pub open spec fn is_version(text: Seq<char>) -> bool {
    text.len() > 0 && is_digit(text[0]) && text.contains('.')
}

/// The first version among words.
pub open spec fn first_among(words: Seq<Seq<char>>) -> Option<Seq<char>>
    decreases words.len(),
{
    if words.len() == 0 {
        None
    } else if is_version(bared(words[0])) {
        Some(bared(words[0]))
    } else {
        first_among(words.skip(1))
    }
}

/// The first version in text.
pub open spec fn version_in(text: Seq<char>) -> Option<Seq<char>> {
    first_among(runs(text, Run::Word))
}

/// Finds the first version in text.
pub fn first_version(text: &str) -> (r: Option<String>)
    ensures
        match r {
            Some(version) => version_in(text@) == Some(version@),
            None => version_in(text@) is None,
        },
{
    let words = find_runs(text, Run::Word);
    let ghost all = runs(text@, Run::Word);
    let mut i: usize = 0;
    assert(words@.len() == views(words@).len());
    assert(all.skip(0) =~= all);
    while i < words.len()
        invariant
            0 <= i <= words@.len(),
            views(words@) == all,
            words@.len() == all.len(),
            version_in(text@) == first_among(all.skip(i as int)),
        decreases words@.len() - i,
    {
        assert(views(words@)[i as int] == words@[i as int]@);
        assert(all.skip(i as int)[0] == all[i as int]);
        assert(all.skip(i as int).skip(1) =~= all.skip(i + 1));
        let word = bare(words[i].as_str());
        let chars = chars_of(word.as_str());
        if chars.len() > 0 && '0' <= chars[0] && chars[0] <= '9' && contains_char(
            word.as_str(),
            '.',
        ) {
            return Some(word);
        }
        i += 1;
    }
    None
}

} // verus!
