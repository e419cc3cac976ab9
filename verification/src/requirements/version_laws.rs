//! What versions promise as they are written.
use vstd::prelude::*;
use vstd::string::*;

use crate::number::{all_digits, decimal, is_digit, law_numbers_read_back};
use crate::requirements::version::{
    at_least, at_least_from, bared, bears_version, first_among, is_version, part, runs,
    version_in, Run,
};
use crate::text::{is_whitespace, joined};

verus! {

/// Numbers as a version writes them, with dots between them.
pub open spec fn dotted(numbers: Seq<nat>) -> Seq<char> {
    joined(Seq::new(numbers.len(), |i: int| decimal(numbers[i])), "."@)
}

/// A number of a version; what is not written is zero.
pub open spec fn written(numbers: Seq<nat>, index: int) -> nat {
    if index < numbers.len() {
        numbers[index]
    } else {
        0
    }
}

/// Whether numbers fit in a machine word.
pub open spec fn all_fit(numbers: Seq<nat>) -> bool {
    forall|i: int| 0 <= i < numbers.len() ==> #[trigger] numbers[i] <= u64::MAX
}

/// A version is at least another exactly where the first of their first four numbers that
/// differs is the greater one, or none differs. What is not written counts as zero.
pub proof fn law_versions_compare_by_their_numbers(observed: Seq<nat>, minimum: Seq<nat>)
    requires
        all_fit(observed),
        all_fit(minimum),
    ensures
        at_least(dotted(observed), dotted(minimum)) <==> ({
            ||| forall|i: int| 0 <= i < 4 ==> #[trigger] written(observed, i) == written(minimum, i)
            ||| exists|k: int|
                0 <= k < 4 && #[trigger] written(observed, k) > written(minimum, k) && forall|i: int|
                    0 <= i < k ==> #[trigger] written(observed, i) == written(minimum, i)
        }),
{
    let a = dotted(observed);
    let b = dotted(minimum);
    assert forall|i: int| 0 <= i < 4 implies part(a, i) == written(observed, i) && part(b, i)
        == written(minimum, i) by {
        lemma_part(observed, i);
        lemma_part(minimum, i);
    }
    lemma_compared(a, b, 0);
    let same = forall|i: int| 0 <= i < 4 ==> #[trigger] written(observed, i) == written(minimum, i);
    if at_least(a, b) && !same {
        let k = lemma_difference(a, b, 0);
        assert(written(observed, k) > written(minimum, k));
    }
    if !same && exists|k: int|
        0 <= k < 4 && #[trigger] written(observed, k) > written(minimum, k) && forall|i: int|
            0 <= i < k ==> #[trigger] written(observed, i) == written(minimum, i) {
        let k = choose|k: int|
            0 <= k < 4 && #[trigger] written(observed, k) > written(minimum, k) && forall|i: int|
                0 <= i < k ==> #[trigger] written(observed, i) == written(minimum, i);
        lemma_greater(a, b, 0, k);
    }
}

/// Where two versions agree in the numbers before one of the first four, and there the
/// observed one is smaller, it is not enough. The order tells all first four numbers apart.
pub proof fn law_smaller_versions_are_not_enough(observed: Seq<char>, minimum: Seq<char>, index: int)
    requires
        0 <= index < 4,
        forall|i: int| 0 <= i < index ==> #[trigger] part(observed, i) == part(minimum, i),
        part(observed, index) < part(minimum, index),
    ensures
        !at_least(observed, minimum),
        at_least(minimum, observed),
{
    lemma_greater(minimum, observed, 0, index);
    if at_least(observed, minimum) {
        lemma_smaller(observed, minimum, 0, index);
    }
}

/// Versions that are each at least the other have the same first four numbers.
pub proof fn law_versions_are_told_apart(a: Seq<char>, b: Seq<char>, index: int)
    requires
        at_least(a, b),
        at_least(b, a),
        0 <= index < 4,
    ensures
        part(a, index) == part(b, index),
{
    lemma_both(a, b, 0, index);
}

proof fn lemma_both(a: Seq<char>, b: Seq<char>, from: int, index: int)
    requires
        at_least_from(a, b, from),
        at_least_from(b, a, from),
        0 <= from <= index < 4,
    ensures
        part(a, index) == part(b, index),
    decreases index - from,
{
    if from < index {
        lemma_both(a, b, from + 1, index);
    }
}

proof fn lemma_smaller(a: Seq<char>, b: Seq<char>, from: int, index: int)
    requires
        0 <= from <= index < 4,
        forall|i: int| 0 <= i < index ==> #[trigger] part(a, i) == part(b, i),
        part(a, index) < part(b, index),
    ensures
        !at_least_from(a, b, from),
    decreases index - from,
{
    if from < index {
        assert(part(a, from) == part(b, from));
        lemma_smaller(a, b, from + 1, index);
    }
}

proof fn lemma_greater(a: Seq<char>, b: Seq<char>, from: int, index: int)
    requires
        0 <= from <= index < 4,
        forall|i: int| 0 <= i < index ==> #[trigger] part(a, i) == part(b, i),
        part(a, index) > part(b, index),
    ensures
        at_least_from(a, b, from),
    decreases index - from,
{
    if from < index {
        assert(part(a, from) == part(b, from));
        lemma_greater(a, b, from + 1, index);
    }
}

proof fn lemma_compared(a: Seq<char>, b: Seq<char>, from: int)
    requires
        0 <= from,
    ensures
        (forall|i: int| from <= i < 4 ==> #[trigger] part(a, i) == part(b, i)) ==> at_least_from(
            a,
            b,
            from,
        ),
    decreases 4 - from,
{
    if from < 4 {
        lemma_compared(a, b, from + 1);
    }
}

proof fn lemma_difference(a: Seq<char>, b: Seq<char>, from: int) -> (k: int)
    requires
        0 <= from < 4,
        at_least_from(a, b, from),
        exists|i: int| from <= i < 4 && #[trigger] part(a, i) != part(b, i),
    ensures
        from <= k < 4,
        part(a, k) > part(b, k),
        forall|i: int| from <= i < k ==> #[trigger] part(a, i) == part(b, i),
    decreases 4 - from,
{
    if part(a, from) != part(b, from) {
        from
    } else {
        let i = choose|i: int| from <= i < 4 && #[trigger] part(a, i) != part(b, i);
        assert(from + 1 <= i);
        lemma_difference(a, b, from + 1)
    }
}

proof fn lemma_part(numbers: Seq<nat>, index: int)
    requires
        all_fit(numbers),
        0 <= index < 4,
    ensures
        part(dotted(numbers), index) == written(numbers, index),
{
    lemma_dotted_runs(numbers);
    if index < numbers.len() {
        assert(numbers[index] <= u64::MAX);
        law_numbers_read_back(numbers[index], u64::MAX as nat);
    }
}

proof fn lemma_dotted_runs(numbers: Seq<nat>)
    ensures
        runs(dotted(numbers), Run::Digits) == Seq::new(
            numbers.len(),
            |i: int| decimal(numbers[i]),
        ),
    decreases numbers.len(),
{
    let parts = Seq::new(numbers.len(), |i: int| decimal(numbers[i]));
    reveal_strlit(".");
    if numbers.len() == 0 {
        assert(runs(dotted(numbers), Run::Digits) =~= parts);
    } else {
        let front = numbers.drop_last();
        let last = decimal(numbers.last());
        let head = Seq::new(front.len(), |i: int| decimal(front[i]));
        law_numbers_read_back(numbers.last(), numbers.last());
        lemma_digit_run(last);
        lemma_dotted_runs(front);
        assert(parts.drop_last() =~= head);
        if numbers.len() == 1 {
            assert(dotted(numbers) == last);
            assert(parts =~= seq![last]);
        } else {
            assert(dotted(numbers) =~= dotted(front).push('.') + last);
            lemma_runs_apart(dotted(front), '.', last, Run::Digits);
            assert(parts =~= head + seq![last]);
        }
    }
}

/// Digits are one run.
proof fn lemma_digit_run(text: Seq<char>)
    requires
        all_digits(text),
        text.len() > 0,
    ensures
        runs(text, Run::Digits) == seq![text],
    decreases text.len(),
{
    let front = text.drop_last();
    assert(is_digit(text[text.len() - 1]));
    if text.len() > 1 {
        assert(is_digit(text[text.len() - 2]));
        assert forall|i: int| 0 <= i < front.len() implies is_digit(#[trigger] front[i]) by {
            assert(is_digit(text[i]));
        }
        lemma_digit_run(front);
        assert(front.push(text.last()) =~= text);
        assert(runs(text, Run::Digits) =~= seq![text]);
    } else {
        assert(front =~= Seq::<char>::empty());
        assert(seq![text.last()] =~= text);
        assert(runs(front, Run::Digits).len() == 0);
        assert(runs(text, Run::Digits) =~= seq![text]);
    }
}

/// Where a character is of no run, the runs before it and behind it stand apart.
proof fn lemma_runs_apart(a: Seq<char>, between: char, b: Seq<char>, kind: Run)
    requires
        !kind.takes(between),
    ensures
        runs(a.push(between) + b, kind) == runs(a, kind) + runs(b, kind),
    decreases b.len(),
{
    let whole = a.push(between) + b;
    if b.len() == 0 {
        assert(whole =~= a.push(between));
        assert(whole.drop_last() =~= a);
        assert(runs(a, kind) + runs(b, kind) =~= runs(a, kind));
    } else {
        let front = b.drop_last();
        lemma_runs_apart(a, between, front, kind);
        assert(whole.drop_last() =~= a.push(between) + front);
        assert(whole.last() == b.last());
        let x = runs(a, kind);
        let y = runs(front, kind);
        if kind.takes(b.last()) {
            if b.len() > 1 {
                assert(whole[whole.len() - 2] == b[b.len() - 2]);
                if kind.takes(b[b.len() - 2]) {
                    assert(front.last() == b[b.len() - 2]);
                    assert(y.len() > 0);
                    assert((x + y).last() == y.last());
                    assert((x + y).drop_last().push(y.last().push(b.last())) =~= x
                        + y.drop_last().push(y.last().push(b.last())));
                } else {
                    assert((x + y).push(seq![b.last()]) =~= x + y.push(seq![b.last()]));
                }
            } else {
                assert(whole[whole.len() - 2] == between);
                assert((x + y).push(seq![b.last()]) =~= x + y.push(seq![b.last()]));
            }
        }
    }
}

/// What is found as a version stands in the text, begins with a digit and holds a dot, and
/// holds no white space.
pub proof fn law_found_versions_stand_in_the_text(text: Seq<char>)
    ensures
        version_in(text) matches Some(version) ==> {
            &&& version.len() > 0
            &&& '0' <= version[0] <= '9'
            &&& version.contains('.')
            &&& exists|at: int| #[trigger] crate::text::occurs_at(text, version, at)
            &&& forall|i: int| 0 <= i < version.len() ==> !is_whitespace(#[trigger] version[i])
        },
{
    let words = runs(text, Run::Word);
    lemma_words_within(text);
    lemma_first_among(words, text);
}

/// A version that stands first in the text, before white space or at the end, is the one
/// that is found; words without a digit before it do not matter.
pub proof fn law_versions_are_found(words: Seq<char>, version: Seq<char>, rest: Seq<char>)
    requires
        version.len() > 0,
        '0' <= version[0] <= '9',
        version.contains('.'),
        forall|i: int|
            0 <= i < version.len() ==> '0' <= #[trigger] version[i] <= '9' || version[i] == '.',
        forall|i: int| 0 <= i < words.len() ==> !('0' <= #[trigger] words[i] <= '9'),
    ensures
        version_in(version) == Some(version),
        version_in(words.push(' ') + version) == Some(version),
        version_in(version.push(' ') + rest) == Some(version),
        version_in(words.push(' ') + (version.push(' ') + rest)) == Some(version),
{
    let found = runs(version, Run::Word);
    assert forall|i: int| 0 <= i < version.len() implies Run::Word.takes(#[trigger] version[i]) by {
        assert('0' <= version[i] <= '9' || version[i] == '.');
    }
    lemma_word_run(version);
    assert(bears_version(version[0]));
    assert('0' <= version[version.len() - 1] <= '9' || version[version.len() - 1] == '.');
    assert(bears_version(version.last()));
    assert(bared(version) == version);
    assert(is_version(version));
    assert(found[0] == version);
    assert(first_among(found) == Some(version));
    lemma_runs_apart(version, ' ', rest, Run::Word);
    let more = found + runs(rest, Run::Word);
    assert(more[0] == version);
    assert(first_among(more) == Some(version));
    let tail = version.push(' ') + rest;
    lemma_runs_apart(words, ' ', version, Run::Word);
    lemma_runs_apart(words, ' ', tail, Run::Word);
    lemma_no_digit_words(words);
    lemma_passed_over(runs(words, Run::Word), found);
    lemma_passed_over(runs(words, Run::Word), more);
}

proof fn lemma_word_run(text: Seq<char>)
    requires
        text.len() > 0,
        forall|i: int| 0 <= i < text.len() ==> Run::Word.takes(#[trigger] text[i]),
    ensures
        runs(text, Run::Word) == seq![text],
    decreases text.len(),
{
    let front = text.drop_last();
    assert(Run::Word.takes(text[text.len() - 1]));
    if text.len() > 1 {
        assert(Run::Word.takes(text[text.len() - 2]));
        assert forall|i: int| 0 <= i < front.len() implies Run::Word.takes(#[trigger] front[i]) by {
            assert(Run::Word.takes(text[i]));
        }
        lemma_word_run(front);
        assert(front.push(text.last()) =~= text);
        assert(runs(text, Run::Word) =~= seq![text]);
    } else {
        assert(front =~= Seq::<char>::empty());
        assert(seq![text.last()] =~= text);
        assert(runs(front, Run::Word).len() == 0);
        assert(runs(text, Run::Word) =~= seq![text]);
    }
}

/// Whether words hold no digit.
pub open spec fn without_digits(words: Seq<Seq<char>>) -> bool {
    forall|k: int, i: int|
        0 <= k < words.len() && 0 <= i < words[k].len() ==> !is_digit(#[trigger] words[k][i])
}

proof fn lemma_no_digit_words(text: Seq<char>)
    requires
        forall|i: int| 0 <= i < text.len() ==> !('0' <= #[trigger] text[i] <= '9'),
    ensures
        without_digits(runs(text, Run::Word)),
    decreases text.len(),
{
    if text.len() > 0 {
        let front = text.drop_last();
        assert forall|i: int| 0 <= i < front.len() implies !('0' <= #[trigger] front[i] <= '9') by {
            assert(!('0' <= text[i] <= '9'));
        }
        lemma_no_digit_words(front);
        assert(!('0' <= text[text.len() - 1] <= '9'));
        let rest = runs(front, Run::Word);
        let all = runs(text, Run::Word);
        assert forall|k: int, i: int| 0 <= k < all.len() && 0 <= i < all[k].len() implies !is_digit(
            #[trigger] all[k][i],
        ) by {
            if k < rest.len() && i < rest[k].len() {
                assert(!is_digit(rest[k][i]));
            }
        }
    }
}

proof fn lemma_passed_over(words: Seq<Seq<char>>, more: Seq<Seq<char>>)
    requires
        without_digits(words),
    ensures
        first_among(words + more) == first_among(more),
    decreases words.len(),
{
    if words.len() == 0 {
        assert(words + more =~= more);
    } else {
        let rest = words.skip(1);
        assert forall|k: int, i: int| 0 <= k < rest.len() && 0 <= i < rest[k].len() implies !is_digit(
            #[trigger] rest[k][i],
        ) by {
            assert(!is_digit(words[k + 1][i]));
        }
        lemma_passed_over(rest, more);
        assert((words + more).skip(1) =~= rest + more);
        assert((words + more)[0] == words[0]);
        lemma_bared(words[0]);
        let core = bared(words[0]);
        if core.len() > 0 && is_digit(core[0]) {
            let at = choose|at: int| crate::text::occurs_at(words[0], core, at);
            assert(words[0].subrange(at, at + core.len())[0] == words[0][at]);
            assert(!is_digit(words[0][at]));
        }
    }
}

/// What is bared stands in the text.
proof fn lemma_bared(text: Seq<char>)
    ensures
        exists|at: int| #[trigger] crate::text::occurs_at(text, bared(text), at),
    decreases text.len(),
{
    let core = bared(text);
    if text.len() == 0 {
        assert(text.subrange(0, 0) =~= core);
        assert(crate::text::occurs_at(text, core, 0));
    } else if !bears_version(text[0]) {
        let rest = text.skip(1);
        lemma_bared(rest);
        let at = choose|at: int| crate::text::occurs_at(rest, core, at);
        assert(text.subrange(at + 1, at + 1 + core.len()) =~= rest.subrange(at, at + core.len()));
        assert(crate::text::occurs_at(text, core, at + 1));
    } else if !bears_version(text.last()) {
        let rest = text.drop_last();
        lemma_bared(rest);
        let at = choose|at: int| crate::text::occurs_at(rest, core, at);
        assert(text.subrange(at, at + core.len()) =~= rest.subrange(at, at + core.len()));
        assert(crate::text::occurs_at(text, core, at));
    } else {
        assert(text.subrange(0, text.len() as int) =~= core);
        assert(crate::text::occurs_at(text, core, 0));
    }
}

/// Whether words stand in a text and hold no white space.
pub open spec fn words_within(words: Seq<Seq<char>>, text: Seq<char>) -> bool {
    forall|k: int| 0 <= k < words.len() ==> word_within(#[trigger] words[k], text)
}

/// Whether a word stands in a text and holds no white space.
pub open spec fn word_within(word: Seq<char>, text: Seq<char>) -> bool {
    &&& exists|at: int| #[trigger] crate::text::occurs_at(text, word, at)
    &&& forall|i: int| 0 <= i < word.len() ==> !is_whitespace(#[trigger] word[i])
}

proof fn lemma_words_within(text: Seq<char>)
    ensures
        words_within(runs(text, Run::Word), text),
        text.len() > 0 && Run::Word.takes(text.last()) ==> runs(text, Run::Word).len() > 0
            && runs(text, Run::Word).last().len() <= text.len() && text.subrange(
            text.len() - runs(text, Run::Word).last().len(),
            text.len() as int,
        ) == runs(text, Run::Word).last(),
    decreases text.len(),
{
    if text.len() > 0 {
        let front = text.drop_last();
        lemma_words_within(front);
        let rest = runs(front, Run::Word);
        let all = runs(text, Run::Word);
        assert forall|k: int| 0 <= k < rest.len() implies word_within(#[trigger] rest[k], text) by {
            assert(word_within(rest[k], front));
            let at = choose|at: int| crate::text::occurs_at(front, rest[k], at);
            assert(text.subrange(at, at + rest[k].len()) =~= front.subrange(
                at,
                at + rest[k].len(),
            ));
            assert(crate::text::occurs_at(text, rest[k], at));
        }
        if Run::Word.takes(text.last()) {
            let word = all.last();
            let start = text.len() - word.len();
            if text.len() > 1 && Run::Word.takes(text[text.len() - 2]) {
                assert(front.last() == text[text.len() - 2]);
                let held = rest.last();
                assert(word == held.push(text.last()));
                assert(word_within(rest[rest.len() - 1], front));
                assert(text.subrange(start, text.len() as int) =~= word) by {
                    assert forall|j: int| 0 <= j < word.len() implies text[start + j] == word[j] by {
                        if j < held.len() {
                            assert(front.subrange(front.len() - held.len(), front.len() as int)[j]
                                == held[j]);
                        }
                    }
                }
                assert forall|i: int| 0 <= i < word.len() implies !is_whitespace(#[trigger] word[i]) by {
                    if i < held.len() {
                        assert(!is_whitespace(held[i]));
                    }
                }
            } else {
                assert(word =~= seq![text.last()]);
                assert(text.subrange(start, text.len() as int) =~= word);
            }
            assert(crate::text::occurs_at(text, word, start));
        }
        assert forall|k: int| 0 <= k < all.len() implies word_within(#[trigger] all[k], text) by {
            if k < rest.len() {
                assert(word_within(rest[k], text));
            }
        }
    }
}

proof fn lemma_first_among(words: Seq<Seq<char>>, text: Seq<char>)
    requires
        words_within(words, text),
    ensures
        first_among(words) matches Some(version) ==> is_version(version) && word_within(
            version,
            text,
        ),
    decreases words.len(),
{
    if words.len() > 0 {
        let rest = words.skip(1);
        assert forall|k: int| 0 <= k < rest.len() implies word_within(#[trigger] rest[k], text) by {
            assert(word_within(words[k + 1], text));
        }
        lemma_first_among(rest, text);
        let word = words[0];
        let core = bared(word);
        assert(word_within(word, text));
        lemma_bared(word);
        let at = choose|at: int| crate::text::occurs_at(word, core, at);
        let from = choose|from: int| crate::text::occurs_at(text, word, from);
        assert forall|i: int| 0 <= i < core.len() implies !is_whitespace(#[trigger] core[i]) by {
            assert(word.subrange(at, at + core.len())[i] == word[at + i]);
            assert(!is_whitespace(word[at + i]));
        }
        assert(text.subrange(from + at, from + at + core.len()) =~= core) by {
            assert forall|j: int| 0 <= j < core.len() implies text[from + at + j] == core[j] by {
                assert(word.subrange(at, at + core.len())[j] == core[j]);
                assert(text.subrange(from, from + word.len())[at + j] == word[at + j]);
            }
        }
        assert(crate::text::occurs_at(text, core, from + at));
    }
}

} // verus!
