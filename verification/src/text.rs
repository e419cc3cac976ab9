//! Text primitives. Every function speaks of a string as the sequence of its
//! characters.
use vstd::prelude::*;
use vstd::string::*;
use vstd::utf8::{decode_utf8, valid_utf8};

verus! {

/// `String::push` appends one character.
pub assume_specification[ std::string::String::push ](
    buffer: &mut std::string::String,
    character: char,
)
    ensures
        final(buffer)@ == old(buffer)@.push(character),
;

/// The text that bytes are the UTF-8 form of, where they are that of any.
pub open spec fn decoded(bytes: Seq<u8>) -> Option<Seq<char>> {
    if valid_utf8(bytes) {
        Some(decode_utf8(bytes))
    } else {
        None
    }
}

/// `String::from_utf8`: the text that the bytes are the UTF-8 form of, and nothing where
/// they are not valid UTF-8.
#[verifier::external_body]
pub(crate) fn decode(bytes: &[u8]) -> (r: Option<String>)
    ensures
        match r {
            Some(text) => decoded(bytes@) == Some(text@),
            None => decoded(bytes@) is None,
        },
{
    String::from_utf8(bytes.to_vec()).ok()
}

/// The text that `String::from_utf8_lossy` makes of bytes.
pub uninterp spec fn decoded_lossy(bytes: Seq<u8>) -> Seq<char>;

/// `String::from_utf8_lossy`: the text of valid UTF-8. Where the bytes are not valid, the
/// text has replacement characters for what is wrong; how many and where is left to its
/// name, and depends on the bytes alone.
#[verifier::external_body]
pub(crate) fn decode_lossy(bytes: &[u8]) -> (r: String)
    ensures
        r@ == decoded_lossy(bytes@),
        decoded(bytes@) matches Some(text) ==> r@ == text,
{
    String::from_utf8_lossy(bytes).into_owned()
}

/// The characters of `text`, in order.
pub fn chars_of(text: &str) -> (r: Vec<char>)
    ensures
        r@ == text@,
{
    let mut r: Vec<char> = Vec::new();
    for c in it: text.chars()
        invariant
            it.seq() == text@,
            r@ == text@.take(it.index() as int),
    {
        r.push(c);
    }
    r
}

/// The string that holds the characters `from..to` of `chars`.
pub fn text_of(chars: &Vec<char>, from: usize, to: usize) -> (r: String)
    requires
        from <= to <= chars@.len(),
    ensures
        r@ == chars@.subrange(from as int, to as int),
{
    let mut r = String::new();
    let mut i: usize = from;
    while i < to
        invariant
            from <= i <= to <= chars@.len(),
            r@ == chars@.subrange(from as int, i as int),
        decreases to - i,
    {
        r.push(chars[i]);
        i += 1;
    }
    r
}

/// Whether two strings hold the same characters.
pub fn same(a: &str, b: &str) -> (r: bool)
    ensures
        r == (a@ == b@),
{
    a.to_owned() == b.to_owned()
}

/// The views of a list of strings.
pub open spec fn views(list: Seq<String>) -> Seq<Seq<char>> {
    list.map_values(|s: String| s@)
}

/// Two pieces of text, one after the other.
pub fn cat2(a: &str, b: &str) -> (r: String)
    ensures
        r@ == a@ + b@,
{
    let mut r = a.to_owned();
    r.append(b);
    r
}

/// Three pieces of text, one after the other.
pub fn cat3(a: &str, b: &str, c: &str) -> (r: String)
    ensures
        r@ == a@ + b@ + c@,
{
    let mut r = a.to_owned();
    r.append(b);
    r.append(c);
    r
}

/// Four pieces of text, one after the other.
pub fn cat4(a: &str, b: &str, c: &str, d: &str) -> (r: String)
    ensures
        r@ == a@ + b@ + c@ + d@,
{
    let mut r = cat3(a, b, c);
    r.append(d);
    r
}

/// Five pieces of text, one after the other.
pub fn cat5(a: &str, b: &str, c: &str, d: &str, e: &str) -> (r: String)
    ensures
        r@ == a@ + b@ + c@ + d@ + e@,
{
    let mut r = cat4(a, b, c, d);
    r.append(e);
    r
}

/// Six pieces of text, one after the other.
pub fn cat6(a: &str, b: &str, c: &str, d: &str, e: &str, f: &str) -> (r: String)
    ensures
        r@ == a@ + b@ + c@ + d@ + e@ + f@,
{
    let mut r = cat5(a, b, c, d, e);
    r.append(f);
    r
}

/// Seven pieces of text, one after the other.
pub fn cat7(a: &str, b: &str, c: &str, d: &str, e: &str, f: &str, g: &str) -> (r: String)
    ensures
        r@ == a@ + b@ + c@ + d@ + e@ + f@ + g@,
{
    let mut r = cat6(a, b, c, d, e, f);
    r.append(g);
    r
}

/// Whether `text` begins with `prefix`.
pub fn starts_with(text: &str, prefix: &str) -> (r: bool)
    ensures
        r == prefix@.is_prefix_of(text@),
{
    let t = chars_of(text);
    let p = chars_of(prefix);
    occurs(&t, &p, 0)
}

/// Whether `needle` stands in `text` at character `at`.
pub open spec fn occurs_at(text: Seq<char>, needle: Seq<char>, at: int) -> bool {
    0 <= at && at + needle.len() <= text.len() && text.subrange(at, at + needle.len()) == needle
}

fn occurs(text: &Vec<char>, needle: &Vec<char>, at: usize) -> (r: bool)
    requires
        at <= text@.len(),
    ensures
        r == occurs_at(text@, needle@, at as int),
        at == 0 ==> r == needle@.is_prefix_of(text@),
{
    if needle.len() > text.len() - at {
        return false;
    }
    let mut i: usize = 0;
    while i < needle.len()
        invariant
            0 <= i <= needle@.len(),
            at + needle@.len() <= text@.len() <= usize::MAX,
            forall|j: int| 0 <= j < i ==> text@[at + j] == needle@[j],
        decreases needle@.len() - i,
    {
        if text[at + i] != needle[i] {
            assert(text@.subrange(at as int, at + needle@.len())[i as int] != needle@[i as int]);
            return false;
        }
        i += 1;
    }
    assert(text@.subrange(at as int, at + needle@.len()) =~= needle@);
    true
}

/// Whether `text` ends with `suffix`.
pub fn ends_with(text: &str, suffix: &str) -> (r: bool)
    ensures
        r == suffix@.is_suffix_of(text@),
{
    let t = chars_of(text);
    let p = chars_of(suffix);
    if p.len() > t.len() {
        return false;
    }
    occurs(&t, &p, t.len() - p.len())
}

/// What follows `prefix` in `text`, where `text` begins with it.
pub fn strip_prefix(text: &str, prefix: &str) -> (r: Option<String>)
    ensures
        r is Some <==> prefix@.is_prefix_of(text@),
        r matches Some(rest) ==> rest@ == text@.skip(prefix@.len() as int) && text@ == prefix@
            + rest@,
{
    let t = chars_of(text);
    let p = chars_of(prefix);
    if occurs(&t, &p, 0) {
        let rest = text_of(&t, p.len(), t.len());
        assert(text@ =~= prefix@ + rest@);
        Some(rest)
    } else {
        None
    }
}

/// What precedes `suffix` in `text`, where `text` ends with it.
pub fn strip_suffix(text: &str, suffix: &str) -> (r: Option<String>)
    ensures
        r is Some <==> suffix@.is_suffix_of(text@),
        r matches Some(rest) ==> text@ == rest@ + suffix@,
{
    let t = chars_of(text);
    let p = chars_of(suffix);
    if p.len() > t.len() {
        return None;
    }
    if occurs(&t, &p, t.len() - p.len()) {
        let rest = text_of(&t, 0, t.len() - p.len());
        assert(text@ =~= rest@ + suffix@);
        Some(rest)
    } else {
        None
    }
}

/// The first place at which `needle` stands in `text`.
pub open spec fn first_occurrence(text: Seq<char>, needle: Seq<char>, at: int) -> bool {
    occurs_at(text, needle, at) && forall|j: int| 0 <= j < at ==> !occurs_at(text, needle, j)
}

/// The character index at which `needle` first stands in `text`.
pub fn find(text: &str, needle: &str) -> (r: Option<usize>)
    ensures
        r matches Some(i) ==> first_occurrence(text@, needle@, i as int),
        r is None ==> forall|j: int| !occurs_at(text@, needle@, j),
{
    let t = chars_of(text);
    let p = chars_of(needle);
    let mut i: usize = 0;
    loop
        invariant
            0 <= i <= t@.len(),
            t@ == text@,
            p@ == needle@,
            forall|j: int| 0 <= j < i ==> !occurs_at(text@, needle@, j),
        decreases t@.len() - i,
    {
        if occurs(&t, &p, i) {
            return Some(i);
        }
        if i == t.len() {
            return None;
        }
        i += 1;
    }
}

/// Whether `needle` stands anywhere in `text`.
pub fn contains(text: &str, needle: &str) -> (r: bool)
    ensures
        r == exists|i: int| occurs_at(text@, needle@, i),
{
    match find(text, needle) {
        Some(i) => {
            assert(occurs_at(text@, needle@, i as int));
            true
        },
        None => false,
    }
}

/// Whether `text` holds the character `wanted`.
pub fn contains_char(text: &str, wanted: char) -> (r: bool)
    ensures
        r == text@.contains(wanted),
{
    let t = chars_of(text);
    let mut i: usize = 0;
    while i < t.len()
        invariant
            0 <= i <= t@.len(),
            t@ == text@,
            forall|j: int| 0 <= j < i ==> text@[j] != wanted,
        decreases t@.len() - i,
    {
        if t[i] == wanted {
            assert(text@[i as int] == wanted);
            return true;
        }
        i += 1;
    }
    false
}

/// The pieces of `text` between the occurrences of `separator`: one more than
/// there are occurrences.
pub open spec fn pieces(text: Seq<char>, separator: char) -> Seq<Seq<char>>
    decreases text.len(),
{
    if text.len() == 0 {
        seq![Seq::<char>::empty()]
    } else {
        let rest = pieces(text.drop_last(), separator);
        if text.last() == separator {
            rest.push(Seq::<char>::empty())
        } else {
            rest.drop_last().push(rest.last().push(text.last()))
        }
    }
}

/// There is at least one piece, and no piece holds the separator.
pub proof fn lemma_pieces(text: Seq<char>, separator: char)
    ensures
        pieces(text, separator).len() >= 1,
        forall|i: int|
            0 <= i < pieces(text, separator).len() ==> !(#[trigger] pieces(
                text,
                separator,
            )[i]).contains(separator),
    decreases text.len(),
{
    if text.len() > 0 {
        lemma_pieces(text.drop_last(), separator);
        let rest = pieces(text.drop_last(), separator);
        if text.last() != separator {
            let grown = rest.last().push(text.last());
            assert forall|j: int| 0 <= j < grown.len() implies grown[j] != separator by {
                if j < rest.last().len() {
                    assert(!rest[rest.len() - 1].contains(separator));
                }
            }
        }
    }
}

/// Splitting at a separator splits both sides.
pub proof fn lemma_pieces_concat(a: Seq<char>, b: Seq<char>, separator: char)
    ensures
        pieces(a.push(separator) + b, separator) == pieces(a, separator) + pieces(b, separator),
    decreases b.len(),
{
    let whole = a.push(separator) + b;
    if b.len() == 0 {
        assert(whole =~= a.push(separator));
        assert(whole.drop_last() =~= a);
        assert(pieces(a, separator) + pieces(b, separator) =~= pieces(a, separator).push(
            Seq::<char>::empty(),
        ));
    } else {
        lemma_pieces_concat(a, b.drop_last(), separator);
        lemma_pieces(b.drop_last(), separator);
        assert(whole.drop_last() =~= a.push(separator) + b.drop_last());
        assert(whole.last() == b.last());
        let pa = pieces(a, separator);
        let pb = pieces(b.drop_last(), separator);
        if b.last() == separator {
            assert((pa + pb).push(Seq::<char>::empty()) =~= pa + pb.push(Seq::<char>::empty()));
        } else {
            assert((pa + pb).last() == pb.last());
            assert((pa + pb).drop_last().push((pa + pb).last().push(b.last())) =~= pa
                + pb.drop_last().push(pb.last().push(b.last())));
        }
    }
}

/// Text without the separator is one piece.
pub proof fn lemma_pieces_single(text: Seq<char>, separator: char)
    requires
        !text.contains(separator),
    ensures
        pieces(text, separator) == seq![text],
    decreases text.len(),
{
    if text.len() > 0 {
        assert(text.last() == text[text.len() - 1]);
        assert forall|j: int| 0 <= j < text.drop_last().len() implies text.drop_last()[j]
            != separator by {
            assert(text[j] == text.drop_last()[j]);
        }
        lemma_pieces_single(text.drop_last(), separator);
        assert(text.drop_last().push(text.last()) =~= text);
        assert(pieces(text, separator) =~= seq![text]);
    } else {
        assert(text =~= Seq::<char>::empty());
    }
}

/// The parts with `separator` between each two.
pub open spec fn joined(parts: Seq<Seq<char>>, separator: Seq<char>) -> Seq<char>
    decreases parts.len(),
{
    if parts.len() == 0 {
        Seq::empty()
    } else if parts.len() == 1 {
        parts[0]
    } else {
        joined(parts.drop_last(), separator) + separator + parts.last()
    }
}

/// Joining the pieces gives the text back.
pub proof fn lemma_joined_pieces(text: Seq<char>, separator: char)
    ensures
        joined(pieces(text, separator), seq![separator]) == text,
    decreases text.len(),
{
    lemma_pieces(text, separator);
    if text.len() == 0 {
        assert(text =~= Seq::<char>::empty());
    } else {
        lemma_joined_pieces(text.drop_last(), separator);
        lemma_pieces(text.drop_last(), separator);
        let rest = pieces(text.drop_last(), separator);
        let all = pieces(text, separator);
        if text.last() == separator {
            assert(all.drop_last() =~= rest);
            assert(joined(all, seq![separator]) =~= text);
        } else {
            assert(all.drop_last() =~= rest.drop_last());
            if rest.len() == 1 {
                assert(joined(all, seq![separator]) =~= text);
            } else {
                let head = joined(rest.drop_last(), seq![separator]) + seq![separator];
                assert(joined(all, seq![separator]) == head + all.last());
                assert(head + rest.last().push(text.last()) =~= (head + rest.last()).push(
                    text.last(),
                ));
                assert(text.drop_last().push(text.last()) =~= text);
            }
        }
    }
}

/// Splits `text` at every `separator`.
pub fn split(text: &str, separator: char) -> (r: Vec<String>)
    ensures
        views(r@) == pieces(text@, separator),
        r@.len() >= 1,
{
    let chars = chars_of(text);
    let mut parts: Vec<String> = Vec::new();
    let mut current = String::new();
    let mut i: usize = 0;
    assert(chars@.take(0) =~= Seq::<char>::empty());
    assert(views(parts@).push(current@) =~= seq![Seq::<char>::empty()]);
    while i < chars.len()
        invariant
            0 <= i <= chars@.len(),
            views(parts@).push(current@) == pieces(chars@.take(i as int), separator),
        decreases chars@.len() - i,
    {
        let ghost before = views(parts@).push(current@);
        assert(chars@.take(i + 1).drop_last() =~= chars@.take(i as int));
        assert(before.last() == current@);
        assert(before.drop_last() =~= views(parts@));
        if chars[i] == separator {
            let ghost held = parts@;
            let ghost piece = current@;
            parts.push(current);
            current = String::new();
            assert(views(parts@) =~= views(held).push(piece));
        } else {
            current.push(chars[i]);
        }
        i += 1;
    }
    assert(chars@.take(chars@.len() as int) =~= text@);
    let ghost held = parts@;
    let ghost piece = current@;
    parts.push(current);
    assert(views(parts@) =~= views(held).push(piece));
    parts
}

/// Joins the parts with `separator` between each two.
pub fn join(parts: &Vec<String>, separator: &str) -> (r: String)
    ensures
        r@ == joined(views(parts@), separator@),
{
    if parts.len() == 0 {
        return String::new();
    }
    let mut r = parts[0].clone();
    let mut i: usize = 1;
    assert(views(parts@).take(1) =~= seq![parts@[0]@]);
    while i < parts.len()
        invariant
            1 <= i <= parts@.len(),
            r@ == joined(views(parts@).take(i as int), separator@),
        decreases parts@.len() - i,
    {
        r.append(separator);
        r.append(parts[i].as_str());
        assert(views(parts@).take(i + 1).drop_last() =~= views(parts@).take(i as int));
        i += 1;
    }
    assert(views(parts@).take(parts@.len() as int) =~= views(parts@));
    r
}

/// `text` with every `wanted` replaced by `with`.
pub open spec fn replaced(text: Seq<char>, wanted: char, with: Seq<char>) -> Seq<char>
    decreases text.len(),
{
    if text.len() == 0 {
        Seq::empty()
    } else if text.last() == wanted {
        replaced(text.drop_last(), wanted, with) + with
    } else {
        replaced(text.drop_last(), wanted, with).push(text.last())
    }
}

/// Replaces every `wanted` in `text` by `with`.
pub fn replace_char(text: &str, wanted: char, with: &str) -> (r: String)
    ensures
        r@ == replaced(text@, wanted, with@),
{
    let chars = chars_of(text);
    let mut r = String::new();
    let mut i: usize = 0;
    assert(chars@.take(0) =~= Seq::<char>::empty());
    while i < chars.len()
        invariant
            0 <= i <= chars@.len(),
            r@ == replaced(chars@.take(i as int), wanted, with@),
        decreases chars@.len() - i,
    {
        assert(chars@.take(i + 1).drop_last() =~= chars@.take(i as int));
        if chars[i] == wanted {
            r.append(with);
        } else {
            r.push(chars[i]);
        }
        i += 1;
    }
    assert(chars@.take(chars@.len() as int) =~= text@);
    r
}

/// `text`, `count` times over.
pub open spec fn repeated(text: Seq<char>, count: nat) -> Seq<char>
    decreases count,
{
    if count == 0 {
        Seq::empty()
    } else {
        repeated(text, (count - 1) as nat) + text
    }
}

/// Repeats `text`.
pub fn repeat(text: &str, count: usize) -> (r: String)
    ensures
        r@ == repeated(text@, count as nat),
{
    let mut r = String::new();
    let mut i: usize = 0;
    while i < count
        invariant
            0 <= i <= count,
            r@ == repeated(text@, i as nat),
        decreases count - i,
    {
        r.append(text);
        i += 1;
    }
    r
}

/// Whether a character is white space: the Unicode property `White_Space`.
pub open spec fn is_whitespace(character: char) -> bool {
    let code = character as u32;
    ||| 0x09 <= code <= 0x0d
    ||| code == 0x20
    ||| code == 0x85
    ||| code == 0xa0
    ||| code == 0x1680
    ||| 0x2000 <= code <= 0x200a
    ||| code == 0x2028
    ||| code == 0x2029
    ||| code == 0x202f
    ||| code == 0x205f
    ||| code == 0x3000
}

/// Whether a character is white space.
pub(crate) fn whitespace(character: char) -> (r: bool)
    ensures
        r == is_whitespace(character),
{
    let code: u32 = character as u32;
    (0x09 <= code && code <= 0x0d) || code == 0x20 || code == 0x85 || code == 0xa0 || code == 0x1680
        || (0x2000 <= code && code <= 0x200a) || code == 0x2028 || code == 0x2029 || code == 0x202f
        || code == 0x205f || code == 0x3000
}

/// How many whitespace characters `text` begins with.
pub open spec fn leading_space(text: Seq<char>) -> nat
    decreases text.len(),
{
    if text.len() > 0 && is_whitespace(text[0]) {
        1 + leading_space(text.skip(1))
    } else {
        0
    }
}

/// How many whitespace characters `text` ends with.
pub open spec fn trailing_space(text: Seq<char>) -> nat
    decreases text.len(),
{
    if text.len() > 0 && is_whitespace(text.last()) {
        1 + trailing_space(text.drop_last())
    } else {
        0
    }
}

/// `text` without the whitespace that it begins with.
pub open spec fn trimmed_start(text: Seq<char>) -> Seq<char> {
    text.skip(leading_space(text) as int)
}

/// `text` without the whitespace that it ends with.
pub open spec fn trimmed_end(text: Seq<char>) -> Seq<char> {
    text.take(text.len() - trailing_space(text))
}

/// `text` without the whitespace at either end.
pub open spec fn trimmed(text: Seq<char>) -> Seq<char> {
    trimmed_end(trimmed_start(text))
}

/// Drops the whitespace that `text` begins with.
pub fn trim_start(text: &str) -> (r: String)
    ensures
        r@ == trimmed_start(text@),
        leading_space(text@) <= text@.len(),
{
    let chars = chars_of(text);
    let mut i: usize = 0;
    assert(chars@.skip(0) =~= text@);
    while i < chars.len() && whitespace(chars[i])
        invariant
            0 <= i <= chars@.len(),
            chars@ == text@,
            leading_space(text@) == i + leading_space(text@.skip(i as int)),
        decreases chars@.len() - i,
    {
        assert(text@.skip(i as int)[0] == text@[i as int]);
        assert(text@.skip(i as int).skip(1) =~= text@.skip(i + 1));
        i += 1;
    }
    assert(i < text@.len() ==> text@.skip(i as int)[0] == text@[i as int]);
    assert(leading_space(text@) == i);
    let r = text_of(&chars, i, chars.len());
    assert(r@ =~= text@.skip(i as int));
    r
}

/// Drops the whitespace that `text` ends with.
pub fn trim_end(text: &str) -> (r: String)
    ensures
        r@ == trimmed_end(text@),
        trailing_space(text@) <= text@.len(),
{
    let chars = chars_of(text);
    let mut n: usize = chars.len();
    assert(chars@.take(n as int) =~= text@);
    while n > 0 && whitespace(chars[n - 1])
        invariant
            0 <= n <= chars@.len(),
            chars@ == text@,
            trailing_space(text@) == text@.len() - n + trailing_space(text@.take(n as int)),
        decreases n,
    {
        assert(text@.take(n as int).last() == text@[n - 1]);
        assert(text@.take(n as int).drop_last() =~= text@.take(n - 1));
        n -= 1;
    }
    assert(n > 0 ==> text@.take(n as int).last() == text@[n - 1]);
    let r = text_of(&chars, 0, n);
    assert(r@ =~= text@.take(n as int));
    r
}

/// Drops the whitespace at both ends of `text`.
pub fn trim(text: &str) -> (r: String)
    ensures
        r@ == trimmed(text@),
{
    let start = trim_start(text);
    trim_end(start.as_str())
}

/// A line without the carriage return that a newline followed.
pub open spec fn without_return(line: Seq<char>) -> Seq<char> {
    if line.len() > 0 && line.last() == '\r' {
        line.drop_last()
    } else {
        line
    }
}

/// The lines of `text`: what stands before each newline, without a carriage
/// return at its end, and what follows the last newline unless that is empty.
pub open spec fn lines(text: Seq<char>) -> Seq<Seq<char>> {
    let all = pieces(text, '\n');
    let ended = all.drop_last().map_values(|line: Seq<char>| without_return(line));
    if all.last().len() == 0 {
        ended
    } else {
        ended.push(all.last())
    }
}

/// The lines of `text`.
pub fn lines_of(text: &str) -> (r: Vec<String>)
    ensures
        views(r@) == lines(text@),
{
    let all = split(text, '\n');
    let ghost parts = pieces(text@, '\n');
    let ghost ended = parts.drop_last().map_values(|line: Seq<char>| without_return(line));
    let mut r: Vec<String> = Vec::new();
    let mut i: usize = 0;
    assert(all@.len() == views(all@).len());
    while i < all.len() - 1
        invariant
            0 <= i < all@.len(),
            views(all@) == parts,
            all@.len() == parts.len(),
            ended == parts.drop_last().map_values(|line: Seq<char>| without_return(line)),
            views(r@) == ended.take(i as int),
        decreases all@.len() - i,
    {
        let ghost held = r@;
        let line = match strip_suffix(all[i].as_str(), "\r") {
            Some(rest) => rest,
            None => all[i].clone(),
        };
        proof {
            reveal_strlit("\r");
            let whole = all@[i as int]@;
            assert(whole == parts[i as int]);
            assert("\r"@ =~= seq!['\r']);
            if whole.len() > 0 && whole.last() == '\r' {
                assert(whole.subrange(whole.len() - 1, whole.len() as int) =~= "\r"@);
                assert(line@ =~= whole.drop_last());
            } else if "\r"@.is_suffix_of(whole) {
                assert(whole.subrange(whole.len() - 1, whole.len() as int)[0] == '\r');
            }
        }
        r.push(line);
        assert(views(r@) =~= views(held).push(line@));
        assert(ended.take(i + 1) =~= ended.take(i as int).push(ended[i as int]));
        i += 1;
    }
    assert(ended.take(i as int) =~= ended);
    if !all[i].as_str().is_empty() {
        let ghost held = r@;
        r.push(all[i].clone());
        assert(views(r@) =~= views(held).push(all@[i as int]@));
    }
    r
}

/// Where `wanted` first stands in `list`.
pub fn position(list: &Vec<String>, wanted: &str) -> (r: Option<usize>)
    ensures
        r matches Some(i) ==> i < list@.len() && list@[i as int]@ == wanted@ && forall|j: int|
            0 <= j < i ==> list@[j]@ != wanted@,
        r is None ==> !views(list@).contains(wanted@),
        r is Some ==> views(list@).contains(wanted@),
{
    let mut i: usize = 0;
    while i < list.len()
        invariant
            0 <= i <= list@.len(),
            forall|j: int| 0 <= j < i ==> list@[j]@ != wanted@,
        decreases list@.len() - i,
    {
        if same(list[i].as_str(), wanted) {
            assert(views(list@)[i as int] == wanted@);
            return Some(i);
        }
        i += 1;
    }
    assert forall|j: int| 0 <= j < list@.len() implies views(list@)[j] != wanted@ by {
        assert(list@[j]@ != wanted@);
    }
    None
}

/// Whether `list` holds `wanted`.
pub fn holds(list: &Vec<String>, wanted: &str) -> (r: bool)
    ensures
        r == views(list@).contains(wanted@),
{
    position(list, wanted).is_some()
}

/// `text` without the characters `dropped` that it begins with.
pub open spec fn without_leading(text: Seq<char>, dropped: char) -> Seq<char>
    decreases text.len(),
{
    if text.len() > 0 && text[0] == dropped {
        without_leading(text.skip(1), dropped)
    } else {
        text
    }
}

/// `text` without the characters `dropped` that it ends with.
pub open spec fn without_trailing(text: Seq<char>, dropped: char) -> Seq<char>
    decreases text.len(),
{
    if text.len() > 0 && text.last() == dropped {
        without_trailing(text.drop_last(), dropped)
    } else {
        text
    }
}

/// Drops the characters `dropped` that `text` begins with.
pub fn trim_leading(text: &str, dropped: char) -> (r: String)
    ensures
        r@ == without_leading(text@, dropped),
{
    let chars = chars_of(text);
    let mut i: usize = 0;
    assert(chars@.skip(0) =~= text@);
    while i < chars.len() && chars[i] == dropped
        invariant
            0 <= i <= chars@.len(),
            chars@ == text@,
            without_leading(text@, dropped) == without_leading(text@.skip(i as int), dropped),
        decreases chars@.len() - i,
    {
        assert(text@.skip(i as int)[0] == text@[i as int]);
        assert(text@.skip(i as int).skip(1) =~= text@.skip(i + 1));
        i += 1;
    }
    assert(i < text@.len() ==> text@.skip(i as int)[0] == text@[i as int]);
    let r = text_of(&chars, i, chars.len());
    assert(r@ =~= text@.skip(i as int));
    r
}

/// Drops the characters `dropped` that `text` ends with.
pub fn trim_trailing(text: &str, dropped: char) -> (r: String)
    ensures
        r@ == without_trailing(text@, dropped),
{
    let chars = chars_of(text);
    let mut n: usize = chars.len();
    assert(chars@.take(n as int) =~= text@);
    while n > 0 && chars[n - 1] == dropped
        invariant
            0 <= n <= chars@.len(),
            chars@ == text@,
            without_trailing(text@, dropped) == without_trailing(text@.take(n as int), dropped),
        decreases n,
    {
        assert(text@.take(n as int).last() == text@[n - 1]);
        assert(text@.take(n as int).drop_last() =~= text@.take(n - 1));
        n -= 1;
    }
    assert(n > 0 ==> text@.take(n as int).last() == text@[n - 1]);
    let r = text_of(&chars, 0, n);
    assert(r@ =~= text@.take(n as int));
    r
}

/// What stands before and after the first `separator`, where there is one.
pub open spec fn cut(text: Seq<char>, separator: char) -> Option<(Seq<char>, Seq<char>)> {
    let front = pieces(text, separator)[0];
    if pieces(text, separator).len() == 1 {
        None
    } else {
        Some((front, text.skip(front.len() as int + 1)))
    }
}

/// Cuts `text` at the first `separator`.
pub fn split_once(text: &str, separator: char) -> (r: Option<(String, String)>)
    ensures
        match r {
            Some(parts) => cut(text@, separator) == Some((parts.0@, parts.1@)) && text@
                == parts.0@.push(separator) + parts.1@,
            None => cut(text@, separator) is None && !text@.contains(separator),
        },
{
    let chars = chars_of(text);
    let mut i: usize = 0;
    while i < chars.len()
        invariant
            0 <= i <= chars@.len(),
            chars@ == text@,
            forall|j: int| 0 <= j < i ==> text@[j] != separator,
        decreases chars@.len() - i,
    {
        if chars[i] == separator {
            let front = text_of(&chars, 0, i);
            let rest = text_of(&chars, i + 1, chars.len());
            proof {
                assert(text@ =~= front@.push(separator) + rest@);
                assert forall|j: int| 0 <= j < front@.len() implies front@[j] != separator by {
                    assert(text@[j] == front@[j]);
                }
                lemma_pieces_concat(front@, rest@, separator);
                lemma_pieces_single(front@, separator);
                lemma_pieces(rest@, separator);
                assert(text@.skip(front@.len() as int + 1) =~= rest@);
            }
            return Some((front, rest));
        }
        i += 1;
    }
    proof {
        lemma_pieces_single(text@, separator);
    }
    None
}

/// What stands before and after the last `separator`, where there is one.
pub open spec fn cut_last(text: Seq<char>, separator: char) -> Option<(Seq<char>, Seq<char>)> {
    let back = pieces(text, separator).last();
    if pieces(text, separator).len() == 1 {
        None
    } else {
        Some((text.take(text.len() - back.len() - 1), back))
    }
}

/// Cuts `text` at the last `separator`.
pub fn split_last(text: &str, separator: char) -> (r: Option<(String, String)>)
    ensures
        match r {
            Some(parts) => cut_last(text@, separator) == Some((parts.0@, parts.1@)) && text@
                == parts.0@.push(separator) + parts.1@,
            None => cut_last(text@, separator) is None && !text@.contains(separator),
        },
{
    let chars = chars_of(text);
    let mut i: usize = chars.len();
    while i > 0
        invariant
            0 <= i <= chars@.len(),
            chars@ == text@,
            forall|j: int| i <= j < text@.len() ==> text@[j] != separator,
        decreases i,
    {
        if chars[i - 1] == separator {
            let front = text_of(&chars, 0, i - 1);
            let rest = text_of(&chars, i, chars.len());
            proof {
                assert(text@ =~= front@.push(separator) + rest@);
                assert forall|j: int| 0 <= j < rest@.len() implies rest@[j] != separator by {
                    assert(text@[i + j] == rest@[j]);
                }
                lemma_pieces_concat(front@, rest@, separator);
                lemma_pieces_single(rest@, separator);
                lemma_pieces(front@, separator);
                assert(text@.take(text@.len() - rest@.len() - 1) =~= front@);
            }
            return Some((front, rest));
        }
        i -= 1;
    }
    proof {
        lemma_pieces_single(text@, separator);
    }
    None
}

/// Adds text at the end of a list.
pub fn push_text(list: &mut Vec<String>, item: &str)
    ensures
        views(final(list)@) == views(old(list)@).push(item@),
{
    let ghost sofar = list@;
    list.push(item.to_string());
    assert(views(list@) =~= views(sofar).push(item@));
}

/// Whether text holds a part.
pub open spec fn holds_text(text: Seq<char>, part: Seq<char>) -> bool {
    exists|at: int| #[trigger] occurs_at(text, part, at)
}

/// Text holds itself.
pub proof fn lemma_holds_itself(part: Seq<char>)
    ensures
        holds_text(part, part),
{
    assert(part.subrange(0, part.len() as int) =~= part);
    assert(occurs_at(part, part, 0));
}

/// What text holds it holds with more around it too.
pub proof fn lemma_holds_within(front: Seq<char>, text: Seq<char>, back: Seq<char>, part: Seq<char>)
    requires
        holds_text(text, part),
    ensures
        holds_text(front + text + back, part),
        holds_text(front + text, part),
        holds_text(text + back, part),
{
    let at = choose|at: int| #[trigger] occurs_at(text, part, at);
    let whole = front + text + back;
    let n = front.len() as int;
    assert(whole.subrange(n + at, n + at + part.len()) =~= part) by {
        assert forall|j: int| 0 <= j < part.len() implies whole[n + at + j] == part[j] by {
            assert(text.subrange(at, at + part.len())[j] == part[j]);
        }
    }
    assert(occurs_at(whole, part, n + at));
    assert((front + text).subrange(n + at, n + at + part.len()) =~= part) by {
        assert forall|j: int| 0 <= j < part.len() implies (front + text)[n + at + j] == part[j] by {
            assert(text.subrange(at, at + part.len())[j] == part[j]);
        }
    }
    assert(occurs_at(front + text, part, n + at));
    assert((text + back).subrange(at, at + part.len()) =~= part) by {
        assert forall|j: int| 0 <= j < part.len() implies (text + back)[at + j] == part[j] by {
            assert(text.subrange(at, at + part.len())[j] == part[j]);
        }
    }
    assert(occurs_at(text + back, part, at));
}

} // verus!
