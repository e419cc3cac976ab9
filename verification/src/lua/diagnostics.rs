//! What went wrong in Lua, in terms of the repository.
use vstd::prelude::*;
use vstd::string::*;

use crate::error::{Diagnostic, WombatError};
use crate::lua::state::{Location, TrackedSource};
use crate::model::manifest::{
    copy_source_locations, same_source_locations, SourceLocation, SourceTrace,
    MAX_SOURCE_TRACE_FRAMES,
};
use crate::number::{is_digit, parse_unsigned, unsigned_parsed};
use crate::text::{
    cat2, chars_of, find, first_occurrence, lines, lines_of, occurs_at, pieces, replace_char,
    replaced, same, split, strip_prefix, text_of, trim, trimmed, views,
};

verus! {

/// A path as messages write it: relative to the repository where it stands beneath
/// it, with slashes.
pub open spec fn displayed_path(path: Seq<char>, relative: Option<&str>) -> Seq<char> {
    replaced(
        match relative {
            Some(relative) => relative@,
            None => path,
        },
        '\\',
        "/"@,
    )
}

/// A path as messages write it. `relative` is its path beneath the repository, where
/// it stands beneath it.
pub fn display_path(path: &str, relative: Option<&str>) -> (r: String)
    ensures
        r@ == displayed_path(path@, relative),
{
    match relative {
        Some(relative) => replace_char(relative, '\\', "/"),
        None => replace_char(path, '\\', "/"),
    }
}

/// The first number among the parts of a message.
pub open spec fn line_among(parts: Seq<Seq<char>>) -> Option<nat>
    decreases parts.len(),
{
    if parts.len() == 0 {
        None
    } else if unsigned_parsed(parts[0], u32::MAX as nat) is Some {
        unsigned_parsed(parts[0], u32::MAX as nat)
    } else {
        line_among(parts.skip(1))
    }
}

/// The line that a message of Lua names: the first number between colons.
pub fn parse_lua_line(message: &str) -> (r: Option<u32>)
    ensures
        match r {
            Some(line) => line_among(pieces(message@, ':')) == Some(line as nat),
            None => line_among(pieces(message@, ':')) is None,
        },
{
    let parts = split(message, ':');
    let ghost all = pieces(message@, ':');
    assert(parts@.len() == views(parts@).len());
    let mut i: usize = 0;
    assert(all.skip(0) =~= all);
    while i < parts.len()
        invariant
            0 <= i <= parts@.len(),
            views(parts@) == all,
            parts@.len() == all.len(),
            line_among(all) == line_among(all.skip(i as int)),
            all == pieces(message@, ':'),
        decreases parts@.len() - i,
    {
        assert(views(parts@)[i as int] == parts@[i as int]@);
        assert(all.skip(i as int)[0] == all[i as int]);
        assert(all.skip(i as int).skip(1) =~= all.skip(i + 1));
        if let Some(line) = parse_unsigned(parts[i].as_str(), u32::MAX as u64) {
            return Some(line as u32);
        }
        i += 1;
    }
    None
}

/// Where a run of digits ends.
pub open spec fn digits_end(text: Seq<char>, from: int) -> int
    decreases text.len() - from,
{
    if 0 <= from < text.len() && is_digit(text[from]) {
        digits_end(text, from + 1)
    } else {
        from
    }
}

/// Where the reason begins behind the first line number between colons.
pub open spec fn reason_start(text: Seq<char>, from: int) -> Option<int>
    decreases text.len() - from,
{
    if from < 0 || from >= text.len() {
        None
    } else {
        let end = digits_end(text, from + 1);
        if text[from] == ':' && end > from + 1 && end < text.len() && text[end] == ':' {
            Some(end + 1)
        } else {
            reason_start(text, from + 1)
        }
    }
}

proof fn lemma_digits_end(text: Seq<char>, from: int)
    requires
        0 <= from <= text.len(),
    ensures
        from <= digits_end(text, from) <= text.len(),
    decreases text.len() - from,
{
    if from < text.len() && is_digit(text[from]) {
        lemma_digits_end(text, from + 1);
    }
}

/// What stands before a trace of the stack.
pub open spec fn before_trace(raw: Seq<char>) -> Seq<char> {
    if exists|i: int| first_occurrence(raw, "\nstack traceback:"@, i) {
        raw.take(choose|i: int| first_occurrence(raw, "\nstack traceback:"@, i))
    } else {
        raw
    }
}

/// The reason in a message of Lua.
pub open spec fn reason_of(raw: Seq<char>) -> Seq<char> {
    let head = before_trace(raw);
    match reason_start(head, 0) {
        Some(start) => trimmed(head.skip(start)),
        None => {
            let text = trimmed(head);
            if "runtime error:"@.is_prefix_of(text) {
                trimmed(text.skip("runtime error:"@.len() as int))
            } else if "syntax error:"@.is_prefix_of(text) {
                trimmed(text.skip("syntax error:"@.len() as int))
            } else {
                trimmed(text)
            }
        },
    }
}

fn cut_trace(raw: &str) -> (r: String)
    ensures
        r@ == before_trace(raw@),
{
    match find(raw, "\nstack traceback:") {
        Some(at) => {
            let chars = chars_of(raw);
            proof {
                let other = choose|i: int| first_occurrence(raw@, "\nstack traceback:"@, i);
                assert(first_occurrence(raw@, "\nstack traceback:"@, at as int));
                assert(first_occurrence(raw@, "\nstack traceback:"@, other));
                if other < at {
                    assert(!occurs_at(raw@, "\nstack traceback:"@, other));
                } else if at < other {
                    assert(!occurs_at(raw@, "\nstack traceback:"@, at as int));
                }
            }
            let head = text_of(&chars, 0, at);
            assert(head@ =~= raw@.take(at as int));
            head
        },
        None => raw.to_string(),
    }
}

fn find_reason(chars: &Vec<char>) -> (r: Option<usize>)
    ensures
        match r {
            Some(start) => reason_start(chars@, 0) == Some(start as int) && start <= chars@.len(),
            None => reason_start(chars@, 0) is None,
        },
{
    let mut i: usize = 0;
    while i < chars.len()
        invariant
            0 <= i <= chars@.len(),
            reason_start(chars@, 0) == reason_start(chars@, i as int),
        decreases chars@.len() - i,
    {
        if chars[i] == ':' {
            let mut end: usize = i + 1;
            while end < chars.len() && '0' <= chars[end] && chars[end] <= '9'
                invariant
                    i < end <= chars@.len(),
                    digits_end(chars@, i + 1) == digits_end(chars@, end as int),
                decreases chars@.len() - end,
            {
                end += 1;
            }
            if end > i + 1 && end < chars.len() && chars[end] == ':' {
                return Some(end + 1);
            }
        }
        i += 1;
    }
    None
}

/// The reason in a message of Lua: without the trace of the stack, the place and the
/// kind of error.
pub fn clean_lua_reason(raw: &str) -> (r: String)
    ensures
        r@ == reason_of(raw@),
{
    let head = cut_trace(raw);
    let chars = chars_of(head.as_str());
    if let Some(start) = find_reason(&chars) {
        let rest = text_of(&chars, start, chars.len());
        assert(rest@ =~= head@.skip(start as int));
        return trim(rest.as_str());
    }
    let text = trim(head.as_str());
    if let Some(rest) = strip_prefix(text.as_str(), "runtime error:") {
        return trim(rest.as_str());
    }
    if let Some(rest) = strip_prefix(text.as_str(), "syntax error:") {
        return trim(rest.as_str());
    }
    trim(text.as_str())
}

/// A frame of the Lua stack.
#[derive(Debug, PartialEq)]
pub struct LuaFrame {
    /// The name of its chunk
    pub source: String,
    /// The path that this names, as messages write it
    pub path: String,
    /// The line, where it is known
    pub line: Option<u32>,
    /// Whether it was called as the last thing of another
    pub tail_call: bool,
}

/// Whether a chunk belongs to the policy of the repository.
pub open spec fn of_user(source: Seq<char>) -> bool {
    &&& source != "<wombat>/init.lua"@
    &&& source != "=<wombat>/init.lua"@
    &&& source != "<wombat>/protected.lua"@
    &&& source != "=<wombat>/protected.lua"@
    &&& source != "=[C]"@
    &&& source != "[C]"@
    &&& source != "<unknown>"@
}

fn is_of_user(source: &str) -> (r: bool)
    ensures
        r == of_user(source@),
{
    !same(source, "<wombat>/init.lua") && !same(source, "=<wombat>/init.lua") && !same(
        source,
        "<wombat>/protected.lua",
    ) && !same(source, "=<wombat>/protected.lua") && !same(source, "=[C]") && !same(
        source,
        "[C]",
    ) && !same(source, "<unknown>")
}

/// A place in the policy of the repository.
pub ghost struct Place {
    /// The file
    pub source: Seq<char>,
    /// The line
    pub line: Option<u32>,
}

/// The places of frames.
pub open spec fn places(list: Seq<SourceLocation>) -> Seq<Place> {
    Seq::new(list.len(), |i: int| Place { source: list[i].source@, line: list[i].line })
}

/// Whether no place has a column.
pub open spec fn without_columns(list: Seq<SourceLocation>) -> bool {
    forall|i: int| 0 <= i < list.len() ==> (#[trigger] list[i]).column is None
}

/// The places of the repository on a stack, the innermost first: as many as are
/// kept, repeated ones once.
pub open spec fn user_places(levels: Seq<Option<LuaFrame>>) -> Seq<Place>
    decreases levels.len(),
{
    if levels.len() == 0 {
        Seq::empty()
    } else {
        let rest = user_places(levels.drop_last());
        match levels.last() {
            Some(frame) => {
                let place = Place { source: frame.path@, line: frame.line };
                if rest.len() >= MAX_SOURCE_TRACE_FRAMES || !of_user(frame.source@) || (rest.len()
                    > 0 && rest.last() == place) {
                    rest
                } else {
                    rest.push(place)
                }
            },
            None => rest,
        }
    }
}

/// Whether a frame that was looked at was called as the last thing of another.
pub open spec fn some_tail_call(levels: Seq<Option<LuaFrame>>) -> bool
    decreases levels.len(),
{
    levels.len() > 0 && (some_tail_call(levels.drop_last()) || (levels.last() matches Some(frame)
        && of_user(frame.source@) && frame.tail_call && user_places(levels.drop_last()).len()
        < MAX_SOURCE_TRACE_FRAMES))
}

/// Finds the places of the repository on a stack, the innermost first, and whether a
/// frame between them may be missing.
pub fn capture_user_frames(levels: &Vec<Option<LuaFrame>>) -> (r: (Vec<SourceLocation>, bool))
    ensures
        places(r.0@) == user_places(levels@),
        without_columns(r.0@),
        r.1 == some_tail_call(levels@),
{
    let mut frames: Vec<SourceLocation> = Vec::new();
    let mut tail_call = false;
    let mut i: usize = 0;
    assert(levels@.take(0) =~= Seq::empty());
    assert(places(frames@) =~= Seq::empty());
    while i < levels.len()
        invariant
            0 <= i <= levels@.len(),
            places(frames@) == user_places(levels@.take(i as int)),
            without_columns(frames@),
            tail_call == some_tail_call(levels@.take(i as int)),
        decreases levels@.len() - i,
    {
        assert(levels@.take(i + 1).drop_last() =~= levels@.take(i as int));
        assert(levels@.take(i + 1).last() == levels@[i as int]);
        assert(places(frames@).len() == frames@.len());
        if let Some(frame) = &levels[i] {
            if frames.len() < MAX_SOURCE_TRACE_FRAMES && is_of_user(frame.source.as_str()) {
                tail_call = tail_call || frame.tail_call;
                let repeated = if frames.len() > 0 {
                    let last = &frames[frames.len() - 1];
                    assert(places(frames@).last() == (Place {
                        source: last.source@,
                        line: last.line,
                    }));
                    same(last.source.as_str(), frame.path.as_str()) && last.line == frame.line
                } else {
                    false
                };
                if !repeated {
                    let ghost sofar = frames@;
                    frames.push(
                        SourceLocation {
                            source: frame.path.clone(),
                            line: frame.line,
                            column: None,
                        },
                    );
                    assert(places(frames@) =~= places(sofar).push(
                        (Place { source: frame.path@, line: frame.line }),
                    ));
                }
            }
        }
        i += 1;
    }
    assert(levels@.take(i as int) =~= levels@);
    (frames, tail_call)
}

/// The place that policy called from.
pub fn caller_location(levels: &Vec<Option<LuaFrame>>) -> (r: Location)
    ensures
        ({
            let all = user_places(levels@);
            if all.len() == 0 {
                r.trace.primary.source@ == "<unknown>"@ && r.trace.primary.line is None
                    && r.trace.callers@.len() == 0
            } else {
                r.trace.primary.source@ == all[0].source && r.trace.primary.line == all[0].line
                    && places(r.trace.callers@) == all.skip(1)
            }
        }),
        r.trace.primary.column is None,
{
    let (mut frames, _) = capture_user_frames(levels);
    let ghost all = user_places(levels@);
    assert(places(frames@).len() == frames@.len());
    if frames.len() == 0 {
        return Location {
            trace: SourceTrace {
                primary: SourceLocation {
                    source: "<unknown>".to_string(),
                    line: None,
                    column: None,
                },
                callers: Vec::new(),
            },
        };
    }
    let ghost whole = frames@;
    assert(places(whole)[0] == (Place { source: whole[0].source@, line: whole[0].line }));
    let primary = frames.remove(0);
    assert(places(frames@) =~= places(whole).skip(1));
    Location { trace: SourceTrace { primary, callers: frames } }
}

/// What a source held at a line, as it was read.
pub open spec fn line_of(sources: Seq<TrackedSource>, place: SourceLocation) -> Option<Seq<char>>
    decreases sources.len(),
{
    if sources.len() == 0 {
        None
    } else if sources[0].manifest.path@ == place.source@ {
        match place.line {
            Some(line) => {
                let all = lines(sources[0].snapshot@);
                let index = if line == 0 {
                    0
                } else {
                    line - 1
                };
                if index < all.len() {
                    Some(all[index as int])
                } else {
                    None
                }
            },
            None => None,
        }
    } else {
        line_of(sources.skip(1), place)
    }
}

/// What a source held at a line.
pub fn find_line(sources: &Vec<TrackedSource>, place: &SourceLocation) -> (r: Option<String>)
    ensures
        match r {
            Some(text) => line_of(sources@, *place) == Some(text@),
            None => line_of(sources@, *place) is None,
        },
{
    let mut i: usize = 0;
    assert(sources@.skip(0) =~= sources@);
    while i < sources.len()
        invariant
            0 <= i <= sources@.len(),
            line_of(sources@, *place) == line_of(sources@.skip(i as int), *place),
        decreases sources@.len() - i,
    {
        assert(sources@.skip(i as int)[0] == sources@[i as int]);
        assert(sources@.skip(i as int).skip(1) =~= sources@.skip(i + 1));
        if same(sources[i].manifest.path.as_str(), place.source.as_str()) {
            let line = match place.line {
                Some(line) => line,
                None => {
                    return None;
                },
            };
            let index: usize = if line == 0 {
                0
            } else {
                (line - 1) as usize
            };
            let all = lines_of(sources[i].snapshot.as_str());
            assert(all@.len() == views(all@).len());
            if index < all.len() {
                assert(views(all@)[index as int] == all@[index as int]@);
                return Some(all[index].clone());
            }
            return None;
        }
        i += 1;
    }
    None
}

/// What else is worth knowing of an error in Lua.
pub open spec fn lua_notes(frames: Seq<SourceLocation>, tail_call: bool) -> Seq<Seq<char>> {
    let called = if frames.len() > 1 && frames[0].source@ != frames[1].source@ {
        seq!["called from "@ + frames[1].text()]
    } else {
        Seq::empty()
    };
    if tail_call {
        called.push(
            "Lua reported a tail call; intermediate user frames may be unavailable"@,
        )
    } else {
        called
    }
}

/// Whether a diagnostic tells of an error in Lua.
pub open spec fn tells(
    r: Diagnostic,
    raw: Seq<char>,
    frames: Seq<SourceLocation>,
    tail_call: bool,
    sources: Seq<TrackedSource>,
) -> bool {
    &&& r.message@ == reason_of(raw)
    &&& same_source_locations(r.user_frames@, frames)
    &&& r.primary is Some <==> frames.len() > 0
    &&& r.primary matches Some(primary) ==> primary.same(frames[0])
    &&& match r.source_line {
        Some(text) => frames.len() > 0 && line_of(sources, frames[0]) == Some(text@),
        None => frames.len() == 0 || line_of(sources, frames[0]) is None,
    }
    &&& views(r.notes@) == lua_notes(frames, tail_call)
    &&& r.underlying matches Some(text) && text@ == raw
}

/// Tells of an error in Lua where it happened: at the innermost frame, or in the
/// file that could not be read as Lua.
pub fn lua_diagnostic(
    raw: &str,
    frames: &Vec<SourceLocation>,
    tail_call: bool,
    sources: &Vec<TrackedSource>,
) -> (r: WombatError)
    ensures
        r matches WombatError::Located(diagnostic) && tells(
            diagnostic,
            raw@,
            frames@,
            tail_call,
            sources@,
        ),
{
    let mut diagnostic = Diagnostic::new(clean_lua_reason(raw).as_str());
    assert(views(diagnostic.notes@) =~= Seq::empty());
    if frames.len() > 0 {
        diagnostic.primary = Some(frames[0].copy());
        diagnostic.source_line = find_line(sources, &frames[0]);
    }
    diagnostic.user_frames = copy_source_locations(frames);
    if frames.len() > 1 && !same(frames[0].source.as_str(), frames[1].source.as_str()) {
        let note = cat2("called from ", frames[1].display().as_str());
        crate::text::push_text(&mut diagnostic.notes, note.as_str());
        assert(views(diagnostic.notes@) =~= seq!["called from "@ + frames@[1].text()]);
    }
    if tail_call {
        crate::text::push_text(
            &mut diagnostic.notes,
            "Lua reported a tail call; intermediate user frames may be unavailable",
        );
    }
    diagnostic.underlying = Some(raw.to_string());
    WombatError::Located(diagnostic)
}

/// The frames of an error: those of the stack, or the file that could not be read as
/// Lua where there are none. `syntax` is the message about what is no Lua.
pub fn failure_frames(frames: Vec<SourceLocation>, fallback: Option<&str>, syntax: Option<&str>) -> (r: Vec<
    SourceLocation,
>)
    ensures
        if frames@.len() > 0 || fallback is None {
            r == frames
        } else {
            r@.len() == 1 && r@[0].source@ == fallback->0@ && r@[0].column is None && match syntax {
                Some(message) => match r@[0].line {
                    Some(line) => line_among(pieces(message@, ':')) == Some(line as nat),
                    None => line_among(pieces(message@, ':')) is None,
                },
                None => r@[0].line is None,
            }
        },
{
    if frames.len() > 0 {
        return frames;
    }
    match fallback {
        Some(path) => {
            let line = match syntax {
                Some(message) => parse_lua_line(message),
                None => None,
            };
            let mut own: Vec<SourceLocation> = Vec::new();
            own.push(SourceLocation { source: path.to_string(), line, column: None });
            own
        },
        None => frames,
    }
}

} // verus!
