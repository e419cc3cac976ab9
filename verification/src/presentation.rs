//! Colours, the levels of messages and what of them a person sees.
use vstd::prelude::*;
use vstd::string::*;

use crate::error::{is_configuration, is_policy, Result, WombatError};
use crate::json::{compact, compact_text};
use crate::lua::state::Location;
use crate::model::frozen::{frozen_value, FrozenValue};
use crate::model::selection::{lemma_piece_characters, lemma_pieces_joined};
use crate::text::{
    cat2, cat3, cat5, contains, cut, join, joined, lemma_joined_pieces, lemma_pieces, lemma_pieces_concat, occurs_at,
    pieces, same, split, split_once, starts_with, trim, trim_start, trimmed, trimmed_start, views,
};

verus! {

/// When output is coloured.
#[derive(Clone, Copy, Debug, PartialEq, Eq, Structural)]
pub enum ColorPolicy {
    /// On a terminal
    Auto,
    /// Always
    Always,
    /// Never
    Never,
}

/// How much a message matters.
#[derive(Clone, Copy, Debug, PartialEq, Eq, Structural)]
pub enum LogLevel {
    /// For who looks for a fault
    Debug,
    /// Of little matter
    Info,
    /// Worth a look
    Notice,
    /// Something may be wrong
    Warn,
    /// Something is wrong
    Error,
}

/// The level with a name.
pub open spec fn level_named(value: Seq<char>) -> Option<LogLevel> {
    if value == "debug"@ {
        Some(LogLevel::Debug)
    } else if value == "info"@ {
        Some(LogLevel::Info)
    } else if value == "notice"@ {
        Some(LogLevel::Notice)
    } else if value == "warn"@ {
        Some(LogLevel::Warn)
    } else if value == "error"@ {
        Some(LogLevel::Error)
    } else {
        None
    }
}

impl LogLevel {
    /// How much a message of this level matters, the least first.
    pub open spec fn weight(self) -> int {
        match self {
            LogLevel::Debug => 0,
            LogLevel::Info => 1,
            LogLevel::Notice => 2,
            LogLevel::Warn => 3,
            LogLevel::Error => 4,
        }
    }

    /// Reads a level.
    pub fn parse(value: &str) -> (r: Option<LogLevel>)
        ensures
            r == level_named(value@),
    {
        if same(value, "debug") {
            Some(LogLevel::Debug)
        } else if same(value, "info") {
            Some(LogLevel::Info)
        } else if same(value, "notice") {
            Some(LogLevel::Notice)
        } else if same(value, "warn") {
            Some(LogLevel::Warn)
        } else if same(value, "error") {
            Some(LogLevel::Error)
        } else {
            None
        }
    }

    fn rank(self) -> (r: u8)
        ensures
            r == self.weight(),
    {
        match self {
            LogLevel::Debug => 0,
            LogLevel::Info => 1,
            LogLevel::Notice => 2,
            LogLevel::Warn => 3,
            LogLevel::Error => 4,
        }
    }

    /// Whether a message of this level matters less.
    pub fn below(self, other: LogLevel) -> (r: bool)
        ensures
            r == (self.weight() < other.weight()),
    {
        self.rank() < other.rank()
    }
}

/// What a piece of output is.
#[derive(Clone, Copy, Debug, PartialEq, Eq, Structural)]
pub enum Role {
    /// Something went well
    Success,
    /// Something may be wrong
    Warning,
    /// Something is wrong
    Error,
    /// A path
    Path,
    /// An identity
    Identity,
    /// Of little matter
    Muted,
    /// A heading
    Heading,
}

/// Something that happened.
#[derive(Debug, PartialEq)]
pub enum Event {
    /// A message
    Log {
        /// Its level
        level: LogLevel,
        /// What it says
        message: String,
    },
    /// What is going on
    Progress(String),
}

/// Puts output in colours, or does not.
#[derive(Clone, Copy, Debug, PartialEq, Eq, Structural)]
pub struct Presenter {
    /// Whether it does
    pub color: bool,
}

/// The escape code of a role.
pub open spec fn code_of(role: Role) -> Seq<char> {
    match role {
        Role::Success => "32"@,
        Role::Warning => "33"@,
        Role::Error => "31"@,
        Role::Path => "36"@,
        Role::Identity => "34"@,
        Role::Muted => "2"@,
        Role::Heading => "1"@,
    }
}

/// Text in the colour of its role, and the colour reset behind it.
pub open spec fn painted(role: Role, value: Seq<char>) -> Seq<char> {
    "\u{1b}["@ + code_of(role) + "m"@ + value + "\u{1b}[0m"@
}

/// The name of an action in the colour of its role and what it acts on as a path.
pub open spec fn action_styled(body: Seq<char>, role: Role) -> Seq<char> {
    match cut(body, ' ') {
        None => painted(role, body),
        Some(parts) => painted(role, parts.0) + " "@ + painted(Role::Path, parts.1),
    }
}

/// How a line is styled.
pub enum Style {
    /// As an action on something
    Action(Role),
    /// As a whole
    Whole(Role),
    /// Not at all
    Plain,
}

/// Whether text occurs in a line.
pub open spec fn mentions(body: Seq<char>, part: Seq<char>) -> bool {
    exists|i: int| occurs_at(body, part, i)
}

/// Whether a line begins so.
pub open spec fn begins(body: Seq<char>, start: Seq<char>) -> bool {
    start.is_prefix_of(body)
}

/// The style of a line that tells what is being done to the target.
pub open spec fn action_style(body: Seq<char>) -> Style {
    if begins(body, "Create "@) || begins(body, "Adopt "@) {
        Style::Action(Role::Success)
    } else if begins(trimmed_start(body), "satisfied "@) {
        Style::Whole(Role::Success)
    } else if begins(trimmed_start(body), "missing "@) || begins(
        trimmed_start(body),
        "outdated "@,
    ) {
        Style::Whole(Role::Warning)
    } else if begins(trimmed_start(body), "unavailable "@) {
        Style::Whole(Role::Error)
    } else if begins(body, "Update "@) || begins(body, "AdvanceState "@) || begins(
        body,
        "Forget "@,
    ) || begins(body, "Remove "@) {
        Style::Action(Role::Warning)
    } else if begins(body, "Conflict "@) || begins(body, "error:"@) {
        Style::Action(Role::Error)
    } else {
        Style::Plain
    }
}

/// The style of a line of a difference or of details.
pub open spec fn detail_style(body: Seq<char>) -> Style {
    if begins(body, "--- "@) || begins(body, "+++ "@) || begins(body, "@@"@) {
        Style::Whole(Role::Identity)
    } else if begins(body, "+"@) {
        Style::Whole(Role::Success)
    } else if begins(body, "-"@) {
        Style::Whole(Role::Error)
    } else if begins(body, "  owner:"@) || begins(body, "  source:"@) || begins(
        body,
        "  production:"@,
    ) {
        Style::Whole(Role::Muted)
    } else if begins(body, "  conflict:"@) {
        Style::Whole(Role::Error)
    } else {
        Style::Plain
    }
}

/// The style of a heading or of an option.
pub open spec fn heading_style(body: Seq<char>) -> Style {
    if mentions(body, " changes:"@) || body == "No differences."@ || body
        == "Repository build inputs"@ || body == "Options:"@ || begins(body, "Usage:"@) || begins(
        body,
        "requirements for "@,
    ) || begins(body, "bootstrap will reconcile:"@) {
        Style::Whole(Role::Heading)
    } else if begins(trimmed_start(body), "-"@) && mentions(body, "--"@) {
        Style::Whole(Role::Identity)
    } else {
        Style::Plain
    }
}

/// The style of a line: the first that fits.
pub open spec fn style_of(body: Seq<char>) -> Style {
    if !(action_style(body) is Plain) {
        action_style(body)
    } else if !(detail_style(body) is Plain) {
        detail_style(body)
    } else {
        heading_style(body)
    }
}

/// A line in its style.
pub open spec fn styled(body: Seq<char>) -> Seq<char> {
    match style_of(body) {
        Style::Action(role) => action_styled(body, role),
        Style::Whole(role) => painted(role, body),
        Style::Plain => body,
    }
}

/// Lines in their styles.
pub open spec fn styled_lines(lines: Seq<Seq<char>>) -> Seq<Seq<char>> {
    Seq::new(lines.len(), |i: int| styled(lines[i]))
}

/// Output in colours: every line in its style.
pub open spec fn coloured(output: Seq<char>) -> Seq<char> {
    joined(styled_lines(pieces(output, '\n')), "\n"@)
}

impl Presenter {
    /// Decides whether output is coloured. `no_color` tells whether the environment
    /// asks for none.
    pub fn new(policy: ColorPolicy, terminal: bool, no_color: bool) -> (r: Presenter)
        ensures
            r.color == (policy == ColorPolicy::Always || (policy == ColorPolicy::Auto && terminal
                && !no_color)),
    {
        let color = match policy {
            ColorPolicy::Always => true,
            ColorPolicy::Never => false,
            ColorPolicy::Auto => terminal && !no_color,
        };
        Presenter { color }
    }

    /// Whether output is coloured.
    pub fn color_enabled(self) -> (r: bool)
        ensures
            r == self.color,
    {
        self.color
    }

    /// Puts text in the colour of its role.
    pub fn paint(self, role: Role, value: &str) -> (r: String)
        ensures
            r@ == if self.color {
                painted(role, value@)
            } else {
                value@
            },
    {
        if !self.color {
            return value.to_string();
        }
        let code = match role {
            Role::Success => "32",
            Role::Warning => "33",
            Role::Error => "31",
            Role::Path => "36",
            Role::Identity => "34",
            Role::Muted => "2",
            Role::Heading => "1",
        };
        cat5("\u{1b}[", code, "m", value, "\u{1b}[0m")
    }

    fn style_action(self, body: &str, role: Role) -> (r: String)
        requires
            self.color,
        ensures
            r@ == action_styled(body@, role),
    {
        match split_once(body, ' ') {
            None => self.paint(role, body),
            Some((action, target)) => cat3(
                self.paint(role, action.as_str()).as_str(),
                " ",
                self.paint(Role::Path, target.as_str()).as_str(),
            ),
        }
    }

    fn style_line(self, body: &str) -> (r: String)
        requires
            self.color,
        ensures
            r@ == styled(body@),
    {
        let text = trim_start(body);
        let start = text.as_str();
        if starts_with(body, "Create ") || starts_with(body, "Adopt ") {
            self.style_action(body, Role::Success)
        } else if starts_with(start, "satisfied ") {
            self.paint(Role::Success, body)
        } else if starts_with(start, "missing ") || starts_with(start, "outdated ") {
            self.paint(Role::Warning, body)
        } else if starts_with(start, "unavailable ") {
            self.paint(Role::Error, body)
        } else if starts_with(body, "Update ") || starts_with(body, "AdvanceState ")
            || starts_with(body, "Forget ") || starts_with(body, "Remove ") {
            self.style_action(body, Role::Warning)
        } else if starts_with(body, "Conflict ") || starts_with(body, "error:") {
            self.style_action(body, Role::Error)
        } else if starts_with(body, "--- ") || starts_with(body, "+++ ") || starts_with(
            body,
            "@@",
        ) {
            self.paint(Role::Identity, body)
        } else if starts_with(body, "+") {
            self.paint(Role::Success, body)
        } else if starts_with(body, "-") {
            self.paint(Role::Error, body)
        } else if starts_with(body, "  owner:") || starts_with(body, "  source:") || starts_with(
            body,
            "  production:",
        ) {
            self.paint(Role::Muted, body)
        } else if starts_with(body, "  conflict:") {
            self.paint(Role::Error, body)
        } else if contains(body, " changes:") || same(body, "No differences.") || same(
            body,
            "Repository build inputs",
        ) || same(body, "Options:") || starts_with(body, "Usage:") || starts_with(
            body,
            "requirements for ",
        ) || starts_with(body, "bootstrap will reconcile:") {
            self.paint(Role::Heading, body)
        } else if starts_with(start, "-") && contains(body, "--") {
            self.paint(Role::Identity, body)
        } else {
            body.to_string()
        }
    }

    /// Puts output in colours, line by line.
    pub fn human_output(self, output: &str) -> (r: String)
        ensures
            r@ == if self.color {
                coloured(output@)
            } else {
                output@
            },
    {
        if !self.color {
            return output.to_string();
        }
        let lines = split(output, '\n');
        let ghost all = pieces(output@, '\n');
        assert(lines@.len() == views(lines@).len());
        let mut rendered: Vec<String> = Vec::new();
        let mut i: usize = 0;
        while i < lines.len()
            invariant
                0 <= i <= lines@.len(),
                self.color,
                views(lines@) == all,
                lines@.len() == all.len(),
                rendered@.len() == i,
                forall|j: int| 0 <= j < i ==> (#[trigger] rendered@[j])@ == styled(all[j]),
            decreases lines@.len() - i,
        {
            assert(views(lines@)[i as int] == lines@[i as int]@);
            let line = self.style_line(lines[i].as_str());
            rendered.push(line);
            i += 1;
        }
        assert(views(rendered@) =~= styled_lines(all));
        join(&rendered, "\n")
    }
}

/// The role of an event.
pub open spec fn event_role(event: Event) -> Role {
    match event {
        Event::Log { level, message: _ } => match level {
            LogLevel::Warn => Role::Warning,
            LogLevel::Error => Role::Error,
            _ => Role::Muted,
        },
        Event::Progress(_) => Role::Muted,
    }
}

/// What an event says.
pub open spec fn event_message(event: Event) -> Seq<char> {
    match event {
        Event::Log { level: _, message } => message@,
        Event::Progress(message) => message@,
    }
}

/// The line that a person sees of an event: none where nobody shows them.
pub fn announced(presenter: Option<Presenter>, event: &Event) -> (r: Option<String>)
    ensures
        match presenter {
            None => r is None,
            Some(presenter) => r matches Some(line) && line@ == if presenter.color {
                painted(event_role(*event), event_message(*event))
            } else {
                event_message(*event)
            },
        },
{
    match presenter {
        None => None,
        Some(presenter) => match event {
            Event::Log { level, message } => {
                let role = match level {
                    LogLevel::Warn => Role::Warning,
                    LogLevel::Error => Role::Error,
                    _ => Role::Muted,
                };
                Some(presenter.paint(role, message.as_str()))
            },
            Event::Progress(message) => Some(presenter.paint(Role::Muted, message.as_str())),
        },
    }
}

/// Whether a person can be asked.
pub fn can_confirm(shown: bool, terminal: bool, operation: &str) -> (r: Result<()>)
    ensures
        if shown && terminal {
            r is Ok
        } else {
            r is Err && is_policy(
                r->Err_0,
                operation@ + " requires --yes when interactive confirmation is unavailable"@,
            )
        },
{
    if !shown || !terminal {
        return Err(
            WombatError::Policy(
                cat2(
                    operation,
                    " requires --yes when interactive confirmation is unavailable",
                ),
            ),
        );
    }
    Ok(())
}

/// Whether an answer means yes.
pub open spec fn means_yes(answer: Seq<char>) -> bool {
    let word = trimmed(answer);
    word == "y"@ || word == "Y"@ || word == "yes"@ || word == "YES"@
}

/// Goes on only where the answer means yes.
pub fn confirm(answer: &str, operation: &str) -> (r: Result<()>)
    ensures
        if means_yes(answer@) {
            r is Ok
        } else {
            r is Err && is_policy(r->Err_0, operation@ + " cancelled"@)
        },
{
    let word = trim(answer);
    if same(word.as_str(), "y") || same(word.as_str(), "Y") || same(word.as_str(), "yes") || same(
        word.as_str(),
        "YES",
    ) {
        return Ok(());
    }
    Err(WombatError::Policy(cat2(operation, " cancelled")))
}

/// Whether the outcome of logging from policy is what it should be.
pub open spec fn log_outcome(
    r: Result<Option<Event>>,
    level: Seq<char>,
    threshold: LogLevel,
    message: Seq<char>,
    fields: Option<Result<FrozenValue>>,
    place: Seq<char>,
) -> bool {
    match level_named(level) {
        None => r is Err && is_configuration(r->Err_0, "unknown log level `"@ + level + "`"@),
        Some(known) => if known.weight() < threshold.weight() {
            r is Ok && r->Ok_0 is None
        } else {
            match fields {
                Some(Err(error)) => r is Err && r->Err_0 == error,
                _ => {
                    let told = match fields {
                        Some(Ok(value)) => " "@ + compact(value.tree()),
                        _ => Seq::empty(),
                    };
                    r matches Ok(Some(Event::Log { level: l, message: m })) && l == known && m@
                        == message + told + " ("@ + place + ")"@
                },
            }
        },
    }
}

/// What a message from policy is to say: nothing where its level does not matter
/// enough. `fields` are those it was given, as far as they could be frozen.
pub fn emit_lua_log(
    level: &str,
    threshold: LogLevel,
    message: &str,
    fields: Option<Result<FrozenValue>>,
    location: &Location,
) -> (r: Result<Option<Event>>)
    ensures
        log_outcome(r, level@, threshold, message@, fields, location.trace.text()),
{
    let known = match LogLevel::parse(level) {
        Some(known) => known,
        None => {
            return Err(
                WombatError::Configuration(cat3("unknown log level `", level, "`")),
            );
        },
    };
    if known.below(threshold) {
        return Ok(None);
    }
    let told = match fields {
        None => String::new(),
        Some(fields) => {
            let value = fields?;
            cat2(" ", compact_text(&frozen_value(&value)).as_str())
        },
    };
    Ok(
        Some(
            Event::Log {
                level: known,
                message: cat5(message, told.as_str(), " (", location.display().as_str(), ")"),
            },
        ),
    )
}

/// Colours end where lines end: output made of lines is coloured line by line.
pub proof fn law_lines_are_coloured_apart(a: Seq<char>, b: Seq<char>)
    ensures
        coloured(a.push('\n') + b) == coloured(a) + "\n"@ + coloured(b),
{
    lemma_pieces_concat(a, b, '\n');
    lemma_pieces(a, '\n');
    lemma_pieces(b, '\n');
    let x = styled_lines(pieces(a, '\n'));
    let y = styled_lines(pieces(b, '\n'));
    assert(styled_lines(pieces(a, '\n') + pieces(b, '\n')) =~= x + y);
    lemma_joined_concat(x, y, "\n"@);
}

/// Whether a character is a decimal digit.
pub open spec fn is_digit(c: char) -> bool {
    '0' <= c && c <= '9'
}

/// How many decimal digits text begins with.
pub open spec fn leading_digits(text: Seq<char>) -> int
    decreases text.len(),
{
    if text.len() > 0 && is_digit(text[0]) {
        1 + leading_digits(text.skip(1))
    } else {
        0
    }
}

/// How long the colour sequence is that text begins with: an escape character, a bracket,
/// digits and `m`. Zero, where it begins with none.
pub open spec fn sequence_length(text: Seq<char>) -> int {
    if text.len() > 2 && text[0] == '\u{1b}' && text[1] == '[' {
        let digits = leading_digits(text.skip(2));
        if 2 + digits < text.len() && text[2 + digits] == 'm' {
            3 + digits
        } else {
            0
        }
    } else {
        0
    }
}

/// Text without its colour sequences.
pub open spec fn bare(text: Seq<char>) -> Seq<char>
    decreases text.len(),
{
    if text.len() == 0 {
        Seq::empty()
    } else if sequence_length(text) > 0 {
        bare(text.skip(sequence_length(text)))
    } else {
        seq![text[0]] + bare(text.skip(1))
    }
}

/// Whether a style is open at the end of text, where one is at its beginning or not: the
/// sequence of zero closes, every other opens.
pub open spec fn style_open(text: Seq<char>, open: bool) -> bool
    decreases text.len(),
{
    if text.len() == 0 {
        open
    } else if sequence_length(text) > 0 {
        style_open(
            text.skip(sequence_length(text)),
            text.subrange(2, sequence_length(text) - 1) != "0"@,
        )
    } else {
        style_open(text.skip(1), open)
    }
}

/// Colours add nothing but colour sequences: output that holds no escape character is
/// what its coloured form is without them.
pub proof fn law_colours_leave_the_text(output: Seq<char>)
    requires
        !output.contains('\u{1b}'),
    ensures
        bare(coloured(output)) == output,
{
    let all = pieces(output, '\n');
    lemma_pieces(output, '\n');
    reveal_strlit("\n");
    assert("\n"@ =~= seq!['\n']);
    assert forall|i: int| 0 <= i < all.len() implies !(#[trigger] all[i]).contains('\u{1b}') by {
        lemma_piece_characters(output, '\n', '\u{1b}', i);
    }
    lemma_bare_lines(all, Seq::empty());
    assert(coloured(output) + Seq::<char>::empty() =~= coloured(output));
    assert(bare(Seq::empty()) =~= Seq::<char>::empty());
    lemma_joined_pieces(output, '\n');
    assert(joined(all, "\n"@) + Seq::<char>::empty() =~= output);
}

/// Every line closes the styles that it opens: coloured output has the lines of the
/// output in their styles, and at the end of none of them a style is open.
pub proof fn law_lines_close_their_styles(output: Seq<char>)
    requires
        !output.contains('\u{1b}'),
    ensures
        pieces(coloured(output), '\n').len() == pieces(output, '\n').len(),
        forall|i: int|
            0 <= i < pieces(output, '\n').len() ==> pieces(coloured(output), '\n')[i] == styled(
                #[trigger] pieces(output, '\n')[i],
            ),
        forall|i: int|
            0 <= i < pieces(coloured(output), '\n').len() ==> !style_open(
                #[trigger] pieces(coloured(output), '\n')[i],
                false,
            ),
{
    let all = pieces(output, '\n');
    let lines = styled_lines(all);
    lemma_pieces(output, '\n');
    reveal_strlit("\n");
    assert("\n"@ =~= seq!['\n']);
    assert forall|i: int| 0 <= i < all.len() implies !(#[trigger] lines[i]).contains('\n')
        && !style_open(lines[i], false) by {
        assert(!all[i].contains('\n'));
        lemma_piece_characters(output, '\n', '\u{1b}', i);
        lemma_styled(all[i], Seq::empty());
        lemma_styled_newline(all[i]);
        assert(styled(all[i]) + Seq::<char>::empty() =~= styled(all[i]));
    }
    lemma_pieces_joined(lines, '\n');
}

/// Digits are counted up to what is none.
proof fn lemma_leading_digits(digits: Seq<char>, rest: Seq<char>)
    requires
        forall|i: int| 0 <= i < digits.len() ==> is_digit(#[trigger] digits[i]),
        rest.len() > 0,
        !is_digit(rest[0]),
    ensures
        leading_digits(digits + rest) == digits.len(),
    decreases digits.len(),
{
    if digits.len() > 0 {
        assert((digits + rest).skip(1) =~= digits.skip(1) + rest);
        assert(is_digit(digits[0]));
        assert forall|i: int| 0 <= i < digits.skip(1).len() implies is_digit(
            #[trigger] digits.skip(1)[i],
        ) by {
            assert(is_digit(digits[i + 1]));
        }
        lemma_leading_digits(digits.skip(1), rest);
    } else {
        assert(digits + rest =~= rest);
    }
}

/// A colour sequence is taken out, and says whether a style is open.
proof fn lemma_sequence(digits: Seq<char>, rest: Seq<char>, open: bool)
    requires
        forall|i: int| 0 <= i < digits.len() ==> is_digit(#[trigger] digits[i]),
    ensures
        ({
            let text = "\u{1b}["@ + digits + "m"@ + rest;
            &&& bare(text) == bare(rest)
            &&& style_open(text, open) == style_open(rest, digits != "0"@)
        }),
{
    reveal_strlit("\u{1b}[");
    reveal_strlit("m");
    let text = "\u{1b}["@ + digits + "m"@ + rest;
    let tail = "m"@ + rest;
    assert(text.skip(2) =~= digits + tail);
    assert(tail[0] == 'm');
    lemma_leading_digits(digits, tail);
    assert(text[0] == '\u{1b}' && text[1] == '[');
    assert(text[2 + digits.len() as int] == 'm');
    assert(sequence_length(text) == 3 + digits.len());
    assert(text.skip(3 + digits.len() as int) =~= rest);
    assert(text.subrange(2, 2 + digits.len() as int) =~= digits);
}

/// Text without an escape character stays.
proof fn lemma_plain(text: Seq<char>, rest: Seq<char>, open: bool)
    requires
        !text.contains('\u{1b}'),
    ensures
        bare(text + rest) == text + bare(rest),
        style_open(text + rest, open) == style_open(rest, open),
    decreases text.len(),
{
    if text.len() > 0 {
        assert(text.contains(text[0]));
        assert((text + rest)[0] == text[0]);
        assert((text + rest).skip(1) =~= text.skip(1) + rest);
        assert forall|i: int| 0 <= i < text.skip(1).len() implies text.skip(1)[i] != '\u{1b}' by {
            assert(text.contains(text[i + 1]));
        }
        lemma_plain(text.skip(1), rest, open);
        assert(seq![text[0]] + (text.skip(1) + bare(rest)) =~= text + bare(rest));
    } else {
        assert(text + rest =~= rest);
        assert(text + bare(rest) =~= bare(rest));
    }
}

proof fn lemma_code(role: Role)
    ensures
        forall|i: int| 0 <= i < code_of(role).len() ==> is_digit(#[trigger] code_of(role)[i]),
        code_of(role) != "0"@,
{
    reveal_strlit("32");
    reveal_strlit("33");
    reveal_strlit("31");
    reveal_strlit("36");
    reveal_strlit("34");
    reveal_strlit("2");
    reveal_strlit("1");
    reveal_strlit("0");
    assert("0"@[0] == '0');
    assert(code_of(role)[0] != '0');
}

/// What is painted stays and is closed.
proof fn lemma_painted(role: Role, value: Seq<char>, rest: Seq<char>, open: bool)
    requires
        !value.contains('\u{1b}'),
    ensures
        bare(painted(role, value) + rest) == value + bare(rest),
        style_open(painted(role, value) + rest, open) == style_open(rest, false),
{
    let close = "\u{1b}["@ + "0"@ + "m"@ + rest;
    lemma_code(role);
    reveal_strlit("0");
    reveal_strlit("m");
    reveal_strlit("\u{1b}[");
    reveal_strlit("\u{1b}[0m");
    assert("\u{1b}[0m"@ + rest =~= close);
    lemma_sequence("0"@, rest, true);
    lemma_plain(value, close, true);
    lemma_sequence(code_of(role), value + close, open);
    assert(painted(role, value) + rest =~= "\u{1b}["@ + code_of(role) + "m"@ + (value + close));
}

/// What stands before the first separator is the first piece.
proof fn lemma_cut(text: Seq<char>, separator: char)
    ensures
        ({
            let all = pieces(text, separator);
            let front = all[0];
            &&& all.len() > 0
            &&& front.len() <= text.len()
            &&& text.take(front.len() as int) == front
            &&& all.len() == 1 ==> front == text
            &&& all.len() > 1 ==> front.len() < text.len() && text[front.len() as int] == separator
        }),
    decreases text.len(),
{
    lemma_pieces(text, separator);
    if text.len() > 0 {
        let shorter = text.drop_last();
        lemma_cut(shorter, separator);
        lemma_pieces(shorter, separator);
        let front = pieces(shorter, separator)[0];
        assert(text.take(front.len() as int) =~= shorter.take(front.len() as int));
        if pieces(shorter, separator).len() == 1 && text.last() != separator {
            assert(front.push(text.last()) =~= text);
            assert(text.take(text.len() as int) =~= text);
        }
    } else {
        assert(text =~= Seq::<char>::empty());
        assert(text.take(0) =~= text);
    }
}

/// A line in its style is the line without colour sequences, and no style is open behind
/// it.
proof fn lemma_styled(line: Seq<char>, rest: Seq<char>)
    requires
        !line.contains('\u{1b}'),
    ensures
        bare(styled(line) + rest) == line + bare(rest),
        style_open(styled(line) + rest, false) == style_open(rest, false),
{
    match style_of(line) {
        Style::Plain => {
            lemma_plain(line, rest, false);
        },
        Style::Whole(role) => {
            lemma_painted(role, line, rest, false);
        },
        Style::Action(role) => {
            lemma_cut(line, ' ');
            match cut(line, ' ') {
                None => {
                    lemma_painted(role, line, rest, false);
                },
                Some(parts) => {
                    reveal_strlit(" ");
                    assert forall|i: int| 0 <= i < parts.0.len() implies parts.0[i] != '\u{1b}' by {
                        assert(line.contains(line[i]));
                        assert(line.take(parts.0.len() as int)[i] == line[i]);
                    }
                    assert forall|i: int| 0 <= i < parts.1.len() implies parts.1[i] != '\u{1b}' by {
                        assert(line.contains(line[parts.0.len() + 1 + i]));
                    }
                    let tail = painted(Role::Path, parts.1) + rest;
                    lemma_painted(Role::Path, parts.1, rest, false);
                    lemma_plain(" "@, tail, false);
                    lemma_painted(role, parts.0, " "@ + tail, false);
                    assert(styled(line) + rest =~= painted(role, parts.0) + (" "@ + tail));
                    assert(parts.0 + (" "@ + (parts.1 + bare(rest))) =~= line + bare(rest));
                },
            }
        },
    }
}

proof fn lemma_painted_newline(role: Role, value: Seq<char>)
    requires
        !value.contains('\n'),
    ensures
        !painted(role, value).contains('\n'),
{
    reveal_strlit("m");
    reveal_strlit("\u{1b}[");
    reveal_strlit("\u{1b}[0m");
    lemma_code(role);
    let code = code_of(role);
    let text = painted(role, value);
    assert forall|i: int| 0 <= i < text.len() implies text[i] != '\n' by {
        if i < 2 {
            assert(text[i] == "\u{1b}["@[i]);
        } else if i < 2 + code.len() {
            assert(text[i] == code[i - 2]);
        } else if i < 3 + code.len() {
            assert(text[i] == 'm');
        } else if i < 3 + code.len() + value.len() {
            assert(text[i] == value[i - 3 - code.len()]);
        } else {
            assert(text[i] == "\u{1b}[0m"@[i - 3 - code.len() - value.len()]);
        }
    }
}

/// A line stays one line in its style.
proof fn lemma_styled_newline(line: Seq<char>)
    requires
        !line.contains('\n'),
    ensures
        !styled(line).contains('\n'),
{
    match style_of(line) {
        Style::Plain => {},
        Style::Whole(role) => {
            lemma_painted_newline(role, line);
        },
        Style::Action(role) => {
            lemma_cut(line, ' ');
            match cut(line, ' ') {
                None => {
                    lemma_painted_newline(role, line);
                },
                Some(parts) => {
                    reveal_strlit(" ");
                    assert forall|i: int| 0 <= i < parts.0.len() implies parts.0[i] != '\n' by {
                        assert(line.contains(line[i]));
                        assert(line.take(parts.0.len() as int)[i] == line[i]);
                    }
                    assert forall|i: int| 0 <= i < parts.1.len() implies parts.1[i] != '\n' by {
                        assert(line.contains(line[parts.0.len() + 1 + i]));
                    }
                    lemma_painted_newline(role, parts.0);
                    lemma_painted_newline(Role::Path, parts.1);
                    let a = painted(role, parts.0);
                    let b = painted(Role::Path, parts.1);
                    let text = a + " "@ + b;
                    assert forall|i: int| 0 <= i < text.len() implies text[i] != '\n' by {
                        if i < a.len() {
                            assert(a.contains(a[i]));
                        } else if i > a.len() {
                            assert(b.contains(b[i - a.len() - 1]));
                        }
                    }
                },
            }
        },
    }
}

/// Lines in their styles are the lines without colour sequences.
proof fn lemma_bare_lines(lines: Seq<Seq<char>>, rest: Seq<char>)
    requires
        lines.len() > 0,
        forall|i: int| 0 <= i < lines.len() ==> !(#[trigger] lines[i]).contains('\u{1b}'),
    ensures
        bare(joined(styled_lines(lines), "\n"@) + rest) == joined(lines, "\n"@) + bare(rest),
    decreases lines.len(),
{
    let all = styled_lines(lines);
    let last = (lines.len() - 1) as int;
    assert(!lines[last].contains('\u{1b}'));
    lemma_styled(lines.last(), rest);
    if lines.len() > 1 {
        let shorter = lines.drop_last();
        let tail = "\n"@ + (styled(lines.last()) + rest);
        assert forall|i: int| 0 <= i < shorter.len() implies !(#[trigger] shorter[i]).contains(
            '\u{1b}',
        ) by {
            assert(!lines[i].contains('\u{1b}'));
        }
        reveal_strlit("\n");
        assert(all.drop_last() =~= styled_lines(shorter));
        lemma_plain("\n"@, styled(lines.last()) + rest, false);
        lemma_bare_lines(shorter, tail);
        assert(joined(all, "\n"@) + rest =~= joined(styled_lines(shorter), "\n"@) + tail);
        assert(joined(lines, "\n"@) + bare(rest) =~= joined(shorter, "\n"@) + ("\n"@ + (lines.last()
            + bare(rest))));
    }
}

/// What is joined from two lists is what is joined from each.
proof fn lemma_joined_concat(x: Seq<Seq<char>>, y: Seq<Seq<char>>, separator: Seq<char>)
    requires
        x.len() > 0,
        y.len() > 0,
    ensures
        joined(x + y, separator) == joined(x, separator) + separator + joined(y, separator),
    decreases y.len(),
{
    assert((x + y).drop_last() =~= x + y.drop_last());
    if y.len() == 1 {
        assert(y.drop_last() =~= Seq::empty());
        assert(x + y.drop_last() =~= x);
        assert((x + y).last() == y[0]);
    } else {
        lemma_joined_concat(x, y.drop_last(), separator);
        assert(joined(x + y, separator) =~= joined(x, separator) + separator + joined(
            y,
            separator,
        ));
    }
}

} // verus!
