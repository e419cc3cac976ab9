//! Source selectors: how a declared selector names physical sources, and what a
//! physical source stands for.
//!
//! The metadata of a source is written at the front of each component of its
//! physical path. `dot_` stands for a leading dot, `unalloc_` leaves the source
//! without a target of its own, and `literal_` ends the metadata.
use globset::{Glob, GlobSet};
use vstd::prelude::*;
use vstd::string::*;

use crate::error::{
    first, first_among, lemma_first_among, problem_if, reports, Result, WombatError,
};
use crate::glob::{
    any_matches, compile_globs, glob_refusal, glob_rules, parse_glob, set_matches, set_refusal,
    set_rules, GlobRule,
};
use crate::model::manifest::{SourceAttribute, SourceComponent, SourceProjection};
use crate::model::path::{ordinary, relative_problem, valid_relative, validate_relative_path};
use crate::text::{
    cat2, cat3, cat5, chars_of, contains_char, find, first_occurrence, join, joined, occurs_at,
    pieces, repeat, repeated, replace_char, replaced, same, split, starts_with, strip_prefix,
    text_of, views,
};

verus! {

/// The mark of a leading dot.
pub open spec fn dot_mark() -> Seq<char> {
    seq!['d', 'o', 't', '_']
}

/// The mark of a source without a target of its own.
pub open spec fn unalloc_mark() -> Seq<char> {
    seq!['u', 'n', 'a', 'l', 'l', 'o', 'c', '_']
}

/// The mark that ends the metadata.
pub open spec fn literal_mark() -> Seq<char> {
    seq!['l', 'i', 't', 'e', 'r', 'a', 'l', '_']
}

proof fn lemma_marks()
    ensures
        "dot_"@ == dot_mark(),
        "unalloc_"@ == unalloc_mark(),
        "literal_"@ == literal_mark(),
        "."@ == seq!['.'],
        ".."@ == seq!['.', '.'],
        "/"@ == seq!['/'],
        ""@ == Seq::<char>::empty(),
{
    reveal_strlit("dot_");
    reveal_strlit("unalloc_");
    reveal_strlit("literal_");
    reveal_strlit(".");
    reveal_strlit("..");
    reveal_strlit("/");
    reveal_strlit("");
    assert("dot_"@ =~= dot_mark());
    assert("unalloc_"@ =~= unalloc_mark());
    assert("literal_"@ =~= literal_mark());
    assert("."@ =~= seq!['.']);
    assert(".."@ =~= seq!['.', '.']);
    assert("/"@ =~= seq!['/']);
    assert(""@ =~= Seq::<char>::empty());
}

/// A selector in all its forms.
#[derive(Debug, PartialEq)]
pub struct CompiledSelector {
    /// As declared
    pub declared: String,
    /// With its shorthands written out
    pub expanded: String,
    /// In physical names
    pub physical: String,
    /// Whether it may name hidden components
    pub hidden: bool,
    /// Whether it is a pattern
    pub glob: bool,
    /// The components before the first pattern
    pub static_root: String,
}

/// Whether a component is hidden.
pub open spec fn hidden_component(component: Seq<char>) -> bool {
    component.len() > 0 && component[0] == '.'
}

/// Whether a component is hidden.
pub fn is_hidden_component(component: &str) -> (r: bool)
    ensures
        r == hidden_component(component@),
{
    component.unicode_len() > 0 && component.get_char(0) == '.'
}

/// Whether a character is part of the glob syntax.
pub open spec fn glob_character(c: char) -> bool {
    c == '*' || c == '?' || c == '[' || c == ']'
}

/// Whether text holds glob syntax.
pub open spec fn globbed(value: Seq<char>) -> bool {
    exists|i: int| 0 <= i < value.len() && glob_character(#[trigger] value[i])
}

/// Whether text holds glob syntax.
pub fn contains_glob(value: &str) -> (r: bool)
    ensures
        r == globbed(value@),
{
    let chars = chars_of(value);
    let mut i: usize = 0;
    while i < chars.len()
        invariant
            0 <= i <= chars@.len(),
            chars@ == value@,
            forall|j: int| 0 <= j < i ==> !glob_character(#[trigger] value@[j]),
        decreases chars@.len() - i,
    {
        let c = chars[i];
        if c == '*' || c == '?' || c == '[' || c == ']' {
            assert(glob_character(value@[i as int]));
            return true;
        }
        i += 1;
    }
    false
}

/// What the front of a component says.
pub enum Metadata {
    /// The mark of an unallocated source stands there twice
    Repeated,
    /// Attributes, how many dots, and the rest
    Parsed { attributes: Seq<SourceAttribute>, dots: nat, payload: Seq<char> },
}

/// An attribute before others.
pub open spec fn after(attribute: SourceAttribute, rest: Metadata) -> Metadata {
    match rest {
        Metadata::Repeated => Metadata::Repeated,
        Metadata::Parsed { attributes, dots, payload } => Metadata::Parsed {
            attributes: seq![attribute] + attributes,
            dots: if attribute == SourceAttribute::Dot {
                dots + 1
            } else {
                dots
            },
            payload,
        },
    }
}

/// Reads the metadata of a component.
pub open spec fn metadata(rest: Seq<char>, unallocated: bool) -> Metadata
    decreases rest.len(),
{
    if dot_mark().is_prefix_of(rest) {
        after(SourceAttribute::Dot, metadata(rest.skip(4), unallocated))
    } else if unalloc_mark().is_prefix_of(rest) {
        if unallocated {
            Metadata::Repeated
        } else {
            after(SourceAttribute::Unallocated, metadata(rest.skip(8), true))
        }
    } else if literal_mark().is_prefix_of(rest) {
        after(
            SourceAttribute::Literal,
            Metadata::Parsed { attributes: Seq::empty(), dots: 0, payload: rest.skip(8) },
        )
    } else {
        Metadata::Parsed { attributes: Seq::empty(), dots: 0, payload: rest }
    }
}

/// The name that a component stands for.
pub open spec fn logical_name(component: Seq<char>) -> Seq<char> {
    match metadata(component, false) {
        Metadata::Repeated => component,
        Metadata::Parsed { attributes, dots, payload } => repeated(seq!['.'], dots) + payload,
    }
}

/// The attributes of a component.
pub open spec fn attributes_of(component: Seq<char>) -> Seq<SourceAttribute> {
    match metadata(component, false) {
        Metadata::Repeated => Seq::empty(),
        Metadata::Parsed { attributes, dots, payload } => attributes,
    }
}

/// What is wrong with a component.
pub open spec fn component_problem(component: Seq<char>) -> Option<Seq<char>> {
    match metadata(component, false) {
        Metadata::Repeated => Some(
            "source component `"@ + component + "` repeats non-repeatable `unalloc_` metadata"@,
        ),
        Metadata::Parsed { attributes, dots, payload } => first(
            problem_if(
                payload.len() == 0,
                "source component `"@ + component + "` has metadata but no payload name"@,
            ),
            problem_if(
                logical_name(component) == "."@ || logical_name(component) == ".."@,
                "source component `"@ + component + "` resolves to forbidden target component `"@
                    + logical_name(component) + "`"@,
            ),
        ),
    }
}

/// Attributes before others.
pub open spec fn after_all(attributes: Seq<SourceAttribute>, dots: nat, rest: Metadata) -> Metadata {
    match rest {
        Metadata::Repeated => Metadata::Repeated,
        Metadata::Parsed { attributes: more, dots: further, payload } => Metadata::Parsed {
            attributes: attributes + more,
            dots: dots + further,
            payload,
        },
    }
}

proof fn lemma_after_all(
    attributes: Seq<SourceAttribute>,
    dots: nat,
    attribute: SourceAttribute,
    rest: Metadata,
)
    ensures
        after_all(attributes, dots, after(attribute, rest)) == after_all(
            attributes.push(attribute),
            if attribute == SourceAttribute::Dot {
                dots + 1
            } else {
                dots
            },
            rest,
        ),
{
    match rest {
        Metadata::Repeated => {},
        Metadata::Parsed { attributes: more, dots: further, payload } => {
            assert(attributes + (seq![attribute] + more) =~= attributes.push(attribute) + more);
        },
    }
}

/// Whether a component was read so.
pub open spec fn component_is(read: SourceComponent, component: Seq<char>) -> bool {
    &&& read.physical@ == component
    &&& read.logical@ == logical_name(component)
    &&& read.attributes@ == attributes_of(component)
}

/// Reads the metadata of a component.
fn parse_component(component: &str) -> (r: Result<SourceComponent>)
    ensures
        reports(r, component_problem(component@)),
        r matches Ok(read) ==> component_is(read, component@),
{
    proof {
        lemma_marks();
    }
    let mut remainder = component.to_owned();
    let mut attributes: Vec<SourceAttribute> = Vec::new();
    let mut unallocated = false;
    let mut dots: usize = 0;
    let total: usize = component.unicode_len();
    assert(after_all(Seq::empty(), 0, metadata(component@, false)) == metadata(component@, false))
        by {
        match metadata(component@, false) {
            Metadata::Repeated => {},
            Metadata::Parsed { attributes: more, dots: further, payload } => {
                assert(Seq::<SourceAttribute>::empty() + more =~= more);
            },
        }
    }
    loop
        invariant_except_break
            "dot_"@ == dot_mark(),
            "unalloc_"@ == unalloc_mark(),
            "literal_"@ == literal_mark(),
            metadata(component@, false) == after_all(
                attributes@,
                dots as nat,
                metadata(remainder@, unallocated),
            ),
            dots + remainder@.len() <= total,
        ensures
            metadata(component@, false) == (Metadata::Parsed {
                attributes: attributes@,
                dots: dots as nat,
                payload: remainder@,
            }),
        decreases remainder@.len(),
    {
        let ghost held = remainder@;
        if let Some(value) = strip_prefix(remainder.as_str(), "dot_") {
            proof {
                lemma_after_all(
                    attributes@,
                    dots as nat,
                    SourceAttribute::Dot,
                    metadata(held.skip(4), unallocated),
                );
            }
            attributes.push(SourceAttribute::Dot);
            dots += 1;
            remainder = value;
        } else if let Some(value) = strip_prefix(remainder.as_str(), "unalloc_") {
            if unallocated {
                return Err(
                    WombatError::Configuration(
                        cat3(
                            "source component `",
                            component,
                            "` repeats non-repeatable `unalloc_` metadata",
                        ),
                    ),
                );
            }
            proof {
                lemma_after_all(
                    attributes@,
                    dots as nat,
                    SourceAttribute::Unallocated,
                    metadata(held.skip(8), true),
                );
            }
            attributes.push(SourceAttribute::Unallocated);
            unallocated = true;
            remainder = value;
        } else if let Some(value) = strip_prefix(remainder.as_str(), "literal_") {
            let ghost before = attributes@;
            attributes.push(SourceAttribute::Literal);
            remainder = value;
            assert(before + (seq![SourceAttribute::Literal] + Seq::<SourceAttribute>::empty())
                =~= attributes@);
            break;
        } else {
            assert(attributes@ + Seq::<SourceAttribute>::empty() =~= attributes@);
            break;
        }
    }
    if remainder.as_str().is_empty() {
        return Err(
            WombatError::Configuration(
                cat3("source component `", component, "` has metadata but no payload name"),
            ),
        );
    }
    let logical = cat2(repeat(".", dots).as_str(), remainder.as_str());
    if same(logical.as_str(), ".") || same(logical.as_str(), "..") {
        return Err(
            WombatError::Configuration(
                cat5(
                    "source component `",
                    component,
                    "` resolves to forbidden target component `",
                    logical.as_str(),
                    "`",
                ),
            ),
        );
    }
    Ok(SourceComponent { physical: component.to_owned(), logical, attributes })
}

/// What is wrong with a component of a physical path.
pub open spec fn physical_problem(component: Seq<char>, hidden_allowed: bool) -> Option<Seq<char>> {
    if hidden_component(component) {
        problem_if(
            !hidden_allowed,
            "literal hidden source component `"@ + component + "` requires w.hidden()"@,
        )
    } else {
        component_problem(component)
    }
}

/// What is wrong with a physical path.
pub open spec fn projection_problem(path: Seq<char>, hidden_allowed: bool) -> Option<Seq<char>> {
    first(
        relative_problem(path, "physical source path"@),
        first_among(pieces(path, '/'), |c: Seq<char>| physical_problem(c, hidden_allowed)),
    )
}

/// The name that a component of a physical path stands for. Hidden components
/// stand for themselves.
pub open spec fn projected_name(component: Seq<char>) -> Seq<char> {
    if hidden_component(component) {
        component
    } else {
        logical_name(component)
    }
}

/// The attributes of a component of a physical path.
pub open spec fn projected_attributes(component: Seq<char>) -> Seq<SourceAttribute> {
    if hidden_component(component) {
        Seq::empty()
    } else {
        attributes_of(component)
    }
}

/// The names that the components stand for.
pub open spec fn projected_names(components: Seq<Seq<char>>) -> Seq<Seq<char>> {
    components.map_values(|c: Seq<char>| projected_name(c))
}

/// The path that a physical path stands for.
pub open spec fn projected_path(path: Seq<char>) -> Seq<char> {
    joined(projected_names(pieces(path, '/')), "/"@)
}

/// Whether no component leaves the source without a target.
pub open spec fn allocated_components(components: Seq<Seq<char>>) -> bool {
    forall|i: int|
        0 <= i < components.len() ==> !projected_attributes(#[trigger] components[i]).contains(
            SourceAttribute::Unallocated,
        )
}

/// Whether a component is hidden.
pub open spec fn any_hidden(components: Seq<Seq<char>>) -> bool {
    exists|i: int| 0 <= i < components.len() && hidden_component(#[trigger] components[i])
}

/// Whether the components were read so.
pub open spec fn components_are(read: Seq<SourceComponent>, components: Seq<Seq<char>>) -> bool {
    &&& read.len() == components.len()
    &&& forall|i: int|
        0 <= i < components.len() ==> (#[trigger] read[i]).physical@ == components[i]
            && read[i].logical@ == projected_name(components[i]) && read[i].attributes@
            == projected_attributes(components[i])
}

/// Whether a physical path was read so.
pub open spec fn projection_is(read: SourceProjection, path: Seq<char>) -> bool {
    let components = pieces(path, '/');
    &&& read.physical@ == path
    &&& read.logical@ == projected_path(path)
    &&& read.allocated == allocated_components(components)
    &&& read.hidden == any_hidden(components)
    &&& components_are(read.components@, components)
}

fn has_unallocated(attributes: &Vec<SourceAttribute>) -> (r: bool)
    ensures
        r == attributes@.contains(SourceAttribute::Unallocated),
{
    let mut i: usize = 0;
    while i < attributes.len()
        invariant
            0 <= i <= attributes@.len(),
            forall|j: int| 0 <= j < i ==> attributes@[j] != SourceAttribute::Unallocated,
        decreases attributes@.len() - i,
    {
        if attributes[i] == SourceAttribute::Unallocated {
            assert(attributes@[i as int] == SourceAttribute::Unallocated);
            return true;
        }
        i += 1;
    }
    false
}

/// Reads a physical path: what it stands for, whether it has a target of its own
/// and whether a component is hidden.
pub fn project_physical(path: &str, hidden_allowed: bool) -> (r: Result<SourceProjection>)
    ensures
        reports(r, projection_problem(path@, hidden_allowed)),
        r matches Ok(read) ==> projection_is(read, path@),
{
    validate_relative_path(path, "physical source path")?;
    let parts = split(path, '/');
    let ghost components = pieces(path@, '/');
    let ghost problem = |c: Seq<char>| physical_problem(c, hidden_allowed);
    let mut allocated = true;
    let mut hidden = false;
    let mut logical: Vec<String> = Vec::new();
    let mut read: Vec<SourceComponent> = Vec::new();
    let mut i: usize = 0;
    assert(parts@.len() == views(parts@).len());
    assert(components.take(0) =~= Seq::empty());
    while i < parts.len()
        invariant
            0 <= i <= parts@.len(),
            parts@.len() == components.len(),
            views(parts@) == components,
            components == pieces(path@, '/'),
            problem == (|c: Seq<char>| physical_problem(c, hidden_allowed)),
            relative_problem(path@, "physical source path"@) is None,
            first_among(components.take(i as int), problem) is None,
            views(logical@) == projected_names(components).take(i as int),
            allocated == allocated_components(components.take(i as int)),
            hidden == any_hidden(components.take(i as int)),
            components_are(read@, components.take(i as int)),
        decreases parts@.len() - i,
    {
        let component = parts[i].as_str();
        let ghost c = component@;
        let ghost held = logical@;
        proof {
            assert(views(parts@)[i as int] == c);
            assert(components.take(i + 1).drop_last() =~= components.take(i as int));
            assert(components.take(i + 1).last() == c);
            lemma_first_among(components, problem, i + 1);
            assert(problem(c) == physical_problem(c, hidden_allowed));
        }
        let next = if is_hidden_component(component) {
            if !hidden_allowed {
                return Err(
                    WombatError::Configuration(
                        cat3(
                            "literal hidden source component `",
                            component,
                            "` requires w.hidden()",
                        ),
                    ),
                );
            }
            hidden = true;
            SourceComponent {
                physical: component.to_owned(),
                logical: component.to_owned(),
                attributes: Vec::new(),
            }
        } else {
            parse_component(component)?
        };
        if has_unallocated(&next.attributes) {
            allocated = false;
        }
        logical.push(next.logical.clone());
        proof {
            assert(next.attributes@ =~= projected_attributes(c));
            assert(views(logical@) =~= views(held).push(projected_name(c)));
            assert(projected_names(components).take(i + 1) =~= projected_names(components).take(
                i as int,
            ).push(projected_name(c)));
            let grown = components.take(i + 1);
            let shorter = components.take(i as int);
            assert(allocated == allocated_components(grown)) by {
                assert(grown[i as int] == c);
                assert forall|j: int| 0 <= j < i implies #[trigger] grown[j] == shorter[j] by {}
                if allocated_components(grown) {
                    assert forall|j: int| 0 <= j < i implies !projected_attributes(
                        #[trigger] shorter[j],
                    ).contains(SourceAttribute::Unallocated) by {
                        assert(grown[j] == shorter[j]);
                    }
                }
            }
            assert(hidden == any_hidden(grown)) by {
                assert(grown[i as int] == c);
                if any_hidden(shorter) {
                    let j = choose|j: int| 0 <= j < shorter.len() && hidden_component(shorter[j]);
                    assert(grown[j] == shorter[j]);
                }
                if any_hidden(grown) {
                    let j = choose|j: int| 0 <= j < grown.len() && hidden_component(grown[j]);
                    if j < i {
                        assert(shorter[j] == grown[j]);
                    }
                }
            }
        }
        read.push(next);
        i += 1;
    }
    assert(components.take(i as int) =~= components);
    assert(projected_names(components).take(i as int) =~= projected_names(components));
    Ok(
        SourceProjection {
            physical: path.to_owned(),
            logical: join(&logical, "/"),
            allocated,
            hidden,
            components: read,
        },
    )
}

/// How many dots a component begins with.
pub open spec fn leading_dots(component: Seq<char>) -> nat
    decreases component.len(),
{
    if component.len() > 0 && component[0] == '.' {
        1 + leading_dots(component.skip(1))
    } else {
        0
    }
}

/// What follows the dots that a component begins with.
pub open spec fn undotted(component: Seq<char>) -> Seq<char> {
    component.skip(leading_dots(component) as int)
}

proof fn lemma_leading_dots(component: Seq<char>)
    ensures
        leading_dots(component) <= component.len(),
        undotted(component).len() > 0 ==> undotted(component)[0] != '.',
        repeated(seq!['.'], leading_dots(component)) + undotted(component) == component,
    decreases component.len(),
{
    if component.len() > 0 && component[0] == '.' {
        lemma_leading_dots(component.skip(1));
        let n = leading_dots(component);
        assert(undotted(component) =~= undotted(component.skip(1)));
        lemma_repeated_front(seq!['.'], (n - 1) as nat);
        assert(component =~= seq!['.'] + component.skip(1));
        assert(repeated(seq!['.'], n) + undotted(component) =~= seq!['.'] + (repeated(
            seq!['.'],
            (n - 1) as nat,
        ) + undotted(component)));
    } else {
        assert(undotted(component) =~= component);
        assert(repeated(seq!['.'], 0) + component =~= component);
    }
}

/// Repeating once more at the front is repeating once more at the end.
proof fn lemma_repeated_front(text: Seq<char>, count: nat)
    ensures
        repeated(text, count + 1) == text + repeated(text, count),
    decreases count,
{
    if count > 0 {
        lemma_repeated_front(text, (count - 1) as nat);
        assert(text + repeated(text, (count - 1) as nat) + text =~= text + (repeated(
            text,
            (count - 1) as nat,
        ) + text));
    } else {
        assert(repeated(text, 0) =~= Seq::<char>::empty());
        assert(repeated(text, 1) =~= text + repeated(text, 0));
    }
}

/// Whether a name would be read as metadata or as a shorthand.
pub open spec fn looks_marked(name: Seq<char>) -> bool {
    dot_mark().is_prefix_of(name) || unalloc_mark().is_prefix_of(name)
        || literal_mark().is_prefix_of(name) || name.contains('@')
}

/// The physical name of a target component.
pub open spec fn encoded_component(component: Seq<char>) -> Seq<char> {
    repeated(dot_mark(), leading_dots(component)) + (if looks_marked(undotted(component)) {
        literal_mark()
    } else {
        Seq::empty()
    }) + undotted(component)
}

/// What is wrong with a target component: it has nothing but dots.
pub open spec fn encode_problem(component: Seq<char>) -> Option<Seq<char>> {
    problem_if(
        undotted(component).len() == 0,
        "invalid target component `"@ + component + "`"@,
    )
}

fn needs_literal(value: &str) -> (r: bool)
    ensures
        r == looks_marked(value@),
{
    proof {
        lemma_marks();
    }
    starts_with(value, "dot_") || starts_with(value, "unalloc_") || starts_with(value, "literal_")
        || contains_char(value, '@')
}

fn encode_target_component(component: &str) -> (r: Result<String>)
    ensures
        reports(r, encode_problem(component@)),
        r matches Ok(encoded) ==> encoded@ == encoded_component(component@),
{
    proof {
        lemma_marks();
        lemma_leading_dots(component@);
    }
    let chars = chars_of(component);
    let mut dots: usize = 0;
    assert(component@.skip(0) =~= component@);
    while dots < chars.len() && chars[dots] == '.'
        invariant
            0 <= dots <= chars@.len(),
            chars@ == component@,
            leading_dots(component@) == dots + leading_dots(component@.skip(dots as int)),
        decreases chars@.len() - dots,
    {
        assert(component@.skip(dots as int)[0] == component@[dots as int]);
        assert(component@.skip(dots as int).skip(1) =~= component@.skip(dots + 1));
        dots += 1;
    }
    assert(dots < chars@.len() ==> component@.skip(dots as int)[0] == component@[dots as int]);
    assert(leading_dots(component@) == dots);
    let payload = text_of(&chars, dots, chars.len());
    assert(payload@ =~= undotted(component@));
    if payload.as_str().is_empty() {
        return Err(
            WombatError::Configuration(cat3("invalid target component `", component, "`")),
        );
    }
    let escaped = if needs_literal(payload.as_str()) {
        "literal_"
    } else {
        ""
    };
    Ok(cat3(repeat("dot_", dots).as_str(), escaped, payload.as_str()))
}

/// The physical names of target components.
pub open spec fn encoded_components(components: Seq<Seq<char>>) -> Seq<Seq<char>> {
    components.map_values(|c: Seq<char>| encoded_component(c))
}

/// The physical path of a target path.
pub open spec fn encoded_path(path: Seq<char>) -> Seq<char> {
    joined(encoded_components(pieces(path, '/')), "/"@)
}

/// What is wrong with a target path.
pub open spec fn encode_path_problem(path: Seq<char>) -> Option<Seq<char>> {
    first(
        relative_problem(path, "target path"@),
        first_among(pieces(path, '/'), |c: Seq<char>| encode_problem(c)),
    )
}

/// The physical path that stands for a target path.
pub fn encode_target_path(path: &str) -> (r: Result<String>)
    ensures
        reports(r, encode_path_problem(path@)),
        r matches Ok(encoded) ==> encoded@ == encoded_path(path@),
{
    validate_relative_path(path, "target path")?;
    let parts = split(path, '/');
    let ghost components = pieces(path@, '/');
    let ghost problem = |c: Seq<char>| encode_problem(c);
    let mut encoded: Vec<String> = Vec::new();
    let mut i: usize = 0;
    assert(parts@.len() == views(parts@).len());
    assert(components.take(0) =~= Seq::empty());
    while i < parts.len()
        invariant
            0 <= i <= parts@.len(),
            parts@.len() == components.len(),
            views(parts@) == components,
            components == pieces(path@, '/'),
            problem == (|c: Seq<char>| encode_problem(c)),
            relative_problem(path@, "target path"@) is None,
            first_among(components.take(i as int), problem) is None,
            views(encoded@) == encoded_components(components).take(i as int),
        decreases parts@.len() - i,
    {
        proof {
            assert(views(parts@)[i as int] == parts@[i as int]@);
            assert(components.take(i + 1).drop_last() =~= components.take(i as int));
            lemma_first_among(components, problem, i + 1);
            assert(problem(components[i as int]) == encode_problem(components[i as int]));
        }
        let next = encode_target_component(parts[i].as_str())?;
        let ghost held = encoded@;
        let ghost shown = next@;
        encoded.push(next);
        assert(views(encoded@) =~= views(held).push(shown));
        assert(encoded_components(components).take(i + 1) =~= encoded_components(components).take(
            i as int,
        ).push(shown));
        i += 1;
    }
    assert(components.take(i as int) =~= components);
    assert(encoded_components(components).take(i as int) =~= encoded_components(components));
    Ok(join(&encoded, "/"))
}

/// A component of a selector in physical names: a hidden one stands for a target
/// component.
pub open spec fn framed_component(component: Seq<char>) -> Seq<char> {
    if hidden_component(component) {
        encoded_component(component)
    } else {
        component
    }
}

/// The components of a selector in physical names.
pub open spec fn framed_components(components: Seq<Seq<char>>) -> Seq<Seq<char>> {
    components.map_values(|c: Seq<char>| framed_component(c))
}

/// What is wrong with a component of a selector.
pub open spec fn framed_problem(component: Seq<char>) -> Option<Seq<char>> {
    if hidden_component(component) {
        encode_problem(component)
    } else {
        None
    }
}

/// A selector in physical names.
pub open spec fn framed_path(value: Seq<char>) -> Seq<char> {
    if value == "."@ {
        value
    } else {
        joined(framed_components(pieces(value, '/')), "/"@)
    }
}

/// What is wrong with a selector in physical names.
pub open spec fn framed_path_problem(value: Seq<char>) -> Option<Seq<char>> {
    if value == "."@ {
        None
    } else {
        first_among(pieces(value, '/'), |c: Seq<char>| framed_problem(c))
    }
}

fn encode_target_framed(value: &str) -> (r: Result<String>)
    ensures
        reports(r, framed_path_problem(value@)),
        r matches Ok(framed) ==> framed@ == framed_path(value@),
{
    if same(value, ".") {
        return Ok(value.to_owned());
    }
    let parts = split(value, '/');
    let ghost components = pieces(value@, '/');
    let ghost problem = |c: Seq<char>| framed_problem(c);
    let mut framed: Vec<String> = Vec::new();
    let mut i: usize = 0;
    assert(parts@.len() == views(parts@).len());
    assert(components.take(0) =~= Seq::empty());
    while i < parts.len()
        invariant
            0 <= i <= parts@.len(),
            value@ != "."@,
            parts@.len() == components.len(),
            views(parts@) == components,
            components == pieces(value@, '/'),
            problem == (|c: Seq<char>| framed_problem(c)),
            first_among(components.take(i as int), problem) is None,
            views(framed@) == framed_components(components).take(i as int),
        decreases parts@.len() - i,
    {
        proof {
            assert(views(parts@)[i as int] == parts@[i as int]@);
            assert(components.take(i + 1).drop_last() =~= components.take(i as int));
            lemma_first_among(components, problem, i + 1);
            assert(problem(components[i as int]) == framed_problem(components[i as int]));
        }
        let next = if is_hidden_component(parts[i].as_str()) {
            encode_target_component(parts[i].as_str())?
        } else {
            parts[i].clone()
        };
        let ghost held = framed@;
        let ghost shown = next@;
        framed.push(next);
        assert(views(framed@) =~= views(held).push(shown));
        assert(framed_components(components).take(i + 1) =~= framed_components(components).take(
            i as int,
        ).push(shown));
        i += 1;
    }
    assert(components.take(i as int) =~= components);
    assert(framed_components(components).take(i as int) =~= framed_components(components));
    Ok(join(&framed, "/"))
}

/// Where the part of a component starts that shorthands leave alone.
pub open spec fn protected_from(component: Seq<char>) -> int {
    if exists|i: int| occurs_at(component, literal_mark(), i) {
        choose|i: int| first_occurrence(component, literal_mark(), i)
    } else {
        component.len() as int
    }
}

/// A component with its shorthands written out.
pub open spec fn expanded_component(component: Seq<char>) -> Seq<char> {
    replaced(component.take(protected_from(component)), '@', unalloc_mark()) + component.skip(
        protected_from(component),
    )
}

/// A selector with its shorthands written out.
pub open spec fn expanded_selector(value: Seq<char>) -> Seq<char> {
    joined(pieces(value, '/').map_values(|c: Seq<char>| expanded_component(c)), "/"@)
}

fn expand_component(component: &str) -> (r: String)
    ensures
        r@ == expanded_component(component@),
{
    proof {
        lemma_marks();
    }
    let chars = chars_of(component);
    let place = find(component, "literal_");
    let protected: usize = match place {
        Some(i) => i,
        None => chars.len(),
    };
    proof {
        if place is Some {
            let i = place->0 as int;
            assert(occurs_at(component@, literal_mark(), i));
            let chosen = choose|i: int| first_occurrence(component@, literal_mark(), i);
            assert(first_occurrence(component@, literal_mark(), i));
            assert(first_occurrence(component@, literal_mark(), chosen));
            assert(chosen == i);
        }
    }
    let active = text_of(&chars, 0, protected);
    let literal = text_of(&chars, protected, chars.len());
    assert(active@ =~= component@.take(protected as int));
    assert(literal@ =~= component@.skip(protected as int));
    cat2(replace_char(active.as_str(), '@', "unalloc_").as_str(), literal.as_str())
}

fn expand_shorthands(value: &str) -> (r: String)
    ensures
        r@ == expanded_selector(value@),
{
    let parts = split(value, '/');
    let ghost wanted = pieces(value@, '/').map_values(|c: Seq<char>| expanded_component(c));
    let mut expanded: Vec<String> = Vec::new();
    let mut i: usize = 0;
    assert(parts@.len() == views(parts@).len());
    while i < parts.len()
        invariant
            0 <= i <= parts@.len(),
            parts@.len() == wanted.len(),
            views(parts@) == pieces(value@, '/'),
            wanted == pieces(value@, '/').map_values(|c: Seq<char>| expanded_component(c)),
            views(expanded@) == wanted.take(i as int),
        decreases parts@.len() - i,
    {
        let next = expand_component(parts[i].as_str());
        let ghost held = expanded@;
        let ghost shown = next@;
        assert(views(parts@)[i as int] == parts@[i as int]@);
        expanded.push(next);
        assert(views(expanded@) =~= views(held).push(shown));
        assert(wanted.take(i + 1) =~= wanted.take(i as int).push(shown));
        i += 1;
    }
    assert(wanted.take(i as int) =~= wanted);
    join(&expanded, "/")
}

/// How many components stand before the first pattern.
pub open spec fn static_count(components: Seq<Seq<char>>) -> nat
    decreases components.len(),
{
    if components.len() == 0 || globbed(components[0]) {
        0
    } else {
        1 + static_count(components.skip(1))
    }
}

/// The components before the first pattern.
pub open spec fn static_part(pattern: Seq<char>) -> Seq<char> {
    let components = pieces(pattern, '/');
    joined(components.take(static_count(components) as int), "/"@)
}

fn static_root(pattern: &str) -> (r: String)
    ensures
        r@ == static_part(pattern@),
{
    let parts = split(pattern, '/');
    let ghost components = pieces(pattern@, '/');
    let mut kept: Vec<String> = Vec::new();
    let mut i: usize = 0;
    assert(parts@.len() == views(parts@).len());
    assert(components.skip(0) =~= components);
    while i < parts.len() && !contains_glob(parts[i].as_str())
        invariant
            0 <= i <= parts@.len(),
            views(parts@) == components,
            parts@.len() == components.len(),
            static_count(components) == i + static_count(components.skip(i as int)),
            views(kept@) == components.take(i as int),
        decreases parts@.len() - i,
    {
        assert(components.skip(i as int)[0] == components[i as int]);
        assert(components.skip(i as int).skip(1) =~= components.skip(i + 1));
        assert(views(parts@)[i as int] == parts@[i as int]@);
        let ghost held = kept@;
        kept.push(parts[i].clone());
        assert(views(kept@) =~= views(held).push(components[i as int]));
        assert(components.take(i + 1) =~= components.take(i as int).push(components[i as int]));
        i += 1;
    }
    proof {
        if i < parts@.len() {
            assert(components.skip(i as int)[0] == components[i as int]);
            assert(views(parts@)[i as int] == parts@[i as int]@);
        }
    }
    join(&kept, "/")
}

/// Whether a component is empty or climbs.
pub open spec fn misshapen(component: Seq<char>) -> bool {
    component.len() == 0 || component == ".."@
}

/// What is wrong with the shape of a selector.
pub open spec fn shape_problem(value: Seq<char>) -> Option<Seq<char>> {
    problem_if(
        value.contains('\\') || exists|i: int|
            0 <= i < pieces(value, '/').len() && misshapen(#[trigger] pieces(value, '/')[i]),
        "invalid artifact source selector `"@ + value + "`"@,
    )
}

fn validate_selector_shape(value: &str) -> (r: Result<()>)
    ensures
        reports(r, shape_problem(value@)),
{
    let mut valid = !contains_char(value, '\\');
    let parts = split(value, '/');
    let ghost components = pieces(value@, '/');
    let mut i: usize = 0;
    assert(parts@.len() == views(parts@).len());
    while i < parts.len()
        invariant
            0 <= i <= parts@.len(),
            parts@.len() == components.len(),
            views(parts@) == components,
            components == pieces(value@, '/'),
            valid == (!value@.contains('\\') && forall|j: int|
                0 <= j < i ==> !misshapen(#[trigger] components[j])),
        decreases parts@.len() - i,
    {
        assert(views(parts@)[i as int] == parts@[i as int]@);
        if parts[i].as_str().is_empty() || same(parts[i].as_str(), "..") {
            assert(misshapen(components[i as int]));
            valid = false;
        }
        i += 1;
    }
    if !valid {
        return Err(
            WombatError::Configuration(cat3("invalid artifact source selector `", value, "`")),
        );
    }
    Ok(())
}

/// What is wrong with a component that w.hidden() names.
pub open spec fn hidden_problem(component: Seq<char>) -> Option<Seq<char>> {
    problem_if(
        hidden_component(component) && globbed(component),
        "w.hidden() must name each literal hidden component explicitly; `"@ + component
            + "` contains glob syntax"@,
    )
}

/// What is wrong with a selector that w.hidden() names.
pub open spec fn hidden_path_problem(value: Seq<char>) -> Option<Seq<char>> {
    first_among(pieces(value, '/'), |c: Seq<char>| hidden_problem(c))
}

fn validate_hidden_authorization(value: &str) -> (r: Result<()>)
    ensures
        reports(r, hidden_path_problem(value@)),
{
    let parts = split(value, '/');
    let ghost components = pieces(value@, '/');
    let ghost problem = |c: Seq<char>| hidden_problem(c);
    let mut i: usize = 0;
    assert(parts@.len() == views(parts@).len());
    assert(components.take(0) =~= Seq::empty());
    while i < parts.len()
        invariant
            0 <= i <= parts@.len(),
            parts@.len() == components.len(),
            views(parts@) == components,
            components == pieces(value@, '/'),
            problem == (|c: Seq<char>| hidden_problem(c)),
            first_among(components.take(i as int), problem) is None,
        decreases parts@.len() - i,
    {
        proof {
            assert(views(parts@)[i as int] == parts@[i as int]@);
            assert(components.take(i + 1).drop_last() =~= components.take(i as int));
            lemma_first_among(components, problem, i + 1);
            assert(problem(components[i as int]) == hidden_problem(components[i as int]));
        }
        let component = parts[i].as_str();
        if is_hidden_component(component) && contains_glob(component) {
            return Err(
                WombatError::Configuration(
                    cat3(
                        "w.hidden() must name each literal hidden component explicitly; `",
                        component,
                        "` contains glob syntax",
                    ),
                ),
            );
        }
        i += 1;
    }
    assert(components.take(i as int) =~= components);
    Ok(())
}

/// The physical form of a selector.
pub open spec fn physical_selector(declared: Seq<char>, hidden: bool) -> Seq<char> {
    if hidden {
        expanded_selector(declared)
    } else {
        framed_path(expanded_selector(declared))
    }
}

/// What is wrong with a selector.
pub open spec fn selector_problem(declared: Seq<char>, hidden: bool) -> Option<Seq<char>> {
    first(
        if declared == "."@ {
            None
        } else {
            shape_problem(declared)
        },
        if hidden {
            hidden_path_problem(expanded_selector(declared))
        } else {
            framed_path_problem(expanded_selector(declared))
        },
    )
}

/// Whether a selector was compiled so.
pub open spec fn selector_is(selector: CompiledSelector, declared: Seq<char>, hidden: bool) -> bool {
    &&& selector.declared@ == declared
    &&& selector.expanded@ == expanded_selector(declared)
    &&& selector.physical@ == physical_selector(declared, hidden)
    &&& selector.hidden == hidden
    &&& selector.glob == globbed(selector.physical@)
    &&& selector.static_root@ == static_part(selector.physical@)
}

/// Compiles a selector: writes its shorthands out, puts it in physical names and
/// finds the components before the first pattern.
pub fn compile_selector(declared: &str, hidden: bool) -> (r: Result<CompiledSelector>)
    ensures
        reports(r, selector_problem(declared@, hidden)),
        r matches Ok(selector) ==> selector_is(selector, declared@, hidden),
{
    if !same(declared, ".") {
        validate_selector_shape(declared)?;
    }
    let expanded = expand_shorthands(declared);
    let physical = if hidden {
        expanded.clone()
    } else {
        encode_target_framed(expanded.as_str())?
    };
    let glob = contains_glob(physical.as_str());
    let root = static_root(physical.as_str());
    if hidden {
        validate_hidden_authorization(physical.as_str())?;
    }
    Ok(
        CompiledSelector {
            declared: declared.to_owned(),
            expanded,
            physical,
            hidden,
            glob,
            static_root: root,
        },
    )
}

/// A compiled selector pattern.
#[derive(Debug)]
pub struct SelectorMatcher {
    /// The compiled patterns
    set: GlobSet,
}

/// How selector patterns are read: `*` stops at a slash, a backslash is itself.
pub open spec fn selector_rule(pattern: Seq<char>) -> GlobRule {
    GlobRule { pattern, literal_separator: true, backslash_escape: false }
}

/// The patterns that a selector stands for: itself, and where it holds no slash
/// also at any depth and with everything beneath.
pub open spec fn selector_rules(pattern: Seq<char>) -> Seq<GlobRule> {
    if pattern.contains('/') {
        seq![selector_rule(pattern)]
    } else {
        seq![
            selector_rule(pattern),
            selector_rule("**/"@ + pattern),
            selector_rule(pattern + "/**"@),
            selector_rule("**/"@ + pattern + "/**"@),
        ]
    }
}

/// Why one of the rules does not parse.
pub open spec fn rules_refusal(rules: Seq<GlobRule>) -> Option<Seq<char>>
    decreases rules.len(),
{
    if rules.len() == 0 {
        None
    } else {
        first(rules_refusal(rules.drop_last()), glob_refusal(rules.last()))
    }
}

proof fn lemma_rules_refusal(rules: Seq<GlobRule>, count: int)
    requires
        0 <= count <= rules.len(),
    ensures
        rules_refusal(rules.take(count)) is Some ==> rules_refusal(rules) == rules_refusal(
            rules.take(count),
        ),
    decreases rules.len() - count,
{
    if count < rules.len() {
        lemma_rules_refusal(rules, count + 1);
        assert(rules.take(count + 1).drop_last() =~= rules.take(count));
    } else {
        assert(rules.take(count) =~= rules);
    }
}

/// What is wrong with a selector pattern.
pub open spec fn matcher_problem(pattern: Seq<char>) -> Option<Seq<char>> {
    match first(
        rules_refusal(selector_rules(pattern)),
        set_refusal(selector_rules(pattern)),
    ) {
        Some(reason) => Some("invalid source glob: "@ + reason),
        None => None,
    }
}

/// Whether a path ends in a name, rather than in the step up that is the name of no
/// entry.
pub open spec fn names_entry(path: Seq<char>) -> bool {
    pieces(path, '/').last() != ".."@
}

/// Whether a path ends in a name.
pub fn is_entry(path: &str) -> (r: bool)
    ensures
        r == names_entry(path@),
{
    let parts = split(path, '/');
    assert(parts@.len() == views(parts@).len());
    assert(views(parts@).last() == parts@[parts@.len() - 1]@);
    !same(parts[parts.len() - 1].as_str(), "..")
}

impl SelectorMatcher {
    /// The rules of the matcher.
    pub closed spec fn rules(self) -> Seq<GlobRule> {
        set_rules(self.set)
    }

    /// Whether the pattern matches the path of an entry. A set of patterns may pass over
    /// a path that ends in a step up where each pattern by itself would match it.
    pub fn is_match(&self, path: &str) -> (r: bool)
        requires
            names_entry(path@),
        ensures
            r == any_matches(self.rules(), path@),
    {
        set_matches(&self.set, path)
    }
}

fn invalid_glob(reason: &str) -> (r: WombatError)
    ensures
        crate::error::is_configuration(r, "invalid source glob: "@ + reason@),
{
    WombatError::Configuration(cat2("invalid source glob: ", reason))
}

/// Compiles a selector pattern.
pub fn matcher(pattern: &str) -> (r: Result<SelectorMatcher>)
    ensures
        reports(r, matcher_problem(pattern@)),
        r matches Ok(m) ==> m.rules() == selector_rules(pattern@),
{
    let mut patterns: Vec<String> = Vec::new();
    patterns.push(pattern.to_owned());
    if !contains_char(pattern, '/') {
        patterns.push(cat2("**/", pattern));
        patterns.push(cat2(pattern, "/**"));
        patterns.push(cat3("**/", pattern, "/**"));
    }
    let ghost rules = selector_rules(pattern@);
    assert(rules.len() == patterns@.len());
    assert forall|j: int| 0 <= j < rules.len() implies #[trigger] rules[j] == selector_rule(
        patterns@[j]@,
    ) by {}
    let mut globs: Vec<Glob> = Vec::new();
    let mut i: usize = 0;
    assert(rules.take(0) =~= Seq::empty());
    assert(glob_rules(globs@) =~= Seq::empty());
    while i < patterns.len()
        invariant
            0 <= i <= patterns@.len(),
            rules == selector_rules(pattern@),
            rules.len() == patterns@.len(),
            forall|j: int|
                0 <= j < rules.len() ==> #[trigger] rules[j] == selector_rule(patterns@[j]@),
            rules_refusal(rules.take(i as int)) is None,
            glob_rules(globs@) == rules.take(i as int),
        decreases patterns@.len() - i,
    {
        proof {
            assert(rules.take(i + 1).drop_last() =~= rules.take(i as int));
            assert(rules.take(i + 1).last() == rules[i as int]);
            lemma_rules_refusal(rules, i + 1);
        }
        match parse_glob(patterns[i].as_str(), true, false) {
            Ok(glob) => {
                let ghost held = globs@;
                globs.push(glob);
                assert(glob_rules(globs@) =~= glob_rules(held).push(rules[i as int]));
                assert(rules.take(i + 1) =~= rules.take(i as int).push(rules[i as int]));
            },
            Err(reason) => {
                return Err(invalid_glob(reason.as_str()));
            },
        }
        i += 1;
    }
    assert(rules.take(i as int) =~= rules);
    match compile_globs(globs) {
        Ok(set) => Ok(SelectorMatcher { set }),
        Err(reason) => Err(invalid_glob(reason.as_str())),
    }
}

/// Whether every hidden component of a path is named, at its own place, by the
/// selector.
pub open spec fn authorized(path: Seq<char>, selector: Seq<char>) -> bool {
    let components = pieces(path, '/');
    let named = pieces(selector, '/');
    forall|i: int|
        0 <= i < components.len() && hidden_component(#[trigger] components[i]) ==> i
            < named.len() && named[i] == components[i]
}

/// Whether every hidden component of a path is named by the selector.
pub fn hidden_components_authorized(path: &str, selector: &str) -> (r: bool)
    ensures
        r == authorized(path@, selector@),
{
    let selected = split(selector, '/');
    let parts = split(path, '/');
    let ghost components = pieces(path@, '/');
    let ghost named = pieces(selector@, '/');
    let mut i: usize = 0;
    assert(parts@.len() == views(parts@).len());
    assert(selected@.len() == views(selected@).len());
    while i < parts.len()
        invariant
            0 <= i <= parts@.len(),
            parts@.len() == components.len(),
            selected@.len() == named.len(),
            views(parts@) == components,
            views(selected@) == named,
            components == pieces(path@, '/'),
            named == pieces(selector@, '/'),
            forall|j: int|
                0 <= j < i && hidden_component(#[trigger] components[j]) ==> j < named.len()
                    && named[j] == components[j],
        decreases parts@.len() - i,
    {
        assert(views(parts@)[i as int] == parts@[i as int]@);
        if is_hidden_component(parts[i].as_str()) {
            if i >= selected.len() {
                assert(hidden_component(components[i as int]));
                return false;
            }
            assert(views(selected@)[i as int] == selected@[i as int]@);
            if !same(selected[i].as_str(), parts[i].as_str()) {
                assert(hidden_component(components[i as int]));
                return false;
            }
        }
        i += 1;
    }
    true
}

/// Whether a path stands strictly beneath another.
pub open spec fn beneath(path: Seq<char>, root: Seq<char>) -> bool {
    root.push('/').is_prefix_of(path)
}

/// Whether a path can hold, or be held by, what stands beneath the root.
pub open spec fn static_scope(path: Seq<char>, root: Seq<char>) -> bool {
    root.len() == 0 || path == root || beneath(path, root) || beneath(root, path)
}

fn is_beneath(path: &str, root: &str) -> (r: bool)
    ensures
        r == beneath(path@, root@),
{
    let mut base = root.to_owned();
    base.push('/');
    starts_with(path, base.as_str())
}

/// Whether a path can hold, or be held by, what stands beneath the root.
pub fn in_static_scope(path: &str, static_root: &str) -> (r: bool)
    ensures
        r == static_scope(path@, static_root@),
{
    static_root.is_empty() || same(path, static_root) || is_beneath(path, static_root)
        || is_beneath(static_root, path)
}

/// Whether an exclusion covers a path; one that covers everything beneath a
/// directory covers the directory.
pub open spec fn excluded(
    exclusions: Seq<SelectorMatcher>,
    path: Seq<char>,
    directory: bool,
) -> bool {
    exists|i: int|
        0 <= i < exclusions.len() && (any_matches((#[trigger] exclusions[i]).rules(), path) || (
        directory && any_matches(exclusions[i].rules(), path + "/__wombat_descendant__"@)))
}

/// What stands in for everything beneath a directory is the name of an entry.
proof fn lemma_descendant(path: Seq<char>)
    ensures
        names_entry(path + "/__wombat_descendant__"@),
{
    reveal_strlit("/__wombat_descendant__");
    reveal_strlit("..");
    let name = "/__wombat_descendant__"@.skip(1);
    assert(path + "/__wombat_descendant__"@ =~= path.push('/') + name);
    crate::text::lemma_pieces_concat(path, name, '/');
    assert forall|i: int| 0 <= i < name.len() implies name[i] != '/' by {
        assert(name[i] == "/__wombat_descendant__"@[i + 1]);
    }
    crate::text::lemma_pieces_single(name, '/');
    assert((pieces(path, '/') + seq![name]).last() == name);
    assert(name.len() != ".."@.len());
}

/// Whether an exclusion covers the path of an entry.
pub fn is_excluded(exclusions: &Vec<SelectorMatcher>, path: &str, directory: bool) -> (r: bool)
    requires
        names_entry(path@),
    ensures
        r == excluded(exclusions@, path@, directory),
{
    let descendant = cat2(path, "/__wombat_descendant__");
    proof {
        lemma_descendant(path@);
    }
    let mut i: usize = 0;
    while i < exclusions.len()
        invariant
            0 <= i <= exclusions@.len(),
            descendant@ == path@ + "/__wombat_descendant__"@,
            names_entry(path@),
            names_entry(descendant@),
            forall|j: int|
                0 <= j < i ==> !(any_matches((#[trigger] exclusions@[j]).rules(), path@) || (
                directory && any_matches(exclusions@[j].rules(), descendant@))),
        decreases exclusions@.len() - i,
    {
        if exclusions[i].is_match(path) || (directory && exclusions[i].is_match(
            descendant.as_str(),
        )) {
            assert(any_matches(exclusions@[i as int].rules(), path@) || directory);
            return true;
        }
        i += 1;
    }
    false
}

/// The metadata of an encoded component are its dots and, where its name looks
/// like metadata, the mark that ends them.
proof fn lemma_encoded_metadata(dots: nat, name: Seq<char>)
    ensures
        ({
            let marked = looks_marked(name);
            let encoded = repeated(dot_mark(), dots) + (if marked {
                literal_mark()
            } else {
                Seq::empty()
            }) + name;
            metadata(encoded, false) matches Metadata::Parsed { attributes, dots: found, payload }
                && found == dots && payload == name && !attributes.contains(
                SourceAttribute::Unallocated,
            )
        }),
    decreases dots,
{
    let marked = looks_marked(name);
    let mark = if marked {
        literal_mark()
    } else {
        Seq::empty()
    };
    let encoded = repeated(dot_mark(), dots) + mark + name;
    if dots == 0 {
        assert(repeated(dot_mark(), 0) =~= Seq::<char>::empty());
        assert(encoded =~= mark + name);
        if marked {
            assert(encoded[0] == 'l');
            assert(encoded.subrange(0, 8) =~= literal_mark());
            assert(literal_mark().is_prefix_of(encoded));
            assert(!dot_mark().is_prefix_of(encoded)) by {
                if dot_mark().is_prefix_of(encoded) {
                    assert(encoded.subrange(0, 4)[0] == 'd');
                }
            }
            assert(!unalloc_mark().is_prefix_of(encoded)) by {
                if unalloc_mark().is_prefix_of(encoded) {
                    assert(encoded.subrange(0, 8)[0] == 'u');
                }
            }
            assert(encoded.skip(8) =~= name);
            assert(seq![SourceAttribute::Literal] + Seq::<SourceAttribute>::empty()
                =~= seq![SourceAttribute::Literal]);
        } else {
            assert(encoded =~= name);
        }
    } else {
        let less = (dots - 1) as nat;
        lemma_encoded_metadata(less, name);
        lemma_repeated_front(dot_mark(), less);
        let shorter = repeated(dot_mark(), less) + mark + name;
        assert(encoded =~= dot_mark() + shorter);
        assert(encoded.subrange(0, 4) =~= dot_mark());
        assert(encoded.skip(4) =~= shorter);
        let inner = metadata(shorter, false);
        match inner {
            Metadata::Repeated => {},
            Metadata::Parsed { attributes, dots: found, payload } => {
                let grown = seq![SourceAttribute::Dot] + attributes;
                assert forall|j: int| 0 <= j < grown.len() implies grown[j]
                    != SourceAttribute::Unallocated by {
                    if j > 0 {
                        assert(grown[j] == attributes[j - 1]);
                    }
                }
            },
        }
    }
}

/// An encoded component stands for the component it was made from, keeps its
/// target and is not hidden.
proof fn lemma_encoded_component(component: Seq<char>)
    requires
        undotted(component).len() > 0,
        component != "."@,
        component != ".."@,
        !component.contains('/'),
        !component.contains('\\'),
    ensures
        ({
            let encoded = encoded_component(component);
            &&& !hidden_component(encoded)
            &&& physical_problem(encoded, false) is None
            &&& projected_name(encoded) == component
            &&& !projected_attributes(encoded).contains(SourceAttribute::Unallocated)
            &&& !encoded.contains('/')
            &&& !encoded.contains('\\')
            &&& encoded.len() > 0
            &&& encoded != "."@
            &&& encoded != ".."@
        }),
{
    lemma_marks();
    lemma_leading_dots(component);
    let dots = leading_dots(component);
    let name = undotted(component);
    let encoded = encoded_component(component);
    lemma_encoded_metadata(dots, name);
    let front = repeated(dot_mark(), dots) + (if looks_marked(name) {
        literal_mark()
    } else {
        Seq::<char>::empty()
    });
    lemma_mark_characters(dots);
    assert forall|i: int| 0 <= i < encoded.len() implies encoded[i] != '/' && encoded[i]
        != '\\' by {
        if i < front.len() {
            if i < repeated(dot_mark(), dots).len() {
                assert(front[i] == repeated(dot_mark(), dots)[i]);
            }
        } else {
            assert(encoded[i] == name[i - front.len()]);
            assert(name[i - front.len()] == component[i - front.len() + dots]);
            assert(component.contains(component[i - front.len() + dots]));
        }
    }
    assert(encoded[0] != '.') by {
        if dots > 0 {
            lemma_repeated_front(dot_mark(), (dots - 1) as nat);
            assert(repeated(dot_mark(), dots)[0] == 'd');
        } else {
            assert(repeated(dot_mark(), 0) =~= Seq::<char>::empty());
            if looks_marked(name) {
                assert(encoded[0] == 'l');
            } else {
                assert(encoded[0] == name[0]);
            }
        }
    }
    assert(encoded[0] != "."@[0]);
}

proof fn lemma_mark_characters(count: nat)
    ensures
        forall|i: int|
            0 <= i < repeated(dot_mark(), count).len() ==> #[trigger] repeated(
                dot_mark(),
                count,
            )[i] != '/' && repeated(dot_mark(), count)[i] != '\\',
    decreases count,
{
    if count > 0 {
        lemma_mark_characters((count - 1) as nat);
        let shorter = repeated(dot_mark(), (count - 1) as nat);
        let whole = repeated(dot_mark(), count);
        assert forall|i: int| 0 <= i < whole.len() implies #[trigger] whole[i] != '/' && whole[i]
            != '\\' by {
            if i < shorter.len() {
                assert(whole[i] == shorter[i]);
            } else {
                assert(whole[i] == dot_mark()[i - shorter.len()]);
            }
        }
    }
}

/// The pieces of parts that hold no separator, joined by it, are the parts.
pub proof fn lemma_pieces_joined(parts: Seq<Seq<char>>, separator: char)
    requires
        parts.len() > 0,
        forall|i: int| 0 <= i < parts.len() ==> !(#[trigger] parts[i]).contains(separator),
    ensures
        pieces(joined(parts, seq![separator]), separator) == parts,
    decreases parts.len(),
{
    if parts.len() == 1 {
        crate::text::lemma_pieces_single(parts[0], separator);
        assert(parts =~= seq![parts[0]]);
    } else {
        let shorter = parts.drop_last();
        assert forall|i: int| 0 <= i < shorter.len() implies !(#[trigger] shorter[i]).contains(
            separator,
        ) by {
            assert(shorter[i] == parts[i]);
        }
        lemma_pieces_joined(shorter, separator);
        let head = joined(shorter, seq![separator]);
        assert(head + seq![separator] + parts.last() =~= head.push(separator) + parts.last());
        crate::text::lemma_pieces_concat(head, parts.last(), separator);
        assert(!parts[parts.len() - 1].contains(separator));
        crate::text::lemma_pieces_single(parts.last(), separator);
        assert(shorter + seq![parts.last()] =~= parts);
    }
}

proof fn lemma_no_problem(
    items: Seq<Seq<char>>,
    problem: spec_fn(Seq<char>) -> Option<Seq<char>>,
)
    ensures
        first_among(items, problem) is None <==> forall|i: int|
            0 <= i < items.len() ==> problem(#[trigger] items[i]) is None,
    decreases items.len(),
{
    if items.len() > 0 {
        let shorter = items.drop_last();
        lemma_no_problem(shorter, problem);
        if first_among(items, problem) is None {
            assert forall|i: int| 0 <= i < items.len() implies problem(#[trigger] items[i]) is None by {
                if i < shorter.len() {
                    assert(problem(shorter[i]) is None);
                }
            }
        } else if forall|i: int| 0 <= i < items.len() ==> problem(#[trigger] items[i]) is None {
            assert forall|i: int| 0 <= i < shorter.len() implies problem(
                #[trigger] shorter[i],
            ) is None by {
                assert(shorter[i] == items[i]);
            }
            assert(problem(items[items.len() - 1]) is None);
        }
    }
}

/// Projecting undoes encoding: the physical path that stands for a target path is
/// accepted, stands for that path again, has a target and is not hidden.
pub proof fn law_projection_undoes_encoding(path: Seq<char>)
    requires
        encode_path_problem(path) is None,
    ensures
        projection_problem(encoded_path(path), false) is None,
        projected_path(encoded_path(path)) == path,
        allocated_components(pieces(encoded_path(path), '/')),
        !any_hidden(pieces(encoded_path(path), '/')),
{
    lemma_marks();
    let components = pieces(path, '/');
    let encoded = encoded_components(components);
    crate::text::lemma_pieces(path, '/');
    lemma_no_problem(components, |c: Seq<char>| encode_problem(c));
    crate::text::lemma_joined_pieces(path, '/');
    assert forall|i: int| 0 <= i < components.len() implies ({
        let e = #[trigger] encoded[i];
        &&& !hidden_component(e)
        &&& physical_problem(e, false) is None
        &&& projected_name(e) == components[i]
        &&& !projected_attributes(e).contains(SourceAttribute::Unallocated)
        &&& !e.contains('/')
        &&& !e.contains('\\')
        &&& e.len() > 0
        &&& e != "."@
        &&& e != ".."@
    }) by {
        let c = components[i];
        let f = |c: Seq<char>| encode_problem(c);
        assert(f(components[i]) is None);
        assert(ordinary(components[i]));
        assert(!c.contains('\\')) by {
            lemma_piece_characters(path, '/', '\\', i);
        }
        lemma_encoded_component(c);
    }
    lemma_pieces_joined(encoded, '/');
    assert(pieces(encoded_path(path), '/') == encoded);
    assert(crate::model::path::all_ordinary(encoded));
    lemma_joined_characters(encoded, '/', '\\');
    lemma_no_problem(encoded, |c: Seq<char>| physical_problem(c, false));
    let f = |c: Seq<char>| physical_problem(c, false);
    assert forall|i: int| 0 <= i < encoded.len() implies f(#[trigger] encoded[i]) is None by {}
    assert(projected_names(encoded) =~= components);
}

/// A piece holds no character that the text does not hold.
pub proof fn lemma_piece_characters(text: Seq<char>, separator: char, absent: char, index: int)
    requires
        !text.contains(absent),
        0 <= index < pieces(text, separator).len(),
    ensures
        !pieces(text, separator)[index].contains(absent),
    decreases text.len(),
{
    if text.len() > 0 {
        let shorter = text.drop_last();
        assert forall|j: int| 0 <= j < shorter.len() implies shorter[j] != absent by {
            assert(text.contains(text[j]));
        }
        crate::text::lemma_pieces(shorter, separator);
        let rest = pieces(shorter, separator);
        assert(text.contains(text[text.len() - 1]));
        if index < rest.len() {
            lemma_piece_characters(shorter, separator, absent, index);
            if text.last() != separator && index == rest.len() - 1 {
                let grown = rest.last().push(text.last());
                assert forall|j: int| 0 <= j < grown.len() implies grown[j] != absent by {
                    if j < rest.last().len() {
                        assert(rest[index].contains(rest[index][j]));
                    }
                }
            }
        }
    }
}

/// Joined parts hold no character that neither they nor the separator hold.
proof fn lemma_joined_characters(parts: Seq<Seq<char>>, separator: char, absent: char)
    requires
        absent != separator,
        forall|i: int| 0 <= i < parts.len() ==> !(#[trigger] parts[i]).contains(absent),
    ensures
        !joined(parts, seq![separator]).contains(absent),
    decreases parts.len(),
{
    if parts.len() > 1 {
        let shorter = parts.drop_last();
        assert forall|i: int| 0 <= i < shorter.len() implies !(#[trigger] shorter[i]).contains(
            absent,
        ) by {
            assert(shorter[i] == parts[i]);
        }
        lemma_joined_characters(shorter, separator, absent);
        let head = joined(shorter, seq![separator]);
        let whole = head + seq![separator] + parts.last();
        assert(!parts[parts.len() - 1].contains(absent));
        assert forall|j: int| 0 <= j < whole.len() implies whole[j] != absent by {
            if j < head.len() {
                assert(head.contains(head[j]));
            } else if j > head.len() {
                assert(parts.last().contains(parts.last()[j - head.len() - 1]));
            }
        }
    } else if parts.len() == 1 {
        assert(!parts[0].contains(absent));
    }
}

/// An ordinary selector never authorises a hidden component: unless w.hidden()
/// was used, its physical form names no hidden component, whatever patterns it
/// holds.
pub proof fn law_ordinary_selectors_authorise_no_hidden_component(
    declared: Seq<char>,
    path: Seq<char>,
)
    requires
        selector_problem(declared, false) is None,
        expanded_selector(declared) != "."@,
        any_hidden(pieces(path, '/')),
    ensures
        !authorized(path, physical_selector(declared, false)),
{
    lemma_marks();
    let value = expanded_selector(declared);
    let components = pieces(value, '/');
    let framed = framed_components(components);
    crate::text::lemma_pieces(value, '/');
    lemma_no_problem(components, |c: Seq<char>| framed_problem(c));
    assert forall|i: int| 0 <= i < framed.len() implies !(#[trigger] framed[i]).contains('/')
        && !hidden_component(framed[i]) by {
        let c = components[i];
        let f = |c: Seq<char>| framed_problem(c);
        assert(f(components[i]) is None);
        assert(!c.contains('/'));
        if hidden_component(c) {
            lemma_framed_hidden(c);
        }
    }
    lemma_pieces_joined(framed, '/');
    let hidden = pieces(path, '/');
    let i = choose|i: int| 0 <= i < hidden.len() && hidden_component(hidden[i]);
    assert(hidden_component(hidden[i]));
}

proof fn lemma_framed_hidden(component: Seq<char>)
    requires
        hidden_component(component),
        undotted(component).len() > 0,
        !component.contains('/'),
    ensures
        !encoded_component(component).contains('/'),
        !hidden_component(encoded_component(component)),
{
    let dots = leading_dots(component);
    let name = undotted(component);
    let encoded = encoded_component(component);
    lemma_leading_dots(component);
    lemma_mark_characters(dots);
    let front = repeated(dot_mark(), dots) + (if looks_marked(name) {
        literal_mark()
    } else {
        Seq::<char>::empty()
    });
    assert forall|i: int| 0 <= i < encoded.len() implies encoded[i] != '/' by {
        if i < front.len() {
            if i < repeated(dot_mark(), dots).len() {
                assert(front[i] == repeated(dot_mark(), dots)[i]);
            }
        } else {
            assert(encoded[i] == name[i - front.len()]);
            assert(component.contains(component[i - front.len() + dots]));
        }
    }
    lemma_repeated_front(dot_mark(), (dots - 1) as nat);
    assert(repeated(dot_mark(), dots)[0] == 'd');
    assert(encoded[0] == 'd');
}

/// The mark `literal_` ends the metadata: what follows it stands for itself.
pub proof fn law_literal_stops_parsing(rest: Seq<char>, unallocated: bool)
    ensures
        metadata(literal_mark() + rest, unallocated) == (Metadata::Parsed {
            attributes: seq![SourceAttribute::Literal],
            dots: 0,
            payload: rest,
        }),
{
    let whole = literal_mark() + rest;
    assert(whole.subrange(0, 8) =~= literal_mark());
    assert(!dot_mark().is_prefix_of(whole)) by {
        if dot_mark().is_prefix_of(whole) {
            assert(whole.subrange(0, 4)[0] == 'd');
        }
    }
    assert(!unalloc_mark().is_prefix_of(whole)) by {
        if unalloc_mark().is_prefix_of(whole) {
            assert(whole.subrange(0, 8)[0] == 'u');
        }
    }
    assert(whole.skip(8) =~= rest);
    assert(seq![SourceAttribute::Literal] + Seq::<SourceAttribute>::empty()
        =~= seq![SourceAttribute::Literal]);
}

/// What metadata leaves of a component holds no character that the component does not
/// hold.
proof fn lemma_payload_characters(rest: Seq<char>, unallocated: bool, absent: char)
    requires
        !rest.contains(absent),
    ensures
        metadata(rest, unallocated) matches Metadata::Parsed { payload, .. }
            ==> !payload.contains(absent),
    decreases rest.len(),
{
    assert forall|count: int| 0 <= count <= rest.len() implies !(#[trigger] rest.skip(
        count,
    )).contains(absent) by {
        let tail = rest.skip(count);
        assert forall|i: int| 0 <= i < tail.len() implies tail[i] != absent by {
            assert(rest.contains(rest[count + i]));
        }
    }
    if dot_mark().is_prefix_of(rest) {
        lemma_payload_characters(rest.skip(4), unallocated, absent);
    } else if unalloc_mark().is_prefix_of(rest) {
        if !unallocated {
            lemma_payload_characters(rest.skip(8), true, absent);
        }
    }
}

proof fn lemma_repeated_dots(count: nat)
    ensures
        forall|i: int|
            0 <= i < repeated(seq!['.'], count).len() ==> #[trigger] repeated(seq!['.'], count)[i]
                == '.',
    decreases count,
{
    if count > 0 {
        lemma_repeated_dots((count - 1) as nat);
        let shorter = repeated(seq!['.'], (count - 1) as nat);
        let whole = repeated(seq!['.'], count);
        assert forall|i: int| 0 <= i < whole.len() implies #[trigger] whole[i] == '.' by {
            if i < shorter.len() {
                assert(whole[i] == shorter[i]);
            } else {
                assert(whole[i] == seq!['.'][i - shorter.len()]);
            }
        }
    }
}

proof fn lemma_projected_name(component: Seq<char>, hidden_allowed: bool)
    requires
        ordinary(component),
        !component.contains('/'),
        !component.contains('\\'),
        physical_problem(component, hidden_allowed) is None,
    ensures
        ordinary(projected_name(component)),
        !projected_name(component).contains('/'),
        !projected_name(component).contains('\\'),
{
    if !hidden_component(component) {
        lemma_payload_characters(component, false, '/');
        lemma_payload_characters(component, false, '\\');
        match metadata(component, false) {
            Metadata::Repeated => {},
            Metadata::Parsed { attributes, dots, payload } => {
                let name = repeated(seq!['.'], dots) + payload;
                lemma_repeated_dots(dots);
                let front = repeated(seq!['.'], dots).len();
                assert forall|i: int| 0 <= i < name.len() implies name[i] != '/' && name[i]
                    != '\\' by {
                    if i < front {
                        assert(name[i] == repeated(seq!['.'], dots)[i]);
                    } else {
                        assert(payload.contains(payload[i - front]));
                    }
                }
            },
        }
    }
}

/// What a physical path stands for is a relative path that neither climbs nor holds an
/// empty component: its components are what the components of the path stand for.
pub proof fn law_projected_paths_are_valid(path: Seq<char>, hidden_allowed: bool)
    requires
        projection_problem(path, hidden_allowed) is None,
    ensures
        pieces(projected_path(path), '/') == projected_names(pieces(path, '/')),
        valid_relative(projected_path(path)),
{
    reveal_strlit("/");
    let components = pieces(path, '/');
    let names = projected_names(components);
    crate::text::lemma_pieces(path, '/');
    lemma_no_problem(components, |c: Seq<char>| physical_problem(c, hidden_allowed));
    assert forall|i: int| 0 <= i < names.len() implies ordinary(#[trigger] names[i])
        && !names[i].contains('/') && !names[i].contains('\\') by {
        let f = |c: Seq<char>| physical_problem(c, hidden_allowed);
        assert(f(components[i]) is None);
        assert(ordinary(components[i]));
        lemma_piece_characters(path, '/', '\\', i);
        lemma_projected_name(components[i], hidden_allowed);
    }
    assert("/"@ =~= seq!['/']);
    lemma_pieces_joined(names, '/');
    lemma_joined_characters(names, '/', '\\');
}

/// Marks in front of a name are read from the left: each `dot_` puts a dot in front of the
/// target name and one `unalloc_` keeps the file from having a target. A name without marks
/// stands for itself.
pub proof fn law_marks_are_read_from_the_left(rest: Seq<char>)
    ensures
        component_problem(rest) is None ==> {
            &&& logical_name("dot_"@ + rest) == "."@ + logical_name(rest)
            &&& attributes_of("dot_"@ + rest) == seq![SourceAttribute::Dot] + attributes_of(rest)
        },
        component_problem(rest) is None && !attributes_of(rest).contains(
            SourceAttribute::Unallocated,
        ) ==> {
            &&& logical_name("unalloc_"@ + rest) == logical_name(rest)
            &&& attributes_of("unalloc_"@ + rest).contains(SourceAttribute::Unallocated)
        },
        component_problem(rest) is None && attributes_of(rest).contains(
            SourceAttribute::Unallocated,
        ) ==> component_problem("unalloc_"@ + rest) is Some,
        logical_name("literal_"@ + rest) == rest,
        !"dot_"@.is_prefix_of(rest) && !"unalloc_"@.is_prefix_of(rest) && !"literal_"@.is_prefix_of(
            rest,
        ) ==> logical_name(rest) == rest && attributes_of(rest).len() == 0,
{
    reveal_strlit("dot_");
    reveal_strlit("unalloc_");
    reveal_strlit("literal_");
    reveal_strlit(".");
    assert("dot_"@ =~= dot_mark());
    assert("unalloc_"@ =~= unalloc_mark());
    assert("literal_"@ =~= literal_mark());
    let dotted = dot_mark() + rest;
    assert(dotted.subrange(0, 4) =~= dot_mark());
    assert(dotted.skip(4) =~= rest);
    let held = unalloc_mark() + rest;
    assert(held.subrange(0, 8) =~= unalloc_mark());
    assert(held.skip(8) =~= rest);
    assert(!dot_mark().is_prefix_of(held)) by {
        if dot_mark().is_prefix_of(held) {
            assert(held.subrange(0, 4)[0] == 'd');
        }
    }
    law_literal_stops_parsing(rest, false);
    assert(repeated(seq!['.'], 0) + rest =~= rest);
    lemma_marked_once(rest);
    match metadata(rest, false) {
        Metadata::Parsed { attributes, dots, payload } => {
            assert(repeated(seq!['.'], dots + 1) + payload =~= "."@ + (repeated(seq!['.'], dots)
                + payload)) by {
                lemma_repeated_front(seq!['.'], dots);
            }
            if !attributes.contains(SourceAttribute::Unallocated) {
                let all = seq![SourceAttribute::Unallocated] + attributes;
                assert(all[0] == SourceAttribute::Unallocated);
                assert(all.contains(SourceAttribute::Unallocated));
            }
        },
        Metadata::Repeated => {},
    }
}

/// A mark that may stand once is refused where it stands behind itself.
proof fn lemma_marked_once(rest: Seq<char>)
    ensures
        match metadata(rest, false) {
            Metadata::Repeated => metadata(rest, true) is Repeated,
            Metadata::Parsed { attributes, .. } => if attributes.contains(
                SourceAttribute::Unallocated,
            ) {
                metadata(rest, true) is Repeated
            } else {
                metadata(rest, true) == metadata(rest, false)
            },
        },
    decreases rest.len(),
{
    if dot_mark().is_prefix_of(rest) {
        lemma_marked_once(rest.skip(4));
        match metadata(rest.skip(4), false) {
            Metadata::Parsed { attributes, .. } => {
                let all = seq![SourceAttribute::Dot] + attributes;
                if attributes.contains(SourceAttribute::Unallocated) {
                    let i = choose|i: int|
                        0 <= i < attributes.len() && attributes[i] == SourceAttribute::Unallocated;
                    assert(all[i + 1] == SourceAttribute::Unallocated);
                } else if all.contains(SourceAttribute::Unallocated) {
                    let i = choose|i: int|
                        0 <= i < all.len() && all[i] == SourceAttribute::Unallocated;
                    assert(attributes[i - 1] == SourceAttribute::Unallocated);
                }
            },
            Metadata::Repeated => {},
        }
    } else if unalloc_mark().is_prefix_of(rest) {
        match metadata(rest.skip(8), true) {
            Metadata::Parsed { attributes, .. } => {
                let all = seq![SourceAttribute::Unallocated] + attributes;
                assert(all[0] == SourceAttribute::Unallocated);
            },
            Metadata::Repeated => {},
        }
    }
}

/// The fixed part of a selector ends where the first wildcard stands.
pub proof fn law_fixed_parts_end_at_the_first_wildcard(components: Seq<Seq<char>>)
    ensures
        static_count(components) <= components.len(),
        forall|i: int|
            0 <= i < static_count(components) ==> !globbed(#[trigger] components[i]),
        static_count(components) < components.len() ==> globbed(
            components[static_count(components) as int],
        ),
    decreases components.len(),
{
    if components.len() > 0 && !globbed(components[0]) {
        let rest = components.skip(1);
        law_fixed_parts_end_at_the_first_wildcard(rest);
        assert forall|i: int| 0 <= i < static_count(components) implies !globbed(
            #[trigger] components[i],
        ) by {
            if i > 0 {
                assert(!globbed(rest[i - 1]));
            }
        }
        if static_count(rest) < rest.len() {
            assert(rest[static_count(rest) as int] == components[static_count(rest) as int + 1]);
        }
    }
}

} // verus!
