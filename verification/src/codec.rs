//! TOML and YAML texts of values.
use serde_json::Value;
use vstd::prelude::*;
use vstd::string::*;

use crate::json::{contents, JsonTree};

verus! {

/// The TOML text of a value, or why it has none.
pub uninterp spec fn toml_encoded(tree: JsonTree) -> std::result::Result<Seq<char>, Seq<char>>;

/// `toml::to_string_pretty` of a `serde_json::Value`. Its text, and the text of its
/// error, depend on the contents of the value alone.
#[verifier::external_body]
pub(crate) fn toml_text(value: &Value) -> (r: std::result::Result<String, String>)
    ensures
        match r {
            Ok(text) => toml_encoded(contents(*value)) == std::result::Result::<
                Seq<char>,
                Seq<char>,
            >::Ok(text@),
            Err(message) => toml_encoded(contents(*value)) == std::result::Result::<
                Seq<char>,
                Seq<char>,
            >::Err(message@),
        },
{
    toml::to_string_pretty(value).map_err(|error| error.to_string())
}

/// How YAML text is laid out.
#[derive(Clone, Copy, Debug, PartialEq, Eq, Structural)]
pub struct YamlStyle {
    /// Whether empty collections are written with braces
    pub empty_as_braces: bool,
    /// How many spaces a level is set in by
    pub indent_step: usize,
    /// Whether lists are set in less
    pub compact_list_indent: bool,
    /// Whether enums are tagged
    pub tagged_enums: bool,
    /// Whether all strings are quoted
    pub quote_all: bool,
    /// Whether the text is of version 1.2
    pub yaml_12: bool,
}

/// The YAML text of a value in a style, or why it has none.
pub uninterp spec fn yaml_encoded(tree: JsonTree, style: YamlStyle) -> std::result::Result<
    Seq<char>,
    Seq<char>,
>;

/// `serde_saphyr::to_string_with_options` of a `serde_json::Value`, with the options
/// of the style and otherwise its default ones. Its text, and the text of its error,
/// depend on the contents of the value and the style alone.
#[verifier::external_body]
pub(crate) fn yaml_text(value: &Value, style: YamlStyle) -> (r: std::result::Result<String, String>)
    ensures
        match r {
            Ok(text) => yaml_encoded(contents(*value), style) == std::result::Result::<
                Seq<char>,
                Seq<char>,
            >::Ok(text@),
            Err(message) => yaml_encoded(contents(*value), style) == std::result::Result::<
                Seq<char>,
                Seq<char>,
            >::Err(message@),
        },
{
    let mut options = serde_saphyr::SerializerOptions::default();
    options.empty_as_braces = style.empty_as_braces;
    options.indent_step = style.indent_step;
    options.compact_list_indent = style.compact_list_indent;
    options.tagged_enums = style.tagged_enums;
    options.quote_all = style.quote_all;
    options.yaml_12 = style.yaml_12;
    serde_saphyr::to_string_with_options(value, options).map_err(|error| error.to_string())
}

/// The tag of an event of YAML.
#[derive(Debug, PartialEq)]
pub struct YamlTag {
    /// The tag
    pub tag: String,
    /// Whether it is one of the core tags
    pub core: bool,
    /// The line it begins in, from one
    pub line: u64,
    /// The column it begins in, from zero
    pub column: u64,
}

/// An event of YAML: its tag, where it has one, or why there is no event.
pub type YamlEvent = std::result::Result<Option<YamlTag>, String>;

/// What an event says: the tag, whether it is a core one, and where it begins.
pub type YamlEventView = std::result::Result<Option<(Seq<char>, bool, u64, u64)>, Seq<char>>;

/// What events say.
pub open spec fn event_views(events: Seq<YamlEvent>) -> Seq<YamlEventView> {
    events.map_values(
        |event: YamlEvent|
            match event {
                Ok(Some(tag)) => YamlEventView::Ok(
                    Some((tag.tag@, tag.core, tag.line, tag.column)),
                ),
                Ok(None) => YamlEventView::Ok(None),
                Err(reason) => YamlEventView::Err(reason@),
            },
    )
}

/// The events of a YAML text.
pub uninterp spec fn yaml_events_of(source: Seq<char>) -> Seq<YamlEventView>;

/// The events that `granit_parser::Parser` yields for a text, each with its tag, whether
/// `Tag::core_suffix` knows that, and the marker that it begins at. An error is the last
/// of them. They depend on the text alone.
#[verifier::external_body]
pub(crate) fn yaml_events(source: &str) -> (r: Vec<YamlEvent>)
    ensures
        event_views(r@) == yaml_events_of(source@),
{
    let marked = serde_saphyr::granit_parser::Parser::new_from_str(source).map(|next| {
        let (event, span) = next.map_err(|error| error.to_string())?;
        let marker = span.tag_start.unwrap_or(span.start);
        Ok(event.tag().map(|tag| YamlTag {
            tag: tag.to_string(),
            core: tag.core_suffix().is_some(),
            line: marker.line() as u64,
            column: marker.col() as u64,
        }))
    });
    marked.collect()
}

} // verus!
