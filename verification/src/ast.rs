//! The syntax tree produced by the snippet grammar.
//!
//! Every text-bearing field borrows a span of the original input, so a tree
//! is only valid while the source text it was parsed from is alive.  Each
//! executable type has a mathematical model built from `Seq<char>`, reached
//! through `view`; the grammar's contracts speak of those models.

use vstd::prelude::*;

verus! {

/// A case transformation applied to a capture group inside a regex
/// replacement.
#[derive(Debug, PartialEq, Eq)]
pub enum CaseChange {
    Upcase,
    Downcase,
    Capitalize,
}

/// One token of a regex replacement template: literal text, a capture-group
/// reference, a case transform of a group, or conditional text chosen by
/// whether a group matched.
#[derive(Debug, PartialEq, Eq)]
pub enum FormatItem<'a> {
    Text(&'a str),
    Capture(usize),
    CaseChange(usize, CaseChange),
    Conditional(usize, Option<&'a str>, Option<&'a str>),
}

/// A regex transform attached to a variable: an opaque pattern, a replacement
/// template of one or more format items, and optional opaque option flags.
/// The pattern and options are never compiled or executed here.
#[derive(Debug, PartialEq, Eq)]
pub struct Regex<'a> {
    pub value: &'a str,
    pub replacement: Vec<FormatItem<'a>>,
    pub options: Option<&'a str>,
}

/// One element of a parsed snippet.
#[derive(Debug, PartialEq, Eq)]
pub enum SnippetElement<'a> {
    Tabstop { tabstop: usize },
    Placeholder { tabstop: usize, value: Box<SnippetElement<'a>> },
    Choice { tabstop: usize, choices: Vec<&'a str> },
    Variable { name: &'a str, default: Option<&'a str>, regex: Option<Regex<'a>> },
    Text(&'a str),
}

/// A parsed snippet: the elements in their left-to-right source order.
pub type Snippet<'a> = Vec<SnippetElement<'a>>;

/// Mathematical model of a `FormatItem`, with text as character sequences.
pub enum FormatItemModel {
    Text(Seq<char>),
    Capture(usize),
    CaseChange(usize, CaseChange),
    Conditional(usize, Option<Seq<char>>, Option<Seq<char>>),
}

/// Mathematical model of a `Regex`.
pub struct RegexModel {
    pub value: Seq<char>,
    pub replacement: Seq<FormatItemModel>,
    pub options: Option<Seq<char>>,
}

/// Mathematical model of a `SnippetElement`.
pub enum ElementModel {
    Tabstop { tabstop: usize },
    Placeholder { tabstop: usize, value: Box<ElementModel> },
    Choice { tabstop: usize, choices: Seq<Seq<char>> },
    Variable { name: Seq<char>, default: Option<Seq<char>>, regex: Option<RegexModel> },
    Text(Seq<char>),
}

pub open spec fn format_item_view(f: FormatItem) -> FormatItemModel {
    match f {
        FormatItem::Text(t) => FormatItemModel::Text(t@),
        FormatItem::Capture(g) => FormatItemModel::Capture(g),
        FormatItem::CaseChange(g, c) => FormatItemModel::CaseChange(g, c),
        FormatItem::Conditional(g, i, e) => FormatItemModel::Conditional(
            g,
            match i {
                Option::Some(t) => Option::Some(t@),
                Option::None => Option::None,
            },
            match e {
                Option::Some(t) => Option::Some(t@),
                Option::None => Option::None,
            },
        ),
    }
}

/// The models of a sequence of format items, in order.
pub open spec fn format_views(fs: Seq<FormatItem>) -> Seq<FormatItemModel> {
    fs.map_values(|f: FormatItem| format_item_view(f))
}

/// The views of a sequence of borrowed text spans, in order.
pub open spec fn str_views(ts: Seq<&str>) -> Seq<Seq<char>> {
    ts.map_values(|t: &str| t@)
}

pub open spec fn regex_view(r: Regex) -> RegexModel {
    RegexModel {
        value: r.value@,
        replacement: format_views(r.replacement@),
        options: match r.options {
            Option::Some(o) => Option::Some(o@),
            Option::None => Option::None,
        },
    }
}

pub open spec fn element_view(e: SnippetElement) -> ElementModel
    decreases e,
{
    match e {
        SnippetElement::Tabstop { tabstop } => ElementModel::Tabstop { tabstop },
        SnippetElement::Placeholder { tabstop, value } => ElementModel::Placeholder {
            tabstop,
            value: Box::new(element_view(*value)),
        },
        SnippetElement::Choice { tabstop, choices } => ElementModel::Choice {
            tabstop,
            choices: str_views(choices@),
        },
        SnippetElement::Variable { name, default, regex } => ElementModel::Variable {
            name: name@,
            default: match default {
                Option::Some(d) => Option::Some(d@),
                Option::None => Option::None,
            },
            regex: match regex {
                Option::Some(r) => Option::Some(regex_view(r)),
                Option::None => Option::None,
            },
        },
        SnippetElement::Text(t) => ElementModel::Text(t@),
    }
}

/// The models of a sequence of snippet elements, in order.
pub open spec fn element_views(es: Seq<SnippetElement>) -> Seq<ElementModel> {
    es.map_values(|e: SnippetElement| element_view(e))
}

impl<'a> View for FormatItem<'a> {
    type V = FormatItemModel;

    open spec fn view(&self) -> FormatItemModel {
        format_item_view(*self)
    }
}

impl<'a> View for Regex<'a> {
    type V = RegexModel;

    open spec fn view(&self) -> RegexModel {
        regex_view(*self)
    }
}

impl<'a> View for SnippetElement<'a> {
    type V = ElementModel;

    open spec fn view(&self) -> ElementModel {
        element_view(*self)
    }
}

} // verus!
