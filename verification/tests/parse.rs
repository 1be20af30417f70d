use snippet::parse;
use snippet::CaseChange;
use snippet::FormatItem;
use snippet::Regex;
use snippet::SnippetElement::Choice;
use snippet::SnippetElement::Placeholder;
use snippet::SnippetElement::Tabstop;
use snippet::SnippetElement::Text;
use snippet::SnippetElement::Variable;

#[test]
fn empty_string_is_error() {
    assert_eq!(Err(""), parse(""));
}

#[test]
fn parse_placeholders_in_function_call() {
    assert_eq!(
        Ok(vec![
            Text("match("),
            Placeholder {
                tabstop: 1,
                value: Box::new(Text("Arg1")),
            },
            Text(")")
        ]),
        parse("match(${1:Arg1})")
    )
}

#[test]
fn parse_placeholders_in_statement() {
    assert_eq!(
        Ok(vec![
            Text("local "),
            Placeholder {
                tabstop: 1,
                value: Box::new(Text("var")),
            },
            Text(" = "),
            Placeholder {
                tabstop: 1,
                value: Box::new(Text("value")),
            },
        ]),
        parse("local ${1:var} = ${1:value}")
    )
}

#[test]
fn parse_all() {
    assert_eq!(
        Ok(vec![
            Text("hello "),
            Tabstop { tabstop: 1 },
            Tabstop { tabstop: 2 },
            Text(" "),
            Choice {
                tabstop: 1,
                choices: vec!["one", "two", "three"]
            },
            Text(" "),
            Variable {
                name: "name",
                default: Some("foo"),
                regex: None
            },
            Text(" "),
            Variable {
                name: "var",
                default: None,
                regex: None
            },
            Text(" "),
            Variable {
                name: "TM",
                default: None,
                regex: None
            },
        ]),
        parse("hello $1${2} ${1|one,two,three|} ${name:foo} $var $TM")
    );
}

#[test]
fn regex_capture_replace() {
    assert_eq!(
        Ok(vec![Variable {
            name: "TM_FILENAME",
            default: None,
            regex: Some(Regex {
                value: "(.*).+$",
                replacement: vec![FormatItem::Capture(1)],
                options: None,
            }),
        }]),
        parse("${TM_FILENAME/(.*).+$/$1/}")
    );
}

#[test]
fn text_only_input_is_one_text_element() {
    assert_eq!(Ok(vec![Text("hello world")]), parse("hello world"));
}

#[test]
fn unterminated_construct_is_error() {
    assert_eq!(Err("${1"), parse("${1"));
}

#[test]
fn trailing_unparsable_input_is_dropped() {
    assert_eq!(Ok(vec![Text("abc")]), parse("abc${1"));
}

#[test]
fn braced_and_zero_tabstops() {
    assert_eq!(
        Ok(vec![Tabstop { tabstop: 0 }, Tabstop { tabstop: 7 }]),
        parse("$0${7}")
    );
}

#[test]
fn tabstop_number_too_large_is_error() {
    // one more than usize::MAX: the digit run matches but its value does
    // not fit, so no production matches at all
    assert_eq!(
        Err("$18446744073709551616"),
        parse("$18446744073709551616")
    );
}

#[test]
fn tabstop_number_at_usize_max_parses() {
    assert_eq!(
        Ok(vec![Tabstop {
            tabstop: usize::MAX
        }]),
        parse("$18446744073709551615")
    );
}

#[test]
fn nested_placeholder_keeps_single_tabstop() {
    assert_eq!(
        Ok(vec![Placeholder {
            tabstop: 1,
            value: Box::new(Tabstop { tabstop: 2 }),
        }]),
        parse("${1:$2}")
    );
}

#[test]
fn placeholder_keeps_only_first_element_of_value() {
    assert_eq!(
        Ok(vec![Placeholder {
            tabstop: 1,
            value: Box::new(Text("a ")),
        }]),
        parse("${1:a $2}")
    );
}

#[test]
fn single_choice_alternative() {
    assert_eq!(
        Ok(vec![Choice {
            tabstop: 2,
            choices: vec!["a"]
        }]),
        parse("${2|a|}")
    );
}

#[test]
fn empty_choice_list_is_error() {
    assert_eq!(Err("${1||}"), parse("${1||}"));
}

#[test]
fn empty_variable_default_is_error() {
    assert_eq!(Err("${name:}"), parse("${name:}"));
}

#[test]
fn regex_with_options_and_conditional() {
    assert_eq!(
        Ok(vec![Variable {
            name: "x",
            default: None,
            regex: Some(Regex {
                value: "p",
                replacement: vec![FormatItem::Conditional(1, Some("yes"), Some("no"))],
                options: Some("gi"),
            }),
        }]),
        parse("${x/p/${1:?yes:no}/gi}")
    );
}

#[test]
fn regex_replacement_mixes_text_and_captures() {
    assert_eq!(
        Ok(vec![Variable {
            name: "f",
            default: None,
            regex: Some(Regex {
                value: "(a)",
                replacement: vec![
                    FormatItem::Text("x"),
                    FormatItem::Capture(1),
                    FormatItem::Text("y"),
                ],
                options: None,
            }),
        }]),
        parse("${f/(a)/x$1y/}")
    );
}

#[test]
fn regex_replacement_braced_capture() {
    assert_eq!(
        Ok(vec![Variable {
            name: "f",
            default: None,
            regex: Some(Regex {
                value: "p",
                replacement: vec![FormatItem::Capture(2)],
                options: None,
            }),
        }]),
        parse("${f/p/${2}/}")
    );
}

#[test]
fn case_change_slash_ends_replacement_fragment() {
    // the replacement fragment is carved out up to the next `/`, so the `/`
    // inside `:/downcase` truncates it to "${1:" and the whole construct
    // fails to parse
    assert_eq!(
        Err("${f/p/${1:/downcase}/}"),
        parse("${f/p/${1:/downcase}/}")
    );
}

#[test]
fn format_production_parses_case_change() {
    assert_eq!(
        Some(("", FormatItem::CaseChange(1, CaseChange::Downcase))),
        snippet::parser::format("${1:/downcase}")
    );
    assert_eq!(
        Some(("", FormatItem::CaseChange(2, CaseChange::Upcase))),
        snippet::parser::format("${2:/upcase}")
    );
    assert_eq!(
        Some(("x", FormatItem::CaseChange(3, CaseChange::Capitalize))),
        snippet::parser::format("${3:/capitalize}x")
    );
}

#[test]
fn regex_replacement_conditional_if_only() {
    assert_eq!(
        Ok(vec![Variable {
            name: "f",
            default: None,
            regex: Some(Regex {
                value: "p",
                replacement: vec![FormatItem::Conditional(1, Some("yy"), None)],
                options: None,
            }),
        }]),
        parse("${f/p/${1:+yy}/}")
    );
}

#[test]
fn regex_replacement_else_with_and_without_dash() {
    assert_eq!(
        Ok(vec![Variable {
            name: "f",
            default: None,
            regex: Some(Regex {
                value: "p",
                replacement: vec![FormatItem::Conditional(1, None, Some("def"))],
                options: None,
            }),
        }]),
        parse("${f/p/${1:-def}/}")
    );
    assert_eq!(
        Ok(vec![Variable {
            name: "f",
            default: None,
            regex: Some(Regex {
                value: "p",
                replacement: vec![FormatItem::Conditional(1, None, Some("def"))],
                options: None,
            }),
        }]),
        parse("${f/p/${1:def}/}")
    );
}

#[test]
fn bare_variable_with_underscore_and_digits() {
    assert_eq!(
        Ok(vec![Variable {
            name: "_v2",
            default: None,
            regex: None
        }]),
        parse("$_v2")
    );
}

#[test]
fn multibyte_text_is_kept_whole() {
    assert_eq!(
        Ok(vec![
            Text("héllo "),
            Placeholder {
                tabstop: 1,
                value: Box::new(Text("wörld")),
            },
        ]),
        parse("héllo ${1:wörld}")
    );
}

#[test]
fn empty_middle_choice_alternative_is_error() {
    assert_eq!(Err("${1|a,,b|}"), parse("${1|a,,b|}"));
}
