//! The snippet grammar, as a mathematical definition.
//!
//! Each production is a specification function from an input (a sequence of
//! characters) to either `None` — the production does not match at the start
//! of the input — or `Some((n, v))`: the production matches, consumes exactly
//! the first `n` characters, and yields the value `v`.  Alternatives are
//! tried strictly in the order written and the first match wins; a failing
//! production consumes nothing.  The executable parser is verified to return
//! exactly what these definitions say.
//!
//! "Take text up to the next `X`" scans (`take_until`) succeed only when the
//! delimiter occurs at a positive offset: they fail on an immediate
//! delimiter and on a missing one.  This is why, for example, a regex
//! transform written with no trailing option flags carries `options: None`
//! rather than an empty options text.

use vstd::prelude::*;

use crate::ast::CaseChange;
use crate::ast::ElementModel;
use crate::ast::FormatItemModel;
use crate::ast::RegexModel;
use crate::scan::digits_val;
use crate::scan::is_ident_start_char;
use crate::scan::run_len;
use crate::scan::CharClass;

verus! {

/// `take_until`: the text before the first character of `cls`'s complement…
/// more precisely, the run of characters inside `cls` (all `Not*` classes),
/// which must be non-empty and must stop before the end of the input.
pub open spec fn spec_take_until(s: Seq<char>, cls: CharClass) -> Option<(nat, Seq<char>)> {
    let t: nat = run_len(s, cls);
    if 0 < t && t < s.len() {
        Some((t, s.take(t as int)))
    } else {
        None
    }
}

/// A non-empty run of decimal digits whose value fits in `usize`.
/// (The run never reaches past the end of the input, so the bound on its
/// length below is part of the definition only to keep it self-contained.)
pub open spec fn spec_digit(s: Seq<char>) -> Option<(nat, usize)> {
    let n: nat = run_len(s, CharClass::Digit);
    if 1 <= n && n <= s.len() && digits_val(s.take(n as int)) <= usize::MAX {
        Some((n, digits_val(s.take(n as int)) as usize))
    } else {
        None
    }
}

/// An identifier: a letter or `_`, then letters, digits and `_`.
pub open spec fn spec_var(s: Seq<char>) -> Option<(nat, Seq<char>)> {
    if s.len() > 0 && is_ident_start_char(s[0]) && 1 + run_len(s.skip(1), CharClass::IdentTail)
        <= s.len() {
        let n: nat = (1 + run_len(s.skip(1), CharClass::IdentTail)) as nat;
        Some((n, s.take(n as int)))
    } else {
        None
    }
}

/// A non-empty run of characters other than `$`.
pub open spec fn spec_text_run(s: Seq<char>) -> Option<(nat, Seq<char>)> {
    let t: nat = run_len(s, CharClass::NotDollar);
    if 1 <= t && t <= s.len() {
        Some((t, s.take(t as int)))
    } else {
        None
    }
}

/// One of the literal keywords `upcase`, `downcase`, `capitalize`.
pub open spec fn spec_case_change(s: Seq<char>) -> Option<(nat, CaseChange)> {
    if s.len() >= 6 && s[0] == 'u' && s[1] == 'p' && s[2] == 'c' && s[3] == 'a' && s[4] == 's'
        && s[5] == 'e' {
        Some((6 as nat, CaseChange::Upcase))
    } else if s.len() >= 8 && s[0] == 'd' && s[1] == 'o' && s[2] == 'w' && s[3] == 'n' && s[4]
        == 'c' && s[5] == 'a' && s[6] == 's' && s[7] == 'e' {
        Some((8 as nat, CaseChange::Downcase))
    } else if s.len() >= 10 && s[0] == 'c' && s[1] == 'a' && s[2] == 'p' && s[3] == 'i' && s[4]
        == 't' && s[5] == 'a' && s[6] == 'l' && s[7] == 'i' && s[8] == 'z' && s[9] == 'e' {
        Some((10 as nat, CaseChange::Capitalize))
    } else {
        None
    }
}

/// Format item, first alternative: `$` digits.
pub open spec fn spec_fmt_capture_bare(s: Seq<char>) -> Option<(nat, FormatItemModel)> {
    if s.len() >= 1 && s[0] == '$' {
        match spec_digit(s.skip(1)) {
            Some((nd, g)) => Some(((1 + nd) as nat, FormatItemModel::Capture(g))),
            None => None,
        }
    } else {
        None
    }
}

/// Format item, second alternative: `${` digits `}`.
pub open spec fn spec_fmt_capture_braced(s: Seq<char>) -> Option<(nat, FormatItemModel)> {
    if s.len() >= 2 && s[0] == '$' && s[1] == '{' {
        match spec_digit(s.skip(2)) {
            Some((nd, g)) => {
                let j: int = 2 + nd as int;
                if j < s.len() && s[j] == '}' {
                    Some(((j + 1) as nat, FormatItemModel::Capture(g)))
                } else {
                    None
                }
            },
            None => None,
        }
    } else {
        None
    }
}

/// Format item, third alternative: `${` digits `:/` keyword `}`.
pub open spec fn spec_fmt_case(s: Seq<char>) -> Option<(nat, FormatItemModel)> {
    if s.len() >= 2 && s[0] == '$' && s[1] == '{' {
        match spec_digit(s.skip(2)) {
            Some((nd, g)) => {
                let j: int = 2 + nd as int;
                if j + 1 < s.len() && s[j] == ':' && s[j + 1] == '/' {
                    match spec_case_change(s.skip(j + 2)) {
                        Some((nc, cc)) => {
                            let k: int = j + 2 + nc as int;
                            if k < s.len() && s[k] == '}' {
                                Some(((k + 1) as nat, FormatItemModel::CaseChange(g, cc)))
                            } else {
                                None
                            }
                        },
                        None => None,
                    }
                } else {
                    None
                }
            },
            None => None,
        }
    } else {
        None
    }
}

/// Format item, fourth alternative: `${` digits `:+` if-text `}`.
pub open spec fn spec_fmt_cond_if(s: Seq<char>) -> Option<(nat, FormatItemModel)> {
    if s.len() >= 2 && s[0] == '$' && s[1] == '{' {
        match spec_digit(s.skip(2)) {
            Some((nd, g)) => {
                let j: int = 2 + nd as int;
                if j + 1 < s.len() && s[j] == ':' && s[j + 1] == '+' {
                    match spec_take_until(s.skip(j + 2), CharClass::NotBrace) {
                        Some((t, cond)) => {
                            let k: int = j + 2 + t as int;
                            if k < s.len() && s[k] == '}' {
                                Some(((k + 1) as nat, FormatItemModel::Conditional(
                                    g,
                                    Some(cond),
                                    None,
                                )))
                            } else {
                                None
                            }
                        },
                        None => None,
                    }
                } else {
                    None
                }
            },
            None => None,
        }
    } else {
        None
    }
}

/// Format item, fifth alternative: `${` digits `:?` if-text `:` else-text `}`.
pub open spec fn spec_fmt_cond_if_else(s: Seq<char>) -> Option<(nat, FormatItemModel)> {
    if s.len() >= 2 && s[0] == '$' && s[1] == '{' {
        match spec_digit(s.skip(2)) {
            Some((nd, g)) => {
                let j: int = 2 + nd as int;
                if j + 1 < s.len() && s[j] == ':' && s[j + 1] == '?' {
                    match spec_take_until(s.skip(j + 2), CharClass::NotColon) {
                        Some((t1, cond_if)) => {
                            let k: int = j + 2 + t1 as int;
                            if k < s.len() && s[k] == ':' {
                                match spec_take_until(s.skip(k + 1), CharClass::NotBrace) {
                                    Some((t2, cond_else)) => {
                                        let m: int = k + 1 + t2 as int;
                                        if m < s.len() && s[m] == '}' {
                                            Some(((m + 1) as nat, FormatItemModel::Conditional(
                                                g,
                                                Some(cond_if),
                                                Some(cond_else),
                                            )))
                                        } else {
                                            None
                                        }
                                    },
                                    None => None,
                                }
                            } else {
                                None
                            }
                        },
                        None => None,
                    }
                } else {
                    None
                }
            },
            None => None,
        }
    } else {
        None
    }
}

/// Format item, sixth alternative: `${` digits `:-` else-text `}`, the `-`
/// optional.
pub open spec fn spec_fmt_cond_else(s: Seq<char>) -> Option<(nat, FormatItemModel)> {
    if s.len() >= 2 && s[0] == '$' && s[1] == '{' {
        match spec_digit(s.skip(2)) {
            Some((nd, g)) => {
                let j: int = 2 + nd as int;
                if j < s.len() && s[j] == ':' {
                    let d: int = if j + 1 < s.len() && s[j + 1] == '-' {
                        j + 2
                    } else {
                        j + 1
                    };
                    match spec_take_until(s.skip(d), CharClass::NotBrace) {
                        Some((t, cond)) => {
                            let k: int = d + t as int;
                            if k < s.len() && s[k] == '}' {
                                Some(((k + 1) as nat, FormatItemModel::Conditional(
                                    g,
                                    None,
                                    Some(cond),
                                )))
                            } else {
                                None
                            }
                        },
                        None => None,
                    }
                } else {
                    None
                }
            },
            None => None,
        }
    } else {
        None
    }
}

/// Format item, last alternative: literal text up to the next `$`.
pub open spec fn spec_fmt_text(s: Seq<char>) -> Option<(nat, FormatItemModel)> {
    match spec_text_run(s) {
        Some((t, text)) => Some((t, FormatItemModel::Text(text))),
        None => None,
    }
}

/// One format item of a regex replacement.  Ordered alternation: the text
/// fallback must come last or it would swallow the other constructs.
pub open spec fn spec_format(s: Seq<char>) -> Option<(nat, FormatItemModel)> {
    match spec_fmt_capture_bare(s) {
        Some(r) => Some(r),
        None => match spec_fmt_capture_braced(s) {
            Some(r) => Some(r),
            None => match spec_fmt_case(s) {
                Some(r) => Some(r),
                None => match spec_fmt_cond_if(s) {
                    Some(r) => Some(r),
                    None => match spec_fmt_cond_if_else(s) {
                        Some(r) => Some(r),
                        None => match spec_fmt_cond_else(s) {
                            Some(r) => Some(r),
                            None => spec_fmt_text(s),
                        },
                    },
                },
            },
        },
    }
}

/// One or more format items, in order.
pub open spec fn spec_format_list(s: Seq<char>) -> Option<(nat, Seq<FormatItemModel>)>
    decreases s.len(),
{
    match spec_format(s) {
        None => None,
        Some((n, f)) => match spec_format_list(s.skip(n as int)) {
            None => Some((n, seq![f])),
            Some((n2, fs)) => Some(((n + n2) as nat, seq![f] + fs)),
        },
    }
}

/// A regex transform: `/` pattern `/` replacement `/` optional options.  The
/// replacement fragment is carved out up to the next `/` and must re-parse
/// in full as one or more format items.  The closing `}` belongs to the
/// enclosing variable production.
pub open spec fn spec_regex(s: Seq<char>) -> Option<(nat, RegexModel)> {
    if s.len() >= 1 && s[0] == '/' {
        match spec_take_until(s.skip(1), CharClass::NotSlash) {
            Some((t1, pattern)) => {
                if s[1 + t1 as int] == '/' {
                    let p2: int = 1 + t1 as int + 1;
                    match spec_take_until(s.skip(p2), CharClass::NotSlash) {
                        Some((t2, _fragment)) => {
                            match spec_format_list(s.subrange(p2, p2 + t2 as int)) {
                                Some((nf, items)) => {
                                    if nf == t2 && s[p2 + t2 as int] == '/' {
                                        let p3: int = p2 + t2 as int + 1;
                                        match spec_take_until(s.skip(p3), CharClass::NotBrace) {
                                            Some((t3, opts)) => Some(((p3 + t3 as int) as nat, RegexModel {
                                                value: pattern,
                                                replacement: items,
                                                options: Some(opts),
                                            })),
                                            None => Some((p3 as nat, RegexModel {
                                                value: pattern,
                                                replacement: items,
                                                options: None,
                                            })),
                                        }
                                    } else {
                                        None
                                    }
                                },
                                None => None,
                            }
                        },
                        None => None,
                    }
                } else {
                    None
                }
            },
            None => None,
        }
    } else {
        None
    }
}

/// A tabstop: `$` digits, or `${` digits `}`.
pub open spec fn spec_tabstop(s: Seq<char>) -> Option<(nat, ElementModel)> {
    let bare = if s.len() >= 1 && s[0] == '$' {
        match spec_digit(s.skip(1)) {
            Some((nd, v)) => Some(((1 + nd) as nat, ElementModel::Tabstop { tabstop: v })),
            None => None,
        }
    } else {
        None
    };
    match bare {
        Some(r) => Some(r),
        None => {
            if s.len() >= 2 && s[0] == '$' && s[1] == '{' {
                match spec_digit(s.skip(2)) {
                    Some((nd, v)) => {
                        let j: int = 2 + nd as int;
                        if j < s.len() && s[j] == '}' {
                            Some(((j + 1) as nat, ElementModel::Tabstop { tabstop: v }))
                        } else {
                            None
                        }
                    },
                    None => None,
                }
            } else {
                None
            }
        },
    }
}

/// The comma-separated alternatives of a choice, each scanned up to the next
/// `,` or `|`.  A `,` after an alternative demands a further alternative.
pub open spec fn spec_choice_items(s: Seq<char>) -> Option<(nat, Seq<Seq<char>>)>
    decreases s.len(),
{
    match spec_take_until(s, CharClass::NotCommaBar) {
        Some((t, item)) => {
            if s[t as int] == ',' {
                match spec_choice_items(s.skip(t as int + 1)) {
                    Some((n2, items)) => Some(((t + 1 + n2) as nat, seq![item] + items)),
                    None => None,
                }
            } else {
                Some((t, seq![item]))
            }
        },
        None => None,
    }
}

/// A choice: `${` digits `|` alternatives `|}`.
pub open spec fn spec_choice(s: Seq<char>) -> Option<(nat, ElementModel)> {
    if s.len() >= 2 && s[0] == '$' && s[1] == '{' {
        match spec_digit(s.skip(2)) {
            Some((nd, v)) => {
                let j: int = 2 + nd as int;
                if j < s.len() && s[j] == '|' {
                    match spec_choice_items(s.skip(j + 1)) {
                        Some((ni, items)) => {
                            let k: int = j + 1 + ni as int;
                            if k + 1 < s.len() && s[k] == '|' && s[k + 1] == '}' {
                                Some(((k + 2) as nat, ElementModel::Choice {
                                    tabstop: v,
                                    choices: items,
                                }))
                            } else {
                                None
                            }
                        },
                        None => None,
                    }
                } else {
                    None
                }
            },
            None => None,
        }
    } else {
        None
    }
}

/// A variable, three ordered forms: `$name`, `${name:default}`,
/// `${name` regex `}`.  By construction a variable never carries both a
/// default and a regex.
pub open spec fn spec_variable(s: Seq<char>) -> Option<(nat, ElementModel)> {
    let bare = if s.len() >= 1 && s[0] == '$' {
        match spec_var(s.skip(1)) {
            Some((nv, name)) => Some(((1 + nv) as nat, ElementModel::Variable {
                name,
                default: None,
                regex: None,
            })),
            None => None,
        }
    } else {
        None
    };
    match bare {
        Some(r) => Some(r),
        None => {
            if s.len() >= 2 && s[0] == '$' && s[1] == '{' {
                match spec_var(s.skip(2)) {
                    Some((nv, name)) => {
                        let j: int = 2 + nv as int;
                        let with_default = if j < s.len() && s[j] == ':' {
                            match spec_take_until(s.skip(j + 1), CharClass::NotBrace) {
                                Some((t, dflt)) => {
                                    let m: int = j + 1 + t as int;
                                    if m < s.len() && s[m] == '}' {
                                        Some(((m + 1) as nat, ElementModel::Variable {
                                            name,
                                            default: Some(dflt),
                                            regex: None,
                                        }))
                                    } else {
                                        None
                                    }
                                },
                                None => None,
                            }
                        } else {
                            None
                        };
                        match with_default {
                            Some(r) => Some(r),
                            None => match spec_regex(s.skip(j)) {
                                Some((nr, rx)) => {
                                    let k: int = j + nr as int;
                                    if k < s.len() && s[k] == '}' {
                                        Some(((k + 1) as nat, ElementModel::Variable {
                                            name,
                                            default: None,
                                            regex: Some(rx),
                                        }))
                                    } else {
                                        None
                                    }
                                },
                                None => None,
                            },
                        }
                    },
                    None => None,
                }
            } else {
                None
            }
        },
    }
}

/// Literal text: a non-empty run of characters other than `$`, so text can
/// never swallow the start of another construct.
pub open spec fn spec_text(s: Seq<char>) -> Option<(nat, ElementModel)> {
    match spec_text_run(s) {
        Some((t, text)) => Some((t, ElementModel::Text(text))),
        None => None,
    }
}

/// A placeholder: `${` digits `:` value `}`.  The value is carved out by
/// scanning to the first `}` — nested brace depth is deliberately not
/// tracked — and that fragment is re-parsed with the full grammar, keeping
/// only the first element it yields.
pub open spec fn spec_placeholder(s: Seq<char>) -> Option<(nat, ElementModel)>
    decreases s.len(), 0int,
{
    if s.len() >= 2 && s[0] == '$' && s[1] == '{' {
        match spec_digit(s.skip(2)) {
            Some((nd, v)) => {
                let j: int = 2 + nd as int;
                if j < s.len() && s[j] == ':' {
                    match spec_take_until(s.skip(j + 1), CharClass::NotBrace) {
                        Some((t, _fragment)) => {
                            match spec_anything(s.subrange(j + 1, j + 1 + t as int)) {
                                Some((_inner_n, inner)) => {
                                    let k: int = j + 1 + t as int;
                                    if k < s.len() && s[k] == '}' {
                                        Some(((k + 1) as nat, ElementModel::Placeholder {
                                            tabstop: v,
                                            value: Box::new(inner),
                                        }))
                                    } else {
                                        None
                                    }
                                },
                                None => None,
                            }
                        },
                        None => None,
                    }
                } else {
                    None
                }
            },
            None => None,
        }
    } else {
        None
    }
}

/// One snippet element.  Ordered alternation: tabstop, placeholder, choice,
/// variable, text; the first that matches wins.
pub open spec fn spec_anything(s: Seq<char>) -> Option<(nat, ElementModel)>
    decreases s.len(), 1int,
{
    match spec_tabstop(s) {
        Some(r) => Some(r),
        None => match spec_placeholder(s) {
            Some(r) => Some(r),
            None => match spec_choice(s) {
                Some(r) => Some(r),
                None => match spec_variable(s) {
                    Some(r) => Some(r),
                    None => spec_text(s),
                },
            },
        },
    }
}

/// One or more snippet elements, in order.
pub open spec fn spec_snippet(s: Seq<char>) -> Option<(nat, Seq<ElementModel>)>
    decreases s.len(),
{
    match spec_anything(s) {
        None => None,
        Some((n, e)) => match spec_snippet(s.skip(n as int)) {
            None => Some((n, seq![e])),
            Some((n2, es)) => Some(((n + n2) as nat, seq![e] + es)),
        },
    }
}

} // verus!
