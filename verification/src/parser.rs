//! The executable parser.
//!
//! Each function here is one production of the grammar in `grammar` and is
//! proved to return exactly what that definition says: `None` when the
//! production does not match at the start of the input, and otherwise the
//! parsed value together with the rest of the input after the consumed
//! prefix.  All text in the result borrows spans of the original input.

use vstd::prelude::*;

use crate::ast::CaseChange;
use crate::ast::FormatItem;
use crate::ast::Regex;
use crate::ast::Snippet;
use crate::ast::SnippetElement;
use crate::ast::element_views;
use crate::ast::format_views;
use crate::ast::str_views;
use crate::grammar::spec_anything;
use crate::grammar::spec_case_change;
use crate::grammar::spec_choice;
use crate::grammar::spec_choice_items;
use crate::grammar::spec_placeholder;
use crate::grammar::spec_snippet;
use crate::grammar::spec_tabstop;
use crate::grammar::spec_text;
use crate::grammar::spec_variable;
use crate::grammar::spec_digit;
use crate::grammar::spec_fmt_capture_bare;
use crate::grammar::spec_fmt_capture_braced;
use crate::grammar::spec_fmt_case;
use crate::grammar::spec_fmt_cond_else;
use crate::grammar::spec_fmt_cond_if;
use crate::grammar::spec_fmt_cond_if_else;
use crate::grammar::spec_format;
use crate::grammar::spec_format_list;
use crate::grammar::spec_regex;
use crate::grammar::spec_take_until;
use crate::grammar::spec_text_run;
use crate::grammar::spec_var;
use crate::scan::class_len;
use crate::scan::lemma_skip_skip;
use crate::scan::lemma_skip_take;
use crate::scan::digit_char_val;
use crate::scan::digit_of_char;
use crate::scan::digits_val;
use crate::scan::ident_start_matches;
use crate::scan::lemma_digits_val_prefix;
use crate::scan::lemma_run_len;
use crate::scan::run_len;
use crate::scan::CharClass;

verus! {

/// Text up to (not including) the first delimiter of `cls`'s complement;
/// fails when the delimiter is immediate or absent.
fn take_until<'a>(s: &'a str, cls: CharClass) -> (r: Option<(&'a str, &'a str)>)
    ensures
        match (r, spec_take_until(s@, cls)) {
            (Some((rest, text)), Some((n, mtext))) => n <= s@.len() && rest@ == s@.skip(n as int)
                && text@ == mtext,
            (None, None) => true,
            _ => false,
        },
        r matches Some((rest, _x)) ==> rest@.len() < s@.len(),
{
    let len: usize = s.unicode_len();
    let t: usize = class_len(s, cls);
    if 0 < t && t < len {
        let rest = s.substring_char(t, len);
        let text = s.substring_char(0, t);
        proof {
            assert(rest@ =~= s@.skip(t as int));
            assert(text@ =~= s@.take(t as int));
        }
        Some((rest, text))
    } else {
        None
    }
}

/// A non-empty digit run read as a `usize`; fails on overflow, consuming
/// nothing, as a failed production must.
pub fn digit<'a>(s: &'a str) -> (r: Option<(&'a str, usize)>)
    ensures
        match (r, spec_digit(s@)) {
            (Some((rest, v)), Some((n, mv))) => n <= s@.len() && rest@ == s@.skip(n as int) && v
                == mv,
            (None, None) => true,
            _ => false,
        },
        r matches Some((rest, _x)) ==> rest@.len() < s@.len(),
{
    let len: usize = s.unicode_len();
    let t: usize = class_len(s, CharClass::Digit);
    if t == 0 {
        return None;
    }
    let ghost ds: Seq<char> = s@.take(t as int);
    let mut acc: usize = 0;
    let mut i: usize = 0;
    while i < t
        invariant
            0 < t <= len,
            len == s@.len(),
            t == run_len(s@, CharClass::Digit),
            i <= t,
            ds == s@.take(t as int),
            acc == digits_val(s@.take(i as int)),
        decreases t - i,
    {
        proof {
            lemma_run_len(s@, CharClass::Digit);
        }
        let c = s.get_char(i);
        let d: u32 = digit_of_char(c);
        proof {
            assert(s@.take(i + 1).drop_last() =~= s@.take(i as int));
            assert(s@.take(i + 1).last() == s@[i as int]);
            assert(digits_val(s@.take(i + 1)) == acc * 10 + digit_char_val(c));
        }
        let step: Option<usize> = match acc.checked_mul(10) {
            Some(m) => m.checked_add(d as usize),
            None => None,
        };
        match step {
            Some(v) => {
                acc = v;
                i = i + 1;
            },
            None => {
                proof {
                    assert(digits_val(s@.take(i + 1)) > usize::MAX);
                    assert(ds.take(i + 1) =~= s@.take(i + 1));
                    lemma_digits_val_prefix(ds, i + 1);
                    assert(digits_val(ds) > usize::MAX);
                }
                return None;
            },
        }
    }
    let rest = s.substring_char(t, len);
    proof {
        assert(s@.take(i as int) =~= ds);
        assert(rest@ =~= s@.skip(t as int));
    }
    Some((rest, acc))
}

/// An identifier, borrowed from the input.
pub fn var<'a>(s: &'a str) -> (r: Option<(&'a str, &'a str)>)
    ensures
        match (r, spec_var(s@)) {
            (Some((rest, name)), Some((n, mname))) => n <= s@.len() && rest@ == s@.skip(n as int)
                && name@ == mname,
            (None, None) => true,
            _ => false,
        },
        r matches Some((rest, _x)) ==> rest@.len() < s@.len(),
{
    let len: usize = s.unicode_len();
    if len == 0 {
        return None;
    }
    if !ident_start_matches(s.get_char(0)) {
        return None;
    }
    let tail = s.substring_char(1, len);
    proof {
        assert(tail@ =~= s@.skip(1));
    }
    let t: usize = class_len(tail, CharClass::IdentTail);
    let n: usize = 1 + t;
    let rest = s.substring_char(n, len);
    let name = s.substring_char(0, n);
    proof {
        assert(rest@ =~= s@.skip(n as int));
        assert(name@ =~= s@.take(n as int));
    }
    Some((rest, name))
}

/// One of the keywords `upcase`, `downcase`, `capitalize`.
pub fn case_change<'a>(s: &'a str) -> (r: Option<(&'a str, CaseChange)>)
    ensures
        match (r, spec_case_change(s@)) {
            (Some((rest, c)), Some((n, mc))) => n <= s@.len() && rest@ == s@.skip(n as int) && c
                == mc,
            (None, None) => true,
            _ => false,
        },
        r matches Some((rest, _x)) ==> rest@.len() < s@.len(),
{
    let len: usize = s.unicode_len();
    if len >= 6 && s.get_char(0) == 'u' && s.get_char(1) == 'p' && s.get_char(2) == 'c'
        && s.get_char(3) == 'a' && s.get_char(4) == 's' && s.get_char(5) == 'e' {
        let rest = s.substring_char(6, len);
        proof {
            assert(rest@ =~= s@.skip(6));
        }
        return Some((rest, CaseChange::Upcase));
    }
    if len >= 8 && s.get_char(0) == 'd' && s.get_char(1) == 'o' && s.get_char(2) == 'w'
        && s.get_char(3) == 'n' && s.get_char(4) == 'c' && s.get_char(5) == 'a' && s.get_char(6)
        == 's' && s.get_char(7) == 'e' {
        let rest = s.substring_char(8, len);
        proof {
            assert(rest@ =~= s@.skip(8));
        }
        return Some((rest, CaseChange::Downcase));
    }
    if len >= 10 && s.get_char(0) == 'c' && s.get_char(1) == 'a' && s.get_char(2) == 'p'
        && s.get_char(3) == 'i' && s.get_char(4) == 't' && s.get_char(5) == 'a' && s.get_char(6)
        == 'l' && s.get_char(7) == 'i' && s.get_char(8) == 'z' && s.get_char(9) == 'e' {
        let rest = s.substring_char(10, len);
        proof {
            assert(rest@ =~= s@.skip(10));
        }
        return Some((rest, CaseChange::Capitalize));
    }
    None
}

/// A non-empty run of characters other than `$`, borrowed from the input.
fn text_run<'a>(s: &'a str) -> (r: Option<(&'a str, &'a str)>)
    ensures
        match (r, spec_text_run(s@)) {
            (Some((rest, text)), Some((n, mtext))) => n <= s@.len() && rest@ == s@.skip(n as int)
                && text@ == mtext,
            (None, None) => true,
            _ => false,
        },
        r matches Some((rest, _x)) ==> rest@.len() < s@.len(),
{
    let len: usize = s.unicode_len();
    let t: usize = class_len(s, CharClass::NotDollar);
    if t >= 1 {
        let rest = s.substring_char(t, len);
        let text = s.substring_char(0, t);
        proof {
            assert(rest@ =~= s@.skip(t as int));
            assert(text@ =~= s@.take(t as int));
        }
        Some((rest, text))
    } else {
        None
    }
}

/// Format item: `$` digits.
fn fmt_capture_bare<'a>(s: &'a str) -> (r: Option<(&'a str, FormatItem<'a>)>)
    ensures
        match (r, spec_fmt_capture_bare(s@)) {
            (Some((rest, f)), Some((n, mf))) => n <= s@.len() && rest@ == s@.skip(n as int) && f@
                == mf,
            (None, None) => true,
            _ => false,
        },
        r matches Some((rest, _x)) ==> rest@.len() < s@.len(),
{
    let len: usize = s.unicode_len();
    if len >= 1 && s.get_char(0) == '$' {
        let tail = s.substring_char(1, len);
        proof {
            assert(tail@ =~= s@.skip(1));
        }
        if let Some((rest, g)) = digit(tail) {
            proof {
                if let Some((nd, _g)) = spec_digit(tail@) {
                    lemma_skip_skip(s@, 1, nd as int);
                }
            }
            return Some((rest, FormatItem::Capture(g)));
        }
        return None;
    }
    None
}

/// Format item: `${` digits `}`.
fn fmt_capture_braced<'a>(s: &'a str) -> (r: Option<(&'a str, FormatItem<'a>)>)
    ensures
        match (r, spec_fmt_capture_braced(s@)) {
            (Some((rest, f)), Some((n, mf))) => n <= s@.len() && rest@ == s@.skip(n as int) && f@
                == mf,
            (None, None) => true,
            _ => false,
        },
        r matches Some((rest, _x)) ==> rest@.len() < s@.len(),
{
    let len: usize = s.unicode_len();
    if len >= 2 && s.get_char(0) == '$' && s.get_char(1) == '{' {
        let tail = s.substring_char(2, len);
        proof {
            assert(tail@ =~= s@.skip(2));
        }
        if let Some((rest2, g)) = digit(tail) {
            proof {
                if let Some((nd, _g)) = spec_digit(tail@) {
                    lemma_skip_skip(s@, 2, nd as int);
                }
            }
            let len2: usize = rest2.unicode_len();
            if len2 >= 1 && rest2.get_char(0) == '}' {
                let rest = rest2.substring_char(1, len2);
                proof {
                    if let Some((nd, _g)) = spec_digit(tail@) {
                        lemma_skip_skip(s@, 2 + nd as int, 1);
                    }
                }
                return Some((rest, FormatItem::Capture(g)));
            }
            return None;
        }
        return None;
    }
    None
}

/// Format item: `${` digits `:/` keyword `}`.
fn fmt_case<'a>(s: &'a str) -> (r: Option<(&'a str, FormatItem<'a>)>)
    ensures
        match (r, spec_fmt_case(s@)) {
            (Some((rest, f)), Some((n, mf))) => n <= s@.len() && rest@ == s@.skip(n as int) && f@
                == mf,
            (None, None) => true,
            _ => false,
        },
        r matches Some((rest, _x)) ==> rest@.len() < s@.len(),
{
    let len: usize = s.unicode_len();
    if len >= 2 && s.get_char(0) == '$' && s.get_char(1) == '{' {
        let tail = s.substring_char(2, len);
        proof {
            assert(tail@ =~= s@.skip(2));
        }
        if let Some((rest2, g)) = digit(tail) {
            let ghost j: int = 2 + spec_digit(tail@)->Some_0.0 as int;
            proof {
                lemma_skip_skip(s@, 2, j - 2);
            }
            let len2: usize = rest2.unicode_len();
            if len2 >= 2 && rest2.get_char(0) == ':' && rest2.get_char(1) == '/' {
                let tail2 = rest2.substring_char(2, len2);
                proof {
                    lemma_skip_skip(s@, j, 2);
                    assert(tail2@ =~= rest2@.skip(2));
                }
                if let Some((rest3, cc)) = case_change(tail2) {
                    let ghost k: int = j + 2 + spec_case_change(tail2@)->Some_0.0;
                    proof {
                        lemma_skip_skip(s@, j + 2, k - j - 2);
                    }
                    let len3: usize = rest3.unicode_len();
                    if len3 >= 1 && rest3.get_char(0) == '}' {
                        let rest = rest3.substring_char(1, len3);
                        proof {
                            lemma_skip_skip(s@, k, 1);
                            assert(rest@ =~= rest3@.skip(1));
                        }
                        return Some((rest, FormatItem::CaseChange(g, cc)));
                    }
                    return None;
                }
                return None;
            }
            return None;
        }
        return None;
    }
    None
}

/// Format item: `${` digits `:+` if-text `}`.
fn fmt_cond_if<'a>(s: &'a str) -> (r: Option<(&'a str, FormatItem<'a>)>)
    ensures
        match (r, spec_fmt_cond_if(s@)) {
            (Some((rest, f)), Some((n, mf))) => n <= s@.len() && rest@ == s@.skip(n as int) && f@
                == mf,
            (None, None) => true,
            _ => false,
        },
        r matches Some((rest, _x)) ==> rest@.len() < s@.len(),
{
    let len: usize = s.unicode_len();
    if len >= 2 && s.get_char(0) == '$' && s.get_char(1) == '{' {
        let tail = s.substring_char(2, len);
        proof {
            assert(tail@ =~= s@.skip(2));
        }
        if let Some((rest2, g)) = digit(tail) {
            let ghost j: int = 2 + spec_digit(tail@)->Some_0.0 as int;
            proof {
                lemma_skip_skip(s@, 2, j - 2);
            }
            let len2: usize = rest2.unicode_len();
            if len2 >= 2 && rest2.get_char(0) == ':' && rest2.get_char(1) == '+' {
                let tail2 = rest2.substring_char(2, len2);
                proof {
                    lemma_skip_skip(s@, j, 2);
                    assert(tail2@ =~= rest2@.skip(2));
                }
                if let Some((rest3, cond)) = take_until(tail2, CharClass::NotBrace) {
                    let ghost k: int = j + 2 + spec_take_until(tail2@, CharClass::NotBrace)->Some_0.0;
                    proof {
                        lemma_skip_skip(s@, j + 2, k - j - 2);
                    }
                    let len3: usize = rest3.unicode_len();
                    if len3 >= 1 && rest3.get_char(0) == '}' {
                        let rest = rest3.substring_char(1, len3);
                        proof {
                            lemma_skip_skip(s@, k, 1);
                            assert(rest@ =~= rest3@.skip(1));
                        }
                        return Some((rest, FormatItem::Conditional(g, Some(cond), None)));
                    }
                    return None;
                }
                return None;
            }
            return None;
        }
        return None;
    }
    None
}

/// Format item: `${` digits `:?` if-text `:` else-text `}`.
fn fmt_cond_if_else<'a>(s: &'a str) -> (r: Option<(&'a str, FormatItem<'a>)>)
    ensures
        match (r, spec_fmt_cond_if_else(s@)) {
            (Some((rest, f)), Some((n, mf))) => n <= s@.len() && rest@ == s@.skip(n as int) && f@
                == mf,
            (None, None) => true,
            _ => false,
        },
        r matches Some((rest, _x)) ==> rest@.len() < s@.len(),
{
    let len: usize = s.unicode_len();
    if len >= 2 && s.get_char(0) == '$' && s.get_char(1) == '{' {
        let tail = s.substring_char(2, len);
        proof {
            assert(tail@ =~= s@.skip(2));
        }
        if let Some((rest2, g)) = digit(tail) {
            let ghost j: int = 2 + spec_digit(tail@)->Some_0.0 as int;
            proof {
                lemma_skip_skip(s@, 2, j - 2);
            }
            let len2: usize = rest2.unicode_len();
            if len2 >= 2 && rest2.get_char(0) == ':' && rest2.get_char(1) == '?' {
                let tail2 = rest2.substring_char(2, len2);
                proof {
                    lemma_skip_skip(s@, j, 2);
                    assert(tail2@ =~= rest2@.skip(2));
                }
                if let Some((rest3, cond_if)) = take_until(tail2, CharClass::NotColon) {
                    let ghost k: int = j + 2 + spec_take_until(tail2@, CharClass::NotColon)->Some_0.0;
                    proof {
                        lemma_skip_skip(s@, j + 2, k - j - 2);
                    }
                    let len3: usize = rest3.unicode_len();
                    if len3 >= 1 && rest3.get_char(0) == ':' {
                        let tail3 = rest3.substring_char(1, len3);
                        proof {
                            lemma_skip_skip(s@, k, 1);
                            assert(tail3@ =~= rest3@.skip(1));
                        }
                        if let Some((rest4, cond_else)) = take_until(tail3, CharClass::NotBrace) {
                            let ghost m: int = k + 1 + spec_take_until(
                                tail3@,
                                CharClass::NotBrace,
                            )->Some_0.0;
                            proof {
                                lemma_skip_skip(s@, k + 1, m - k - 1);
                            }
                            let len4: usize = rest4.unicode_len();
                            if len4 >= 1 && rest4.get_char(0) == '}' {
                                let rest = rest4.substring_char(1, len4);
                                proof {
                                    lemma_skip_skip(s@, m, 1);
                                    assert(rest@ =~= rest4@.skip(1));
                                }
                                return Some(
                                    (rest, FormatItem::Conditional(g, Some(cond_if), Some(cond_else))),
                                );
                            }
                            return None;
                        }
                        return None;
                    }
                    return None;
                }
                return None;
            }
            return None;
        }
        return None;
    }
    None
}

/// Format item: `${` digits `:-` else-text `}`, the `-` optional.
fn fmt_cond_else<'a>(s: &'a str) -> (r: Option<(&'a str, FormatItem<'a>)>)
    ensures
        match (r, spec_fmt_cond_else(s@)) {
            (Some((rest, f)), Some((n, mf))) => n <= s@.len() && rest@ == s@.skip(n as int) && f@
                == mf,
            (None, None) => true,
            _ => false,
        },
        r matches Some((rest, _x)) ==> rest@.len() < s@.len(),
{
    let len: usize = s.unicode_len();
    if len >= 2 && s.get_char(0) == '$' && s.get_char(1) == '{' {
        let tail = s.substring_char(2, len);
        proof {
            assert(tail@ =~= s@.skip(2));
        }
        if let Some((rest2, g)) = digit(tail) {
            let ghost j: int = 2 + spec_digit(tail@)->Some_0.0 as int;
            proof {
                lemma_skip_skip(s@, 2, j - 2);
            }
            let len2: usize = rest2.unicode_len();
            if len2 >= 1 && rest2.get_char(0) == ':' {
                let skip_len: usize = if len2 >= 2 && rest2.get_char(1) == '-' {
                    2
                } else {
                    1
                };
                let ghost d: int = j + skip_len;
                let tail2 = rest2.substring_char(skip_len, len2);
                proof {
                    lemma_skip_skip(s@, j, skip_len as int);
                    assert(tail2@ =~= rest2@.skip(skip_len as int));
                }
                if let Some((rest3, cond)) = take_until(tail2, CharClass::NotBrace) {
                    let ghost k: int = d + spec_take_until(tail2@, CharClass::NotBrace)->Some_0.0;
                    proof {
                        lemma_skip_skip(s@, d, k - d);
                    }
                    let len3: usize = rest3.unicode_len();
                    if len3 >= 1 && rest3.get_char(0) == '}' {
                        let rest = rest3.substring_char(1, len3);
                        proof {
                            lemma_skip_skip(s@, k, 1);
                            assert(rest@ =~= rest3@.skip(1));
                        }
                        return Some((rest, FormatItem::Conditional(g, None, Some(cond))));
                    }
                    return None;
                }
                return None;
            }
            return None;
        }
        return None;
    }
    None
}

/// One format item; the alternatives in their grammar order, first match
/// wins.
pub fn format<'a>(s: &'a str) -> (r: Option<(&'a str, FormatItem<'a>)>)
    ensures
        match (r, spec_format(s@)) {
            (Some((rest, f)), Some((n, mf))) => n <= s@.len() && rest@ == s@.skip(n as int) && f@
                == mf,
            (None, None) => true,
            _ => false,
        },
        r matches Some((rest, _x)) ==> rest@.len() < s@.len(),
{
    if let Some((rest, f)) = fmt_capture_bare(s) {
        return Some((rest, f));
    }
    if let Some((rest, f)) = fmt_capture_braced(s) {
        return Some((rest, f));
    }
    if let Some((rest, f)) = fmt_case(s) {
        return Some((rest, f));
    }
    if let Some((rest, f)) = fmt_cond_if(s) {
        return Some((rest, f));
    }
    if let Some((rest, f)) = fmt_cond_if_else(s) {
        return Some((rest, f));
    }
    if let Some((rest, f)) = fmt_cond_else(s) {
        return Some((rest, f));
    }
    if let Some((rest, t)) = text_run(s) {
        return Some((rest, FormatItem::Text(t)));
    }
    None
}

/// One or more format items.
fn format_list<'a>(s: &'a str) -> (r: Option<(&'a str, Vec<FormatItem<'a>>)>)
    ensures
        match (r, spec_format_list(s@)) {
            (Some((rest, fs)), Some((n, mfs))) => n <= s@.len() && rest@ == s@.skip(n as int)
                && format_views(fs@) == mfs,
            (None, None) => true,
            _ => false,
        },
        r matches Some((rest, _x)) ==> rest@.len() < s@.len(),
    decreases s@.len(),
{
    match format(s) {
        None => None,
        Some((rest1, f)) => {
            let ghost n1: nat = spec_format(s@)->Some_0.0;
            match format_list(rest1) {
                None => {
                    let mut fs: Vec<FormatItem> = Vec::new();
                    fs.push(f);
                    proof {
                        assert(format_views(fs@) =~= seq![f@]);
                    }
                    Some((rest1, fs))
                },
                Some((rest2, mut fs)) => {
                    let ghost fs0: Seq<FormatItem> = fs@;
                    let ghost n2: nat = spec_format_list(rest1@)->Some_0.0;
                    fs.insert(0, f);
                    proof {
                        lemma_skip_skip(s@, n1 as int, n2 as int);
                        assert(format_views(fs@) =~= seq![f@] + format_views(fs0));
                    }
                    Some((rest2, fs))
                },
            }
        },
    }
}

/// A regex transform: `/` pattern `/` replacement `/` optional options.
pub fn regex<'a>(s: &'a str) -> (r: Option<(&'a str, Regex<'a>)>)
    ensures
        match (r, spec_regex(s@)) {
            (Some((rest, rx)), Some((n, mrx))) => n <= s@.len() && rest@ == s@.skip(n as int)
                && rx@ == mrx,
            (None, None) => true,
            _ => false,
        },
        r matches Some((rest, _x)) ==> rest@.len() < s@.len(),
{
    let len: usize = s.unicode_len();
    if len >= 1 && s.get_char(0) == '/' {
        let tail1 = s.substring_char(1, len);
        proof {
            assert(tail1@ =~= s@.skip(1));
        }
        if let Some((rest1, pattern)) = take_until(tail1, CharClass::NotSlash) {
            let ghost t1: nat = spec_take_until(tail1@, CharClass::NotSlash)->Some_0.0;
            proof {
                lemma_skip_skip(s@, 1, t1 as int);
                lemma_run_len(tail1@, CharClass::NotSlash);
                assert(s@[1 + t1 as int] == tail1@[t1 as int]);
            }
            let len1: usize = rest1.unicode_len();
            let tail2 = rest1.substring_char(1, len1);
            let ghost p2: int = 1 + t1 as int + 1;
            proof {
                lemma_skip_skip(s@, 1 + t1 as int, 1);
                assert(tail2@ =~= rest1@.skip(1));
            }
            if let Some((rest2, fragment)) = take_until(tail2, CharClass::NotSlash) {
                let ghost t2: nat = spec_take_until(tail2@, CharClass::NotSlash)->Some_0.0;
                proof {
                    lemma_skip_skip(s@, p2, t2 as int);
                    lemma_skip_take(s@, p2, t2 as int);
                    lemma_run_len(tail2@, CharClass::NotSlash);
                    assert(s@[p2 + t2 as int] == tail2@[t2 as int]);
                }
                if let Some((frest, items)) = format_list(fragment) {
                    let flen: usize = frest.unicode_len();
                    if flen == 0 {
                        let len2: usize = rest2.unicode_len();
                        let tail3 = rest2.substring_char(1, len2);
                        let ghost p3: int = p2 + t2 as int + 1;
                        proof {
                            lemma_skip_skip(s@, p2 + t2 as int, 1);
                            assert(tail3@ =~= rest2@.skip(1));
                        }
                        match take_until(tail3, CharClass::NotBrace) {
                            Some((rest3, opts)) => {
                                let ghost t3: nat = spec_take_until(
                                    tail3@,
                                    CharClass::NotBrace,
                                )->Some_0.0;
                                proof {
                                    lemma_skip_skip(s@, p3, t3 as int);
                                }
                                return Some(
                                    (
                                        rest3,
                                        Regex {
                                            value: pattern,
                                            replacement: items,
                                            options: Some(opts),
                                        },
                                    ),
                                );
                            },
                            None => {
                                return Some(
                                    (
                                        tail3,
                                        Regex { value: pattern, replacement: items, options: None },
                                    ),
                                );
                            },
                        }
                    }
                    return None;
                }
                return None;
            }
            return None;
        }
        return None;
    }
    None
}

/// A tabstop: `$` digits, or `${` digits `}`.
pub fn tabstop<'a>(s: &'a str) -> (r: Option<(&'a str, SnippetElement<'a>)>)
    ensures
        match (r, spec_tabstop(s@)) {
            (Some((rest, e)), Some((n, me))) => n <= s@.len() && rest@ == s@.skip(n as int) && e@
                == me,
            (None, None) => true,
            _ => false,
        },
        r matches Some((rest, _x)) ==> rest@.len() < s@.len(),
{
    let len: usize = s.unicode_len();
    if len >= 1 && s.get_char(0) == '$' {
        let tail = s.substring_char(1, len);
        proof {
            assert(tail@ =~= s@.skip(1));
        }
        if let Some((rest, d)) = digit(tail) {
            proof {
                if let Some((nd, _v)) = spec_digit(tail@) {
                    lemma_skip_skip(s@, 1, nd as int);
                }
            }
            return Some((rest, SnippetElement::Tabstop { tabstop: d }));
        }
        if len >= 2 && s.get_char(1) == '{' {
            let tail2 = s.substring_char(2, len);
            proof {
                assert(tail2@ =~= s@.skip(2));
            }
            if let Some((rest2, d)) = digit(tail2) {
                let ghost j: int = 2 + spec_digit(tail2@)->Some_0.0 as int;
                proof {
                    lemma_skip_skip(s@, 2, j - 2);
                }
                let len2: usize = rest2.unicode_len();
                if len2 >= 1 && rest2.get_char(0) == '}' {
                    let rest = rest2.substring_char(1, len2);
                    proof {
                        lemma_skip_skip(s@, j, 1);
                        assert(rest@ =~= rest2@.skip(1));
                    }
                    return Some((rest, SnippetElement::Tabstop { tabstop: d }));
                }
                return None;
            }
            return None;
        }
        return None;
    }
    None
}

/// The comma-separated alternatives of a choice.
fn choice_items<'a>(s: &'a str) -> (r: Option<(&'a str, Vec<&'a str>)>)
    ensures
        match (r, spec_choice_items(s@)) {
            (Some((rest, items)), Some((n, mitems))) => n <= s@.len() && rest@ == s@.skip(n as int)
                && str_views(items@) == mitems,
            (None, None) => true,
            _ => false,
        },
        r matches Some((rest, _x)) ==> rest@.len() < s@.len(),
    decreases s@.len(),
{
    if let Some((rest1, item)) = take_until(s, CharClass::NotCommaBar) {
        let ghost t: nat = spec_take_until(s@, CharClass::NotCommaBar)->Some_0.0;
        let len1: usize = rest1.unicode_len();
        if rest1.get_char(0) == ',' {
            let tail = rest1.substring_char(1, len1);
            proof {
                lemma_skip_skip(s@, t as int, 1);
                assert(tail@ =~= rest1@.skip(1));
            }
            match choice_items(tail) {
                Some((rest2, mut items)) => {
                    let ghost items0: Seq<&str> = items@;
                    let ghost n2: nat = spec_choice_items(tail@)->Some_0.0;
                    items.insert(0, item);
                    proof {
                        lemma_skip_skip(s@, t as int + 1, n2 as int);
                        assert(str_views(items@) =~= seq![item@] + str_views(items0));
                    }
                    Some((rest2, items))
                },
                None => None,
            }
        } else {
            let mut items: Vec<&'a str> = Vec::new();
            items.push(item);
            proof {
                assert(str_views(items@) =~= seq![item@]);
            }
            Some((rest1, items))
        }
    } else {
        None
    }
}

/// A choice: `${` digits `|` alternatives `|}`.
pub fn choice<'a>(s: &'a str) -> (r: Option<(&'a str, SnippetElement<'a>)>)
    ensures
        match (r, spec_choice(s@)) {
            (Some((rest, e)), Some((n, me))) => n <= s@.len() && rest@ == s@.skip(n as int) && e@
                == me,
            (None, None) => true,
            _ => false,
        },
        r matches Some((rest, _x)) ==> rest@.len() < s@.len(),
{
    let len: usize = s.unicode_len();
    if len >= 2 && s.get_char(0) == '$' && s.get_char(1) == '{' {
        let tail = s.substring_char(2, len);
        proof {
            assert(tail@ =~= s@.skip(2));
        }
        if let Some((rest2, d)) = digit(tail) {
            let ghost j: int = 2 + spec_digit(tail@)->Some_0.0 as int;
            proof {
                lemma_skip_skip(s@, 2, j - 2);
            }
            let len2: usize = rest2.unicode_len();
            if len2 >= 1 && rest2.get_char(0) == '|' {
                let tail2 = rest2.substring_char(1, len2);
                proof {
                    lemma_skip_skip(s@, j, 1);
                    assert(tail2@ =~= rest2@.skip(1));
                }
                if let Some((rest3, items)) = choice_items(tail2) {
                    let ghost k: int = j + 1 + spec_choice_items(tail2@)->Some_0.0 as int;
                    proof {
                        lemma_skip_skip(s@, j + 1, k - j - 1);
                    }
                    let len3: usize = rest3.unicode_len();
                    if len3 >= 2 && rest3.get_char(0) == '|' && rest3.get_char(1) == '}' {
                        let rest = rest3.substring_char(2, len3);
                        proof {
                            lemma_skip_skip(s@, k, 2);
                            assert(rest@ =~= rest3@.skip(2));
                        }
                        return Some((rest, SnippetElement::Choice { tabstop: d, choices: items }));
                    }
                    return None;
                }
                return None;
            }
            return None;
        }
        return None;
    }
    None
}

/// A variable: `$name`, `${name:default}`, or `${name` regex `}`.
pub fn variable<'a>(s: &'a str) -> (r: Option<(&'a str, SnippetElement<'a>)>)
    ensures
        match (r, spec_variable(s@)) {
            (Some((rest, e)), Some((n, me))) => n <= s@.len() && rest@ == s@.skip(n as int) && e@
                == me,
            (None, None) => true,
            _ => false,
        },
        r matches Some((rest, _x)) ==> rest@.len() < s@.len(),
{
    let len: usize = s.unicode_len();
    if len >= 1 && s.get_char(0) == '$' {
        let tail = s.substring_char(1, len);
        proof {
            assert(tail@ =~= s@.skip(1));
        }
        if let Some((rest, name)) = var(tail) {
            proof {
                if let Some((nv, _m)) = spec_var(tail@) {
                    lemma_skip_skip(s@, 1, nv as int);
                }
            }
            return Some((rest, SnippetElement::Variable { name, default: None, regex: None }));
        }
        if len >= 2 && s.get_char(1) == '{' {
            let tail2 = s.substring_char(2, len);
            proof {
                assert(tail2@ =~= s@.skip(2));
            }
            if let Some((rest2, name)) = var(tail2) {
                let ghost j: int = 2 + spec_var(tail2@)->Some_0.0 as int;
                proof {
                    lemma_skip_skip(s@, 2, j - 2);
                }
                let len2: usize = rest2.unicode_len();
                let with_default: Option<(&'a str, &'a str)> = if len2 >= 1 && rest2.get_char(0)
                    == ':' {
                    let tail3 = rest2.substring_char(1, len2);
                    proof {
                        lemma_skip_skip(s@, j, 1);
                        assert(tail3@ =~= rest2@.skip(1));
                    }
                    match take_until(tail3, CharClass::NotBrace) {
                        Some((rest3, dflt)) => {
                            let ghost m: int = j + 1 + spec_take_until(
                                tail3@,
                                CharClass::NotBrace,
                            )->Some_0.0 as int;
                            proof {
                                lemma_skip_skip(s@, j + 1, m - j - 1);
                            }
                            let len3: usize = rest3.unicode_len();
                            if len3 >= 1 && rest3.get_char(0) == '}' {
                                let rest4 = rest3.substring_char(1, len3);
                                proof {
                                    lemma_skip_skip(s@, m, 1);
                                    assert(rest4@ =~= rest3@.skip(1));
                                }
                                Some((rest4, dflt))
                            } else {
                                None
                            }
                        },
                        None => None,
                    }
                } else {
                    None
                };
                if let Some((rest4, dflt)) = with_default {
                    return Some(
                        (rest4, SnippetElement::Variable { name, default: Some(dflt), regex: None }),
                    );
                }
                if let Some((rest3, rx)) = regex(rest2) {
                    let ghost k: int = j + spec_regex(rest2@)->Some_0.0 as int;
                    proof {
                        lemma_skip_skip(s@, j, k - j);
                    }
                    let len3: usize = rest3.unicode_len();
                    if len3 >= 1 && rest3.get_char(0) == '}' {
                        let rest = rest3.substring_char(1, len3);
                        proof {
                            lemma_skip_skip(s@, k, 1);
                            assert(rest@ =~= rest3@.skip(1));
                        }
                        return Some(
                            (rest, SnippetElement::Variable { name, default: None, regex: Some(rx) }),
                        );
                    }
                    return None;
                }
                return None;
            }
            return None;
        }
        return None;
    }
    None
}

/// Literal text: a non-empty run of characters other than `$`.
pub fn text<'a>(s: &'a str) -> (r: Option<(&'a str, SnippetElement<'a>)>)
    ensures
        match (r, spec_text(s@)) {
            (Some((rest, e)), Some((n, me))) => n <= s@.len() && rest@ == s@.skip(n as int) && e@
                == me,
            (None, None) => true,
            _ => false,
        },
        r matches Some((rest, _x)) ==> rest@.len() < s@.len(),
{
    match text_run(s) {
        Some((rest, t)) => Some((rest, SnippetElement::Text(t))),
        None => None,
    }
}

/// A placeholder: `${` digits `:` value `}`.  The value fragment reaches to
/// the first `}` and is re-parsed with the full grammar; only the first
/// element it yields is kept.
pub fn placeholder<'a>(s: &'a str) -> (r: Option<(&'a str, SnippetElement<'a>)>)
    ensures
        match (r, spec_placeholder(s@)) {
            (Some((rest, e)), Some((n, me))) => n <= s@.len() && rest@ == s@.skip(n as int) && e@
                == me,
            (None, None) => true,
            _ => false,
        },
        r matches Some((rest, _x)) ==> rest@.len() < s@.len(),
    decreases s@.len(), 0int,
{
    let len: usize = s.unicode_len();
    if len >= 2 && s.get_char(0) == '$' && s.get_char(1) == '{' {
        let tail = s.substring_char(2, len);
        proof {
            assert(tail@ =~= s@.skip(2));
        }
        if let Some((rest2, d)) = digit(tail) {
            let ghost j: int = 2 + spec_digit(tail@)->Some_0.0 as int;
            proof {
                lemma_skip_skip(s@, 2, j - 2);
            }
            let len2: usize = rest2.unicode_len();
            if len2 >= 1 && rest2.get_char(0) == ':' {
                let tail2 = rest2.substring_char(1, len2);
                proof {
                    lemma_skip_skip(s@, j, 1);
                    assert(tail2@ =~= rest2@.skip(1));
                }
                if let Some((rest3, fragment)) = take_until(tail2, CharClass::NotBrace) {
                    let ghost t: nat = spec_take_until(tail2@, CharClass::NotBrace)->Some_0.0;
                    proof {
                        lemma_skip_skip(s@, j + 1, t as int);
                        lemma_skip_take(s@, j + 1, t as int);
                    }
                    if let Some((_rem, inner)) = anything(fragment) {
                        let len3: usize = rest3.unicode_len();
                        proof {
                            lemma_run_len(tail2@, CharClass::NotBrace);
                            assert(s@[j + 1 + t as int] == tail2@[t as int]);
                        }
                        let rest = rest3.substring_char(1, len3);
                        proof {
                            lemma_skip_skip(s@, j + 1 + t as int, 1);
                            assert(rest@ =~= rest3@.skip(1));
                        }
                        return Some(
                            (
                                rest,
                                SnippetElement::Placeholder { tabstop: d, value: Box::new(inner) },
                            ),
                        );
                    }
                    return None;
                }
                return None;
            }
            return None;
        }
        return None;
    }
    None
}

/// One snippet element: tabstop, placeholder, choice, variable or text, the
/// first that matches.
pub fn anything<'a>(s: &'a str) -> (r: Option<(&'a str, SnippetElement<'a>)>)
    ensures
        match (r, spec_anything(s@)) {
            (Some((rest, e)), Some((n, me))) => n <= s@.len() && rest@ == s@.skip(n as int) && e@
                == me,
            (None, None) => true,
            _ => false,
        },
        r matches Some((rest, _x)) ==> rest@.len() < s@.len(),
    decreases s@.len(), 1int,
{
    if let Some((rest, e)) = tabstop(s) {
        return Some((rest, e));
    }
    if let Some((rest, e)) = placeholder(s) {
        return Some((rest, e));
    }
    if let Some((rest, e)) = choice(s) {
        return Some((rest, e));
    }
    if let Some((rest, e)) = variable(s) {
        return Some((rest, e));
    }
    if let Some((rest, e)) = text(s) {
        return Some((rest, e));
    }
    None
}

/// One or more snippet elements.
pub fn snippet<'a>(s: &'a str) -> (r: Option<(&'a str, Vec<SnippetElement<'a>>)>)
    ensures
        match (r, spec_snippet(s@)) {
            (Some((rest, es)), Some((n, mes))) => n <= s@.len() && rest@ == s@.skip(n as int)
                && element_views(es@) == mes,
            (None, None) => true,
            _ => false,
        },
        r matches Some((rest, _x)) ==> rest@.len() < s@.len(),
    decreases s@.len(),
{
    match anything(s) {
        None => None,
        Some((rest1, e)) => {
            let ghost n1: nat = spec_anything(s@)->Some_0.0;
            match snippet(rest1) {
                None => {
                    let mut es: Vec<SnippetElement> = Vec::new();
                    es.push(e);
                    proof {
                        assert(element_views(es@) =~= seq![e@]);
                    }
                    Some((rest1, es))
                },
                Some((rest2, mut es)) => {
                    let ghost es0: Seq<SnippetElement> = es@;
                    let ghost n2: nat = spec_snippet(rest1@)->Some_0.0;
                    es.insert(0, e);
                    proof {
                        lemma_skip_skip(s@, n1 as int, n2 as int);
                        assert(element_views(es@) =~= seq![e@] + element_views(es0));
                    }
                    Some((rest2, es))
                },
            }
        },
    }
}

/// Parse a snippet template.
///
/// On success the result holds the elements of the longest parseable prefix
/// of `s`, in source order; trailing input that no production matches is
/// discarded.  The parse fails — returning the whole input unchanged as the
/// error value — exactly when no production matches at the very start, which
/// is in particular the case for the empty string.
pub fn parse<'a>(s: &'a str) -> (r: Result<Snippet<'a>, &'a str>)
    ensures
        match r {
            Ok(elements) => spec_snippet(s@) matches Some((n, mes)) && element_views(elements@)
                == mes,
            Err(rest) => spec_snippet(s@) is None && rest@ == s@,
        },
{
    match snippet(s) {
        Some((_rest, elements)) => Ok(elements),
        None => Err(s),
    }
}

} // verus!
