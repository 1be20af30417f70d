//! General laws of the grammar, proved once and for all inputs.

use vstd::prelude::*;

use crate::ast::ElementModel;
use crate::grammar::spec_anything;
use crate::grammar::spec_snippet;
use crate::grammar::spec_text;
use crate::scan::lemma_run_len_is;
use crate::scan::lemma_skip_skip;
use crate::scan::CharClass;

verus! {

/// An input with at least one character and no `$` anywhere parses as
/// exactly one `Text` element carrying the whole input, with nothing left
/// over.
pub proof fn lemma_text_only_input(s: Seq<char>)
    requires
        s.len() > 0,
        forall|i: int| 0 <= i < s.len() ==> s[i] != '$',
    ensures
        spec_snippet(s) == Some((s.len() as nat, seq![ElementModel::Text(s)])),
{
    lemma_run_len_is(s, CharClass::NotDollar, s.len() as int);
    assert(s.take(s.len() as int) =~= s);
    assert(spec_text(s) == Some((s.len() as nat, ElementModel::Text(s))));
    assert(spec_anything(s) == Some((s.len() as nat, ElementModel::Text(s))));
    let rest = s.skip(s.len() as int);
    assert(rest.len() == 0);
    assert(spec_anything(rest) is None);
    assert(spec_snippet(rest) is None);
}

/// A matched element production consumes at least one character and never
/// more than the input holds.
#[verifier::rlimit(60)]
pub proof fn lemma_anything_bounds(s: Seq<char>)
    requires
        spec_anything(s) is Some,
    ensures
        1 <= spec_anything(s)->Some_0.0 <= s.len(),
{
}

/// The cut positions that witness how a parsed element sequence tiles the
/// consumed prefix of the input: element `i` was produced by the grammar
/// from exactly the characters between `cuts[i]` and `cuts[i + 1]`, the
/// spans are non-empty, adjacent and in source order, and together they
/// cover the consumed prefix `s.take(n)` with no gaps and no overlaps.
pub open spec fn spans_tile(s: Seq<char>, n: nat, es: Seq<ElementModel>, cuts: Seq<int>) -> bool {
    &&& cuts.len() == es.len() + 1
    &&& cuts[0] == 0
    &&& cuts[es.len() as int] == n
    &&& forall|i: int| #![trigger cuts[i]] 0 <= i <= es.len() ==> 0 <= cuts[i] <= n
    &&& forall|i: int| #![trigger cuts[i]] 0 <= i < es.len() ==> cuts[i] < cuts[i + 1]
    &&& forall|i: int|
        #![trigger s.skip(cuts[i])]
        0 <= i < es.len() ==> spec_anything(s.skip(cuts[i])) == Some(
            ((cuts[i + 1] - cuts[i]) as nat,
            es[i]),
        )
}

/// Prepending one parsed element to a tiled tail keeps the tiling.
proof fn lemma_spans_cons(
    s: Seq<char>,
    n1: nat,
    e: ElementModel,
    n2: nat,
    es2: Seq<ElementModel>,
    cuts2: Seq<int>,
)
    requires
        spec_anything(s) == Some((n1, e)),
        1 <= n1 <= s.len(),
        n1 + n2 <= s.len(),
        spans_tile(s.skip(n1 as int), n2, es2, cuts2),
    ensures
        spans_tile(
            s,
            (n1 + n2) as nat,
            seq![e] + es2,
            seq![0int] + cuts2.map_values(|x: int| x + n1 as int),
        ),
{
    let s2 = s.skip(n1 as int);
    let es = seq![e] + es2;
    let cuts = seq![0int] + cuts2.map_values(|x: int| x + n1 as int);
    let n: nat = (n1 + n2) as nat;
    assert(cuts[es.len() as int] == cuts2[es2.len() as int] + n1);
    assert forall|i: int| #![trigger cuts[i]] 0 <= i <= es.len() implies 0 <= cuts[i] <= n by {
        if i >= 1 {
            assert(cuts[i] == cuts2[i - 1] + n1);
            assert(0 <= cuts2[i - 1] <= n2);
        }
    }
    assert forall|i: int| #![trigger cuts[i]] 0 <= i < es.len() implies cuts[i] < cuts[i + 1] by {
        if i >= 1 {
            assert(cuts[i] == cuts2[i - 1] + n1);
            assert(cuts[i + 1] == cuts2[i] + n1);
            assert(cuts2[i - 1] < cuts2[i]);
        } else {
            assert(cuts[1] == cuts2[0] + n1);
        }
    }
    assert forall|i: int| #![trigger s.skip(cuts[i])] 0 <= i < es.len() implies spec_anything(
        s.skip(cuts[i]),
    ) == Some(
        ((cuts[i + 1] - cuts[i]) as nat,
        es[i]),
    ) by {
        if i == 0 {
            assert(s.skip(0) =~= s);
            assert(cuts[1] == cuts2[0] + n1);
        } else {
            assert(cuts[i] == cuts2[i - 1] + n1);
            assert(cuts[i + 1] == cuts2[i] + n1);
            assert(0 <= cuts2[i - 1] <= n2);
            lemma_skip_skip(s, n1 as int, cuts2[i - 1]);
            assert(spec_anything(s2.skip(cuts2[i - 1])) == Some(
                ((cuts2[i] - cuts2[i - 1]) as nat,
                es2[i - 1]),
            ));
            assert(es[i] == es2[i - 1]);
        }
    }
}

/// Concatenating the source spans of a successfully parsed element sequence
/// reproduces the consumed prefix of the input exactly: a successful parse
/// walks the input strictly left to right, and every consumed character
/// belongs to the span of exactly one produced element.
#[verifier::rlimit(100)]
pub proof fn lemma_parse_spans(s: Seq<char>)
    requires
        spec_snippet(s) is Some,
    ensures
        ({
            let (n, es) = spec_snippet(s)->Some_0;
            &&& n <= s.len()
            &&& exists|cuts: Seq<int>| spans_tile(s, n, es, cuts)
        }),
    decreases s.len(),
{
    let (n, es) = spec_snippet(s)->Some_0;
    let (n1, e) = spec_anything(s)->Some_0;
    lemma_anything_bounds(s);
    match spec_snippet(s.skip(n1 as int)) {
        None => {
            let cuts: Seq<int> = seq![0, n1 as int];
            assert(s.skip(0) =~= s);
            assert(spans_tile(s, n, es, cuts));
        },
        Some((n2, es2)) => {
            lemma_parse_spans(s.skip(n1 as int));
            let cuts2: Seq<int> = choose|c: Seq<int>| spans_tile(s.skip(n1 as int), n2, es2, c);
            lemma_spans_cons(s, n1, e, n2, es2, cuts2);
            assert(spans_tile(s, n, es, seq![0int] + cuts2.map_values(|x: int| x + n1 as int)));
        },
    }
}

} // verus!
