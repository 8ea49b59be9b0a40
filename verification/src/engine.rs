//! The collector and the top-level extraction entry point, with the laws
//! that hold of them.

use vstd::prelude::*;

use crate::dom::{wf_doc, DocV, Document};
use crate::html::spec_parse_html;
use crate::matcher::{node_matches, spec_matches};
use crate::render::{render, spec_render, Match, MatchV};
use crate::selector::{spec_parse_selector, Reason, SelV, Selector, SelectorError};
use crate::text::ws_end;

verus! {

/// Indices of the elements from `i` onward, in document order, that match
/// `sel`, cut off after `budget` finds.
pub open spec fn collect_from(d: DocV, i: int, sel: SelV, budget: int) -> Seq<usize>
    decreases d.nodes.len() - i,
{
    if budget <= 0 || i < 0 || i >= d.nodes.len() {
        Seq::empty()
    } else if spec_matches(d, i, sel) {
        seq![i as usize] + collect_from(d, i + 1, sel, budget - 1)
    } else {
        collect_from(d, i + 1, sel, budget)
    }
}

/// Indices of the first `limit` matching elements, in document order. The
/// synthetic root at index 0 is not part of the markup and is never offered.
pub open spec fn spec_collect(d: DocV, sel: SelV, limit: usize) -> Seq<usize> {
    collect_from(d, 1, sel, limit as int)
}

/// No more finds than the budget allows, whatever the document.
pub proof fn lemma_collect_len(d: DocV, i: int, sel: SelV, budget: int)
    ensures
        collect_from(d, i, sel, budget).len() <= (if budget < 0 {
            0int
        } else {
            budget
        }),
    decreases d.nodes.len() - i,
{
    if budget <= 0 || i < 0 || i >= d.nodes.len() {
    } else if spec_matches(d, i, sel) {
        lemma_collect_len(d, i + 1, sel, budget - 1);
    } else {
        lemma_collect_len(d, i + 1, sel, budget);
    }
}

/// What collection guarantees of a document that fits in memory: every find
/// is a matching element at or past the start, and finds come in strictly
/// ascending index order, which is document order.
pub proof fn lemma_collect_props(d: DocV, i: int, sel: SelV, budget: int)
    requires
        d.nodes.len() <= usize::MAX,
    ensures
        collect_from(d, i, sel, budget).len() <= (if budget < 0 {
            0int
        } else {
            budget
        }),
        forall|k: int|
            0 <= k < collect_from(d, i, sel, budget).len() ==> i <= #[trigger] collect_from(
                d,
                i,
                sel,
                budget,
            )[k] < d.nodes.len(),
        forall|k: int|
            0 <= k < collect_from(d, i, sel, budget).len() ==> spec_matches(
                d,
                #[trigger] collect_from(d, i, sel, budget)[k] as int,
                sel,
            ) && d.nodes[collect_from(d, i, sel, budget)[k] as int].data is Element,
        forall|x: int, y: int|
            0 <= x < y < collect_from(d, i, sel, budget).len() ==> collect_from(
                d,
                i,
                sel,
                budget,
            )[x] < collect_from(d, i, sel, budget)[y],
    decreases d.nodes.len() - i,
{
    if budget <= 0 || i < 0 || i >= d.nodes.len() {
    } else if spec_matches(d, i, sel) {
        lemma_collect_props(d, i + 1, sel, budget - 1);
        assert(crate::matcher::compound_holds(
            d,
            i,
            crate::matcher::step_of(sel, sel.tail.len() as int),
        ));
        let r = collect_from(d, i, sel, budget);
        let sub = collect_from(d, i + 1, sel, budget - 1);
        assert(r == seq![i as usize] + sub);
        assert(r[0] == i as usize);
        assert forall|k: int| 1 <= k < r.len() implies r[k] == sub[k - 1] by {}
    } else {
        lemma_collect_props(d, i + 1, sel, budget);
    }
}

/// Collects at most `limit` matching elements of `d`, in document order.
pub fn collect(d: &Document, sel: &Selector, limit: usize) -> (r: Vec<usize>)
    requires
        wf_doc(d@),
    ensures
        r@ == spec_collect(d@, sel@, limit),
{
    let mut r: Vec<usize> = Vec::new();
    let mut left: usize = limit;
    let mut i: usize = 1;
    loop
        invariant
            wf_doc(d@),
            1 <= i,
            i <= d@.nodes.len() || i == 1,
            left <= limit,
            r@ + collect_from(d@, i as int, sel@, left as int) == spec_collect(d@, sel@, limit),
        decreases d@.nodes.len() - i + left,
    {
        if left == 0 || i >= d.nodes.len() {
            proof {
                assert(r@ + collect_from(d@, i as int, sel@, left as int) =~= r@);
            }
            return r;
        }
        let ghost r0 = r@;
        if node_matches(d, i, sel) {
            r.push(i);
            left = left - 1;
            proof {
                assert(r@ + collect_from(d@, i + 1, sel@, left as int) =~= r0 + (seq![i]
                    + collect_from(d@, i + 1, sel@, left as int)));
            }
        }
        i = i + 1;
    }
}

/// The result of an extraction, at the level of the mathematical model:
/// either the selector error, or the records of the collected elements.
pub open spec fn spec_extract(h: Seq<char>, sel: Seq<char>, limit: usize) -> Result<
    Seq<MatchV>,
    SelectorError,
> {
    match spec_parse_selector(sel) {
        Err(e) => Err(e),
        Ok(sv) => {
            let d = spec_parse_html(h);
            Ok(spec_collect(d, sv, limit).map_values(|ix: usize| spec_render(d, ix as int)))
        },
    }
}

/// The model view of an executable extraction result.
pub open spec fn extract_view(r: Result<Vec<Match>, SelectorError>) -> Result<
    Seq<MatchV>,
    SelectorError,
> {
    match r {
        Ok(ms) => Ok(ms@.map_values(|m: Match| m@)),
        Err(e) => Err(e),
    }
}

/// Everything `extract` promises: its result is exactly the model's.
pub open spec fn extract_post(
    h: Seq<char>,
    sel: Seq<char>,
    limit: usize,
    rv: Result<Seq<MatchV>, SelectorError>,
) -> bool {
    rv == spec_extract(h, sel, limit)
}

/// Matches `selector` against `html` and returns up to `limit` records, or
/// the selector's syntax error. Malformed HTML is never an error.
pub fn extract(html: &str, selector: &str, limit: usize) -> (r: Result<
    Vec<Match>,
    SelectorError,
>)
    requires
        html@.len() < usize::MAX,
    ensures
        extract_post(html@, selector@, limit, extract_view(r)),
        r is Ok <==> spec_parse_selector(selector@) is Ok,
        r matches Ok(ms) ==> ms@.len() <= limit,
        (limit == 0 && r is Ok) ==> (r matches Ok(ms) && ms@.len() == 0),
{
    let sel = match Selector::parse(selector) {
        Ok(s) => s,
        Err(e) => {
            return Err(e);
        },
    };
    let doc = Document::parse(html);
    let idxs = collect(&doc, &sel, limit);
    proof {
        vstd::std_specs::vec::axiom_spec_len(&doc.nodes);
        assert(doc@.nodes.len() == doc.nodes@.len());
        lemma_collect_props(doc@, 1, sel@, limit as int);
    }
    let mut out: Vec<Match> = Vec::new();
    let mut k: usize = 0;
    while k < idxs.len()
        invariant
            wf_doc(doc@),
            doc@ == spec_parse_html(html@),
            idxs@ == spec_collect(doc@, sel@, limit),
            k <= idxs@.len(),
            forall|q: int| 0 <= q < idxs@.len() ==> #[trigger] idxs@[q] < doc@.nodes.len(),
            forall|q: int|
                0 <= q < idxs@.len() ==> doc@.nodes[#[trigger] idxs@[q] as int].data is Element,
            out@.map_values(|m: Match| m@) == idxs@.take(k as int).map_values(
                |ix: usize| spec_render(doc@, ix as int),
            ),
        decreases idxs@.len() - k,
    {
        let ghost before = out@.map_values(|m: Match| m@);
        let m = render(&doc, idxs[k]);
        out.push(m);
        proof {
            assert(out@.map_values(|m: Match| m@) =~= before.push(
                spec_render(doc@, idxs@[k as int] as int),
            ));
            assert(idxs@.take(k + 1 as int).map_values(|ix: usize| spec_render(doc@, ix as int))
                =~= idxs@.take(k as int).map_values(|ix: usize| spec_render(doc@, ix as int)).push(
                spec_render(doc@, idxs@[k as int] as int),
            ));
        }
        k = k + 1;
    }
    proof {
        assert(idxs@.take(idxs@.len() as int) =~= idxs@);
    }
    Ok(out)
}

/// No extraction returns more records than its limit.
pub proof fn lemma_extract_within_limit(h: Seq<char>, s: Seq<char>, limit: usize)
    ensures
        spec_extract(h, s, limit) matches Ok(ms) ==> ms.len() <= limit,
{
    match spec_parse_selector(s) {
        Ok(sv) => {
            lemma_collect_len(spec_parse_html(h), 1, sv, limit as int);
        },
        Err(_) => {},
    }
}

/// A limit of zero yields the empty record list for every document and
/// every well-formed selector.
pub proof fn lemma_extract_limit_zero(h: Seq<char>, s: Seq<char>)
    ensures
        spec_extract(h, s, 0) matches Ok(ms) ==> ms == Seq::<MatchV>::empty(),
{
    match spec_parse_selector(s) {
        Ok(sv) => {
            let d = spec_parse_html(h);
            assert(spec_collect(d, sv, 0) =~= Seq::<usize>::empty());
            assert(spec_collect(d, sv, 0).map_values(|ix: usize| spec_render(d, ix as int)) =~= Seq::<
                MatchV,
            >::empty());
        },
        Err(_) => {},
    }
}

/// Extraction is a function of its inputs alone: two results that both meet
/// `extract`'s contract on the same inputs are identical.
pub proof fn lemma_extract_deterministic(
    h: Seq<char>,
    s: Seq<char>,
    limit: usize,
    r1: Result<Seq<MatchV>, SelectorError>,
    r2: Result<Seq<MatchV>, SelectorError>,
)
    requires
        extract_post(h, s, limit, r1),
        extract_post(h, s, limit, r2),
    ensures
        r1 == r2,
{
}

/// Collected indices come in strictly ascending order, and indices are
/// assigned by the parser in document order, so records keep the order in
/// which their elements appear in the markup.
pub proof fn lemma_collect_document_order(d: DocV, sel: SelV, limit: usize)
    requires
        d.nodes.len() <= usize::MAX,
    ensures
        forall|x: int, y: int|
            0 <= x < y < spec_collect(d, sel, limit).len() ==> spec_collect(d, sel, limit)[x]
                < spec_collect(d, sel, limit)[y],
{
    lemma_collect_props(d, 1, sel, limit as int);
}

/// A selector that is empty, or holds nothing but whitespace, is rejected
/// with `EmptySelector` at position 0.
pub proof fn lemma_empty_selector_rejected(s: Seq<char>)
    requires
        ws_end(s, 0) >= s.len(),
    ensures
        spec_parse_selector(s) == Err::<SelV, SelectorError>(
            SelectorError { reason: Reason::EmptySelector, position: 0 },
        ),
{
}

} // verus!
