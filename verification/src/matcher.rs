//! Evaluation of a selector against an element in its tree context. The
//! rightmost compound must hold of the element itself; each step leftward
//! constrains the parent (child combinator) or some ancestor (descendant
//! combinator).

use vstd::prelude::*;

use crate::dom::{attrs_of, tag_of, wf_doc, wf_node, DocV, Document, NodeData};
use crate::selector::{Comb, Compound, CompoundV, Pred, PredV, SelV, Selector};
use crate::text::{clamp_pos, sub_chars, word_end, word_end_c, ws_end, ws_end_c};
use crate::text::{chars_eq, clamp_c, str_to_chars};

verus! {

/// Index of the first attribute at or after `k` whose name is `name`, or -1.
pub open spec fn attr_find(attrs: Seq<(Seq<char>, Seq<char>)>, name: Seq<char>, k: int) -> int
    decreases attrs.len() - k,
{
    if k < 0 || k >= attrs.len() {
        -1
    } else if attrs[k].0 == name {
        k
    } else {
        attr_find(attrs, name, k + 1)
    }
}

/// The value of the attribute named `name`, when the element carries one.
pub open spec fn attr_val(attrs: Seq<(Seq<char>, Seq<char>)>, name: Seq<char>) -> Option<
    Seq<char>,
> {
    let f = attr_find(attrs, name, 0);
    if f >= 0 {
        Some(attrs[f].1)
    } else {
        None
    }
}

pub(crate) fn attr_find_c(attrs: &Vec<(String, String)>, name: &String) -> (r: Option<usize>)
    ensures
        (match r {
            Some(f) => attr_find(
                attrs@.map_values(|p: (String, String)| (p.0@, p.1@)),
                name@,
                0,
            ) == f && f < attrs@.len(),
            None => attr_find(
                attrs@.map_values(|p: (String, String)| (p.0@, p.1@)),
                name@,
                0,
            ) == -1,
        }),
{
    let ghost av = attrs@.map_values(|p: (String, String)| (p.0@, p.1@));
    let mut k: usize = 0;
    while k < attrs.len()
        invariant
            k <= attrs@.len(),
            av == attrs@.map_values(|p: (String, String)| (p.0@, p.1@)),
            attr_find(av, name@, 0) == attr_find(av, name@, k as int),
        decreases attrs@.len() - k,
    {
        if attrs[k].0 == *name {
            return Some(k);
        }
        k = k + 1;
    }
    None
}

fn attr_val_c(attrs: &Vec<(String, String)>, name: &String) -> (r: Option<String>)
    ensures
        (match r {
            Some(v) => attr_val(attrs@.map_values(|p: (String, String)| (p.0@, p.1@)), name@)
                == Some(v@),
            None => attr_val(attrs@.map_values(|p: (String, String)| (p.0@, p.1@)), name@)
                is None,
        }),
{
    match attr_find_c(attrs, name) {
        Some(f) => Some(attrs[f].1.clone()),
        None => None,
    }
}

/// Whether `w` occurs as one of the whitespace-separated words of `s` at or
/// after position `i`.
pub open spec fn has_word(s: Seq<char>, i: int, w: Seq<char>) -> bool
    decreases s.len() - i,
{
    let j = clamp_pos(ws_end(s, i), i, s.len() as int);
    if j >= s.len() {
        false
    } else {
        let k = clamp_pos(word_end(s, j), j + 1, s.len() as int);
        s.subrange(j, k) == w || has_word(s, k, w)
    }
}

fn has_word_c(v: &Vec<char>, w: &Vec<char>) -> (b: bool)
    ensures
        b == has_word(v@, 0, w@),
{
    let mut i: usize = 0;
    loop
        invariant
            i <= v@.len(),
            has_word(v@, 0, w@) == has_word(v@, i as int, w@),
        decreases v@.len() - i,
    {
        let j = clamp_c(ws_end_c(v, i), i, v.len());
        if j >= v.len() {
            return false;
        }
        let k = clamp_c(word_end_c(v, j), j + 1, v.len());
        let word = sub_chars(v, j, k);
        if chars_eq(&word, w) {
            return true;
        }
        i = k;
    }
}

/// Whether one predicate holds of the node at `i`.
pub open spec fn pred_holds(d: DocV, i: int, p: PredV) -> bool {
    match p {
        PredV::TypeIs(t) => tag_of(d, i) == t,
        PredV::HasId(v) => attr_val(attrs_of(d, i), "id"@) == Some(v),
        PredV::HasClass(c) => (match attr_val(attrs_of(d, i), "class"@) {
            Some(val) => has_word(val, 0, c),
            None => false,
        }),
        PredV::HasAttr(n) => attr_val(attrs_of(d, i), n) is Some,
        PredV::AttrEquals(n, v) => attr_val(attrs_of(d, i), n) == Some(v),
    }
}

fn pred_holds_c(tag: &String, attrs: &Vec<(String, String)>, p: &Pred, Ghost(d): Ghost<DocV>, Ghost(i): Ghost<int>) -> (b: bool)
    requires
        0 <= i < d.nodes.len(),
        tag_of(d, i) == tag@,
        attrs_of(d, i) == attrs@.map_values(|q: (String, String)| (q.0@, q.1@)),
    ensures
        b == pred_holds(d, i, p@),
{
    match p {
        Pred::TypeIs(t) => *tag == *t,
        Pred::HasId(v) => {
            let id_name = "id".to_owned();
            match attr_val_c(attrs, &id_name) {
                Some(val) => val == *v,
                None => false,
            }
        },
        Pred::HasClass(c) => {
            let class_name = "class".to_owned();
            match attr_val_c(attrs, &class_name) {
                Some(val) => {
                    let vc = str_to_chars(val.as_str());
                    let wc = str_to_chars(c.as_str());
                    has_word_c(&vc, &wc)
                },
                None => false,
            }
        },
        Pred::HasAttr(n) => attr_val_c(attrs, n).is_some(),
        Pred::AttrEquals(n, v) => {
            match attr_val_c(attrs, n) {
                Some(val) => val == *v,
                None => false,
            }
        },
    }
}

/// Whether every predicate of a compound holds of the element at `i`; text
/// nodes satisfy no compound.
pub open spec fn compound_holds(d: DocV, i: int, c: CompoundV) -> bool {
    &&& d.nodes[i].data is Element
    &&& forall|k: int| 0 <= k < c.preds.len() ==> pred_holds(d, i, #[trigger] c.preds[k])
}

fn compound_holds_c(d: &Document, i: usize, c: &Compound) -> (b: bool)
    requires
        i < d@.nodes.len(),
    ensures
        b == compound_holds(d@, i as int, c@),
{
    match &d.nodes[i].data {
        NodeData::Text { .. } => false,
        NodeData::Element { tag, attrs } => {
            let mut k: usize = 0;
            while k < c.preds.len()
                invariant
                    i < d@.nodes.len(),
                    k <= c.preds@.len(),
                    d@.nodes[i as int].data is Element,
                    tag_of(d@, i as int) == tag@,
                    attrs_of(d@, i as int) == attrs@.map_values(
                        |q: (String, String)| (q.0@, q.1@),
                    ),
                    forall|m: int| 0 <= m < k ==> pred_holds(d@, i as int, #[trigger] c@.preds[m]),
                decreases c.preds@.len() - k,
            {
                proof {
                    assert(c@.preds[k as int] == c.preds@[k as int]@);
                }
                if !pred_holds_c(tag, attrs, &c.preds[k], Ghost(d@), Ghost(i as int)) {
                    return false;
                }
                k = k + 1;
            }
            true
        },
    }
}

/// The compound at position `k` of a selector, counted from the left; 0 is
/// the leftmost.
pub open spec fn step_of(sel: SelV, k: int) -> CompoundV {
    if k <= 0 {
        sel.head
    } else {
        sel.tail[k - 1].1
    }
}

/// The combinator joining step `k - 1` to step `k`.
pub open spec fn comb_of(sel: SelV, k: int) -> Comb {
    sel.tail[k - 1].0
}

/// Whether the element at `i` satisfies the selector prefix that ends at
/// step `k`: the step's compound holds of `i`, and the steps to its left are
/// satisfied by the parent (child combinator) or by some walk up the
/// ancestor chain (descendant combinator).
pub open spec fn chain_holds(d: DocV, i: int, sel: SelV, k: int) -> bool
    decreases k, i, 0int,
{
    &&& compound_holds(d, i, step_of(sel, k))
    &&& (k > 0 ==> (match comb_of(sel, k) {
        Comb::Child => (match d.nodes[i].parent {
            Some(p) => p < i && chain_holds(d, p as int, sel, k - 1),
            None => false,
        }),
        Comb::Descendant => anc_holds(d, i, sel, k - 1),
    }))
}

/// Whether some proper ancestor of `i` satisfies the selector prefix that
/// ends at step `k`.
pub open spec fn anc_holds(d: DocV, i: int, sel: SelV, k: int) -> bool
    decreases k, i, 1int,
{
    if k < 0 {
        false
    } else {
        match d.nodes[i].parent {
            Some(p) => p < i && (chain_holds(d, p as int, sel, k) || anc_holds(d, p as int, sel, k)),
            None => false,
        }
    }
}

/// Whether the element at `i` matches the whole selector.
pub open spec fn spec_matches(d: DocV, i: int, sel: SelV) -> bool {
    chain_holds(d, i, sel, sel.tail.len() as int)
}

fn chain_holds_c(d: &Document, i: usize, sel: &Selector, k: usize) -> (b: bool)
    requires
        wf_doc(d@),
        i < d@.nodes.len(),
        k <= sel.tail@.len(),
    ensures
        b == chain_holds(d@, i as int, sel@, k as int),
    decreases k, i, 0int,
{
    let c = if k == 0 {
        &sel.head
    } else {
        &sel.tail[k - 1].1
    };
    proof {
        assert(c@ == step_of(sel@, k as int));
    }
    if !compound_holds_c(d, i, c) {
        return false;
    }
    if k == 0 {
        return true;
    }
    let comb = sel.tail[k - 1].0;
    proof {
        assert(comb == comb_of(sel@, k as int));
        assert(wf_node(d@, i as int));
    }
    match comb {
        Comb::Child => {
            match d.nodes[i].parent {
                Some(p) => chain_holds_c(d, p, sel, k - 1),
                None => false,
            }
        },
        Comb::Descendant => anc_holds_c(d, i, sel, k - 1),
    }
}

fn anc_holds_c(d: &Document, i: usize, sel: &Selector, k: usize) -> (b: bool)
    requires
        wf_doc(d@),
        i < d@.nodes.len(),
        k <= sel.tail@.len(),
    ensures
        b == anc_holds(d@, i as int, sel@, k as int),
    decreases k, i, 1int,
{
    proof {
        assert(wf_node(d@, i as int));
    }
    match d.nodes[i].parent {
        Some(p) => {
            if chain_holds_c(d, p, sel, k) {
                true
            } else {
                anc_holds_c(d, p, sel, k)
            }
        },
        None => false,
    }
}

/// Whether the element at index `i` of `d` matches `sel`.
pub fn node_matches(d: &Document, i: usize, sel: &Selector) -> (b: bool)
    requires
        wf_doc(d@),
        i < d@.nodes.len(),
    ensures
        b == spec_matches(d@, i as int, sel@),
{
    chain_holds_c(d, i, sel, sel.tail.len())
}

} // verus!
