//! Rendering of a matched element: its tag, its normalized text content, a
//! faithful re-serialization of its subtree, and its attribute list.

use vstd::prelude::*;

use crate::dom::{attrs_of, tag_of, wf_doc, wf_node, DocV, Document, NodeData, NodeDataV};
use crate::html::is_void;
use crate::text::{chars_to_string, normalize_chars, normalize_ws, str_to_chars};

verus! {

/// One extracted element, independent of the document it came from.
#[derive(Debug, Clone, PartialEq, Eq)]
pub struct Match {
    /// Lowercased tag name.
    pub tag: String,
    /// Text of all descendant text nodes, whitespace-normalized.
    pub text: String,
    /// Re-serialized markup of the element and its subtree.
    pub html: String,
    /// Attribute pairs in parse order, names lowercase.
    pub attrs: Vec<(String, String)>,
}

/// Ghost mirror of `Match`.
#[verifier::ext_equal]
pub struct MatchV {
    pub tag: Seq<char>,
    pub text: Seq<char>,
    pub html: Seq<char>,
    pub attrs: Seq<(Seq<char>, Seq<char>)>,
}

impl View for Match {
    type V = MatchV;

    open spec fn view(&self) -> MatchV {
        MatchV {
            tag: self.tag@,
            text: self.text@,
            html: self.html@,
            attrs: self.attrs@.map_values(|p: (String, String)| (p.0@, p.1@)),
        }
    }
}

/// Raw text of the subtree rooted at `i`, each text node followed by one
/// space so that separate runs never fuse into one word.
pub open spec fn texts_of(d: DocV, i: int) -> Seq<char>
    decreases d.nodes.len() - i, 1int, 0int,
{
    match d.nodes[i].data {
        NodeDataV::Text { content } => content + seq![' '],
        NodeDataV::Element { .. } => texts_list(d, d.nodes[i].children, i, 0),
    }
}

/// Raw text of the subtrees rooted at `cs[k..]`, all of which lie past `lo`.
pub open spec fn texts_list(d: DocV, cs: Seq<usize>, lo: int, k: int) -> Seq<char>
    decreases d.nodes.len() - lo, 0int, cs.len() - k,
{
    if k < 0 || k >= cs.len() {
        Seq::empty()
    } else {
        (if lo < cs[k] && cs[k] < d.nodes.len() {
            texts_of(d, cs[k] as int)
        } else {
            Seq::empty()
        }) + texts_list(d, cs, lo, k + 1)
    }
}

/// ` name="value"` for each attribute, in order.
pub open spec fn attrs_str(attrs: Seq<(Seq<char>, Seq<char>)>, k: int) -> Seq<char>
    decreases attrs.len() - k,
{
    if k < 0 || k >= attrs.len() {
        Seq::empty()
    } else {
        seq![' '] + attrs[k].0 + seq!['=', '"'] + attrs[k].1 + seq!['"'] + attrs_str(attrs, k + 1)
    }
}

/// Markup of the subtree rooted at `i`: text verbatim, an element as its
/// open tag, children, and (except for void elements) its close tag.
pub open spec fn render_of(d: DocV, i: int) -> Seq<char>
    decreases d.nodes.len() - i, 1int, 0int,
{
    match d.nodes[i].data {
        NodeDataV::Text { content } => content,
        NodeDataV::Element { tag, attrs } => seq!['<'] + tag + attrs_str(attrs, 0) + seq!['>']
            + render_list(d, d.nodes[i].children, i, 0) + (if is_void(tag) {
            Seq::<char>::empty()
        } else {
            seq!['<', '/'] + tag + seq!['>']
        }),
    }
}

/// Markup of the subtrees rooted at `cs[k..]`, all of which lie past `lo`.
pub open spec fn render_list(d: DocV, cs: Seq<usize>, lo: int, k: int) -> Seq<char>
    decreases d.nodes.len() - lo, 0int, cs.len() - k,
{
    if k < 0 || k >= cs.len() {
        Seq::empty()
    } else {
        (if lo < cs[k] && cs[k] < d.nodes.len() {
            render_of(d, cs[k] as int)
        } else {
            Seq::empty()
        }) + render_list(d, cs, lo, k + 1)
    }
}

/// The full record for the element at `i`.
pub open spec fn spec_render(d: DocV, i: int) -> MatchV {
    MatchV {
        tag: tag_of(d, i),
        text: normalize_ws(texts_of(d, i)),
        html: render_of(d, i),
        attrs: attrs_of(d, i),
    }
}

fn texts_of_c(d: &Document, i: usize) -> (r: Vec<char>)
    requires
        wf_doc(d@),
        i < d@.nodes.len(),
    ensures
        r@ == texts_of(d@, i as int),
    decreases d@.nodes.len() - i, 1int, 0int,
{
    match &d.nodes[i].data {
        NodeData::Text { content } => {
            let mut r = str_to_chars(content.as_str());
            r.push(' ');
            r
        },
        NodeData::Element { .. } => texts_list_c(d, i, 0),
    }
}

fn texts_list_c(d: &Document, i: usize, k: usize) -> (r: Vec<char>)
    requires
        wf_doc(d@),
        i < d@.nodes.len(),
        k <= d@.nodes[i as int].children.len(),
    ensures
        r@ == texts_list(d@, d@.nodes[i as int].children, i as int, k as int),
    decreases d@.nodes.len() - i, 0int, d@.nodes[i as int].children.len() - k,
{
    let clen = d.nodes[i].children.len();
    if k >= clen {
        Vec::new()
    } else {
        let c = d.nodes[i].children[k];
        proof {
            assert(wf_node(d@, i as int));
            assert(i < d@.nodes[i as int].children[k as int] < d@.nodes.len());
        }
        let mut r = texts_of_c(d, c);
        let mut rest = texts_list_c(d, i, k + 1);
        r.append(&mut rest);
        r
    }
}

fn attrs_str_c(attrs: &Vec<(String, String)>) -> (r: Vec<char>)
    ensures
        r@ == attrs_str(attrs@.map_values(|p: (String, String)| (p.0@, p.1@)), 0),
{
    let ghost av = attrs@.map_values(|p: (String, String)| (p.0@, p.1@));
    let mut r: Vec<char> = Vec::new();
    let mut k: usize = 0;
    while k < attrs.len()
        invariant
            k <= attrs@.len(),
            av == attrs@.map_values(|p: (String, String)| (p.0@, p.1@)),
            r@ + attrs_str(av, k as int) == attrs_str(av, 0),
        decreases attrs@.len() - k,
    {
        let ghost r0 = r@;
        r.push(' ');
        let mut nm = str_to_chars(attrs[k].0.as_str());
        r.append(&mut nm);
        r.push('=');
        r.push('"');
        let mut vl = str_to_chars(attrs[k].1.as_str());
        r.append(&mut vl);
        r.push('"');
        proof {
            let piece = seq![' '] + av[k as int].0 + seq!['=', '"'] + av[k as int].1 + seq!['"'];
            assert(r@ =~= r0 + piece);
            assert(r@ + attrs_str(av, k + 1 as int) =~= r0 + attrs_str(av, k as int));
        }
        k = k + 1;
    }
    proof {
        assert(r@ + attrs_str(av, k as int) =~= r@);
    }
    r
}

fn render_of_c(d: &Document, i: usize) -> (r: Vec<char>)
    requires
        wf_doc(d@),
        i < d@.nodes.len(),
    ensures
        r@ == render_of(d@, i as int),
    decreases d@.nodes.len() - i, 1int, 0int,
{
    match &d.nodes[i].data {
        NodeData::Text { content } => str_to_chars(content.as_str()),
        NodeData::Element { tag, attrs } => {
            let mut r: Vec<char> = Vec::new();
            r.push('<');
            let tagc = str_to_chars(tag.as_str());
            let mut t1 = str_to_chars(tag.as_str());
            r.append(&mut t1);
            let mut ats = attrs_str_c(attrs);
            r.append(&mut ats);
            r.push('>');
            let mut kids = render_list_c(d, i, 0);
            r.append(&mut kids);
            if !crate::html::is_void_c(&tagc) {
                r.push('<');
                r.push('/');
                let mut t2 = str_to_chars(tag.as_str());
                r.append(&mut t2);
                r.push('>');
            }
            proof {
                assert(r@ =~= render_of(d@, i as int));
            }
            r
        },
    }
}

fn render_list_c(d: &Document, i: usize, k: usize) -> (r: Vec<char>)
    requires
        wf_doc(d@),
        i < d@.nodes.len(),
        k <= d@.nodes[i as int].children.len(),
    ensures
        r@ == render_list(d@, d@.nodes[i as int].children, i as int, k as int),
    decreases d@.nodes.len() - i, 0int, d@.nodes[i as int].children.len() - k,
{
    let clen = d.nodes[i].children.len();
    if k >= clen {
        Vec::new()
    } else {
        let c = d.nodes[i].children[k];
        proof {
            assert(wf_node(d@, i as int));
            assert(i < d@.nodes[i as int].children[k as int] < d@.nodes.len());
        }
        let mut r = render_of_c(d, c);
        let mut rest = render_list_c(d, i, k + 1);
        r.append(&mut rest);
        r
    }
}

fn clone_attrs(attrs: &Vec<(String, String)>) -> (r: Vec<(String, String)>)
    ensures
        r@.map_values(|p: (String, String)| (p.0@, p.1@)) == attrs@.map_values(
            |p: (String, String)| (p.0@, p.1@),
        ),
{
    let mut r: Vec<(String, String)> = Vec::new();
    let mut k: usize = 0;
    while k < attrs.len()
        invariant
            k <= attrs@.len(),
            r@.map_values(|p: (String, String)| (p.0@, p.1@)) == attrs@.take(
                k as int,
            ).map_values(|p: (String, String)| (p.0@, p.1@)),
        decreases attrs@.len() - k,
    {
        let ghost before = r@.map_values(|p: (String, String)| (p.0@, p.1@));
        r.push((attrs[k].0.clone(), attrs[k].1.clone()));
        proof {
            assert(r@.map_values(|p: (String, String)| (p.0@, p.1@)) =~= before.push(
                (attrs@[k as int].0@, attrs@[k as int].1@),
            ));
            assert(attrs@.take(k + 1 as int).map_values(|p: (String, String)| (p.0@, p.1@))
                =~= attrs@.take(k as int).map_values(|p: (String, String)| (p.0@, p.1@)).push(
                (attrs@[k as int].0@, attrs@[k as int].1@),
            ));
        }
        k = k + 1;
    }
    proof {
        assert(attrs@.take(attrs@.len() as int) =~= attrs@);
    }
    r
}

/// The record for the element at index `i` of `d`.
pub fn render(d: &Document, i: usize) -> (m: Match)
    requires
        wf_doc(d@),
        i < d@.nodes.len(),
        d@.nodes[i as int].data is Element,
    ensures
        m@ == spec_render(d@, i as int),
{
    match &d.nodes[i].data {
        NodeData::Element { tag, attrs } => {
            let t = texts_of_c(d, i);
            let tn = normalize_chars(&t);
            let h = render_of_c(d, i);
            let m = Match {
                tag: tag.clone(),
                text: chars_to_string(&tn),
                html: chars_to_string(&h),
                attrs: clone_attrs(attrs),
            };
            proof {
                assert(m@ =~~= spec_render(d@, i as int));
            }
            m
        },
        NodeData::Text { .. } => {
            proof {
                assert(false);
            }
            Match { tag: String::new(), text: String::new(), html: String::new(), attrs: Vec::new() }
        },
    }
}

} // verus!
