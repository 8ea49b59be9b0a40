//! The tolerant HTML parser. A single scan keeps a stack of open elements:
//! tag-opens append under the stack top, tag-closes pop to the nearest open
//! element of the same name (or are ignored), and whatever remains open at
//! the end is closed implicitly. Comments, doctypes and processing
//! instructions are skipped; a `<` that starts no tag is literal text.
//!
//! Policies a maintainer should know: tag and attribute names are lowercased;
//! on a duplicated attribute name the last value wins, in the first
//! occurrence's position; a void element (`br`, `img`, ...) and a
//! self-closed tag (`<c/>`) are never pushed; an open `li`, `p`, `dd`, `dt`,
//! `td`, `th`, `tr` or `option` is closed by a new sibling of the same tag.

use vstd::prelude::*;

use crate::dom::{
    append_node, empty_doc, lemma_append_wf, tag_of, wf_doc, wf_node, DocV, Document, Node,
    NodeData, NodeDataV,
};
use crate::matcher::{attr_find, attr_find_c};
use crate::text::{
    char_end, char_end_c, chars_eq, chars_to_string, clamp_c, clamp_pos, comment_end,
    comment_end_c, is_name_char, is_name_char_c, lower_chars, lower_seq, name_end, name_end_c,
    str_to_chars, sub_chars, text_end, text_end_c, unquoted_end, unquoted_end_c, ws_end, ws_end_c,
};

verus! {

/// Void elements: they never take children and are never pushed.
pub open spec fn is_void(t: Seq<char>) -> bool {
    ||| t == "area"@
    ||| t == "base"@
    ||| t == "br"@
    ||| t == "col"@
    ||| t == "embed"@
    ||| t == "hr"@
    ||| t == "img"@
    ||| t == "input"@
    ||| t == "link"@
    ||| t == "meta"@
    ||| t == "param"@
    ||| t == "source"@
    ||| t == "track"@
    ||| t == "wbr"@
}

pub(crate) fn is_void_c(t: &Vec<char>) -> (b: bool)
    ensures
        b == is_void(t@),
{
    chars_eq(t, &str_to_chars("area")) || chars_eq(t, &str_to_chars("base")) || chars_eq(
        t,
        &str_to_chars("br"),
    ) || chars_eq(t, &str_to_chars("col")) || chars_eq(t, &str_to_chars("embed")) || chars_eq(
        t,
        &str_to_chars("hr"),
    ) || chars_eq(t, &str_to_chars("img")) || chars_eq(t, &str_to_chars("input")) || chars_eq(
        t,
        &str_to_chars("link"),
    ) || chars_eq(t, &str_to_chars("meta")) || chars_eq(t, &str_to_chars("param")) || chars_eq(
        t,
        &str_to_chars("source"),
    ) || chars_eq(t, &str_to_chars("track")) || chars_eq(t, &str_to_chars("wbr"))
}

/// Tags that implicitly close an open sibling of the same tag.
pub open spec fn is_auto(t: Seq<char>) -> bool {
    ||| t == "li"@
    ||| t == "p"@
    ||| t == "dd"@
    ||| t == "dt"@
    ||| t == "td"@
    ||| t == "th"@
    ||| t == "tr"@
    ||| t == "option"@
}

fn is_auto_c(t: &Vec<char>) -> (b: bool)
    ensures
        b == is_auto(t@),
{
    chars_eq(t, &str_to_chars("li")) || chars_eq(t, &str_to_chars("p")) || chars_eq(
        t,
        &str_to_chars("dd"),
    ) || chars_eq(t, &str_to_chars("dt")) || chars_eq(t, &str_to_chars("td")) || chars_eq(
        t,
        &str_to_chars("th"),
    ) || chars_eq(t, &str_to_chars("tr")) || chars_eq(t, &str_to_chars("option"))
}

/// Records an attribute: the last value of a repeated name wins, in the first
/// occurrence's position.
pub open spec fn attr_insert(
    attrs: Seq<(Seq<char>, Seq<char>)>,
    name: Seq<char>,
    value: Seq<char>,
) -> Seq<(Seq<char>, Seq<char>)> {
    let f = attr_find(attrs, name, 0);
    if f >= 0 {
        attrs.update(f, (name, value))
    } else {
        attrs.push((name, value))
    }
}

fn attr_insert_c(attrs: &mut Vec<(String, String)>, name: String, value: String)
    ensures
        final(attrs)@.map_values(|p: (String, String)| (p.0@, p.1@)) == attr_insert(
            old(attrs)@.map_values(|p: (String, String)| (p.0@, p.1@)),
            name@,
            value@,
        ),
{
    let ghost av = attrs@.map_values(|p: (String, String)| (p.0@, p.1@));
    match attr_find_c(attrs, &name) {
        Some(f) => {
            let ghost nv = (name@, value@);
            attrs[f] = (name, value);
            proof {
                assert(attrs@.map_values(|p: (String, String)| (p.0@, p.1@)) =~= av.update(
                    f as int,
                    nv,
                ));
            }
        },
        None => {
            let ghost nv = (name@, value@);
            attrs.push((name, value));
            proof {
                assert(attrs@.map_values(|p: (String, String)| (p.0@, p.1@)) =~= av.push(nv));
            }
        },
    }
}

/// Scans the attribute region of an open tag, from after the tag name to the
/// closing `>`; reports the position after the tag and whether it was
/// self-closed with `/>`.
pub open spec fn scan_attrs(s: Seq<char>, i: int, acc: Seq<(Seq<char>, Seq<char>)>) -> (
    Seq<(Seq<char>, Seq<char>)>,
    int,
    bool,
)
    decreases s.len() - i,
{
    if i < 0 {
        (acc, s.len() as int, false)
    } else {
        let j = clamp_pos(ws_end(s, i), i, s.len() as int);
        if j >= s.len() {
            (acc, s.len() as int, false)
        } else if s[j] == '>' {
            (acc, j + 1, false)
        } else if s[j] == '/' {
            if j + 1 < s.len() && s[j + 1] == '>' {
                (acc, j + 2, true)
            } else {
                scan_attrs(s, j + 1, acc)
            }
        } else if is_name_char(s[j]) {
            let k = clamp_pos(name_end(s, j), j + 1, s.len() as int);
            let name = lower_seq(s.subrange(j, k));
            if k < s.len() && s[k] == '=' {
                if k + 1 < s.len() && (s[k + 1] == '"' || s[k + 1] == '\'') {
                    let q = clamp_pos(char_end(s, k + 2, s[k + 1]), k + 2, s.len() as int);
                    let npos = clamp_pos(q + 1, k + 2, s.len() as int);
                    scan_attrs(s, npos, attr_insert(acc, name, s.subrange(k + 2, q)))
                } else {
                    let k2 = clamp_pos(unquoted_end(s, k + 1), k + 1, s.len() as int);
                    scan_attrs(s, k2, attr_insert(acc, name, s.subrange(k + 1, k2)))
                }
            } else {
                scan_attrs(s, k, attr_insert(acc, name, Seq::empty()))
            }
        } else {
            scan_attrs(s, j + 1, acc)
        }
    }
}

fn scan_attrs_c(v: &Vec<char>, start: usize) -> (r: (Vec<(String, String)>, usize, bool))
    requires
        start <= v@.len(),
        v@.len() < usize::MAX,
    ensures
        ({
            let (sa, sp, sb) = scan_attrs(v@, start as int, Seq::empty());
            &&& r.0@.map_values(|p: (String, String)| (p.0@, p.1@)) == sa
            &&& r.1 == sp
            &&& r.2 == sb
            &&& r.1 <= v@.len()
        }),
{
    let mut acc: Vec<(String, String)> = Vec::new();
    let mut i: usize = start;
    proof {
        assert(acc@.map_values(|p: (String, String)| (p.0@, p.1@)) =~= Seq::<
            (Seq<char>, Seq<char>),
        >::empty());
    }
    loop
        invariant
            i <= v@.len(),
            v@.len() < usize::MAX,
            scan_attrs(v@, start as int, Seq::empty()) == scan_attrs(
                v@,
                i as int,
                acc@.map_values(|p: (String, String)| (p.0@, p.1@)),
            ),
        decreases v@.len() - i,
    {
        let ghost accv = acc@.map_values(|p: (String, String)| (p.0@, p.1@));
        let j = clamp_c(ws_end_c(v, i), i, v.len());
        if j >= v.len() {
            return (acc, v.len(), false);
        }
        let c = v[j];
        if c == '>' {
            return (acc, j + 1, false);
        }
        if c == '/' {
            if j + 1 < v.len() && v[j + 1] == '>' {
                return (acc, j + 2, true);
            }
            i = j + 1;
        } else if is_name_char_c(c) {
            let k = clamp_c(name_end_c(v, j), j + 1, v.len());
            let raw = sub_chars(v, j, k);
            let low = lower_chars(&raw);
            let name = chars_to_string(&low);
            if k < v.len() && v[k] == '=' {
                if k + 1 < v.len() && (v[k + 1] == '"' || v[k + 1] == '\'') {
                    let q = clamp_c(char_end_c(v, k + 2, v[k + 1]), k + 2, v.len());
                    let npos = clamp_c(q + 1, k + 2, v.len());
                    let value = sub_chars(v, k + 2, q);
                    attr_insert_c(&mut acc, name, chars_to_string(&value));
                    i = npos;
                } else {
                    let k2 = clamp_c(unquoted_end_c(v, k + 1), k + 1, v.len());
                    let value = sub_chars(v, k + 1, k2);
                    attr_insert_c(&mut acc, name, chars_to_string(&value));
                    i = k2;
                }
            } else {
                let empty_s = String::new();
                attr_insert_c(&mut acc, name, empty_s);
                i = k;
            }
        } else {
            i = j + 1;
        }
    }
}

/// The stack top, with the root as a guard value for an empty stack (which
/// never occurs).
pub open spec fn last_of(st: Seq<usize>) -> usize {
    if st.len() == 0 {
        0
    } else {
        st.last()
    }
}

/// Every stack entry is an element of the document and the bottom is the
/// root.
pub open spec fn wf_stack(d: DocV, st: Seq<usize>) -> bool {
    &&& st.len() >= 1
    &&& st[0] == 0
    &&& forall|k: int|
        0 <= k < st.len() ==> ((#[trigger] st[k]) < d.nodes.len() && d.nodes[st[k] as int].data
            is Element)
}

/// Depth of the topmost open element whose tag is `name`, or -1.
pub open spec fn stack_find(d: DocV, st: Seq<usize>, name: Seq<char>) -> int
    decreases st.len(),
{
    if st.len() == 0 {
        -1
    } else if tag_of(d, st.last() as int) == name {
        st.len() - 1
    } else {
        stack_find(d, st.take(st.len() - 1), name)
    }
}

fn stack_find_c(d: &Document, st: &Vec<usize>, name: &String) -> (r: Option<usize>)
    requires
        wf_stack(d@, st@),
    ensures
        (match r {
            Some(f) => stack_find(d@, st@, name@) == f && f < st@.len(),
            None => stack_find(d@, st@, name@) == -1,
        }),
{
    let mut k: usize = st.len();
    proof {
        assert(st@.take(k as int) =~= st@);
    }
    while k > 0
        invariant
            k <= st@.len(),
            wf_stack(d@, st@),
            stack_find(d@, st@, name@) == stack_find(d@, st@.take(k as int), name@),
        decreases k,
    {
        let top = st[k - 1];
        proof {
            assert(st@[k - 1] < d@.nodes.len());
            assert(st@.take(k as int).len() == k);
            assert(st@.take(k as int).last() == st@[k - 1]);
            assert(st@.take(k as int).take(k - 1 as int) =~= st@.take(k - 1 as int));
            assert(d@.nodes[top as int] == d.nodes@[top as int]@);
        }
        let is_match = match &d.nodes[top].data {
            NodeData::Element { tag, .. } => *tag == *name,
            NodeData::Text { .. } => false,
        };
        if is_match {
            return Some(k - 1);
        }
        k = k - 1;
    }
    proof {
        assert(st@.take(0) =~= Seq::<usize>::empty());
    }
    None
}

/// Effect of a close tag on the stack: pop to the topmost open element of
/// that name inclusively, or ignore the tag when no such element is open.
pub open spec fn close_tag(d: DocV, st: Seq<usize>, name: Seq<char>) -> Seq<usize> {
    if name.len() == 0 {
        st
    } else {
        let f = stack_find(d, st, name);
        if f >= 1 {
            st.take(f)
        } else {
            st
        }
    }
}

fn close_tag_c(d: &Document, st: &mut Vec<usize>, name: &String)
    requires
        wf_stack(d@, old(st)@),
    ensures
        final(st)@ == close_tag(d@, old(st)@, name@),
        wf_stack(d@, final(st)@),
{
    if name.as_str().is_empty() {
        return ;
    }
    match stack_find_c(d, st, name) {
        Some(f) => {
            if f >= 1 {
                let ghost oldst = st@;
                st.truncate(f);
                proof {
                    assert(st@ =~= oldst.take(f as int));
                }
            }
        },
        None => {},
    }
}

/// A text run appended under the current stack top.
pub open spec fn append_text(d: DocV, st: Seq<usize>, content: Seq<char>) -> DocV {
    append_node(d, last_of(st), NodeDataV::Text { content })
}

/// Appends a node under `p` and returns its index.
fn push_node(d: &mut Document, p: usize, data: NodeData) -> (idx: usize)
    requires
        wf_doc(old(d)@),
        p < old(d)@.nodes.len(),
        old(d)@.nodes[p as int].data is Element,
        old(d)@.nodes.len() < usize::MAX,
    ensures
        final(d)@ == append_node(old(d)@, p, data@),
        wf_doc(final(d)@),
        idx == old(d)@.nodes.len(),
        final(d)@.nodes.len() == old(d)@.nodes.len() + 1,
{
    let ghost oldd = d@;
    let ghost dv = data@;
    let idx = d.nodes.len();
    d.nodes[p].children.push(idx);
    d.nodes.push(Node { parent: Some(p), data, children: Vec::new() });
    proof {
        let a = append_node(oldd, p, dv);
        assert(d@.nodes.len() == a.nodes.len());
        assert forall|q: int| 0 <= q < d@.nodes.len() implies d@.nodes[q] == a.nodes[q] by {
            if q == p {
                assert(d@.nodes[q].children =~= a.nodes[q].children);
                assert(d@.nodes[q] =~~= a.nodes[q]);
            } else if q == oldd.nodes.len() {
                assert(d@.nodes[q].children =~= a.nodes[q].children);
                assert(d@.nodes[q] =~~= a.nodes[q]);
            } else {
                assert(d@.nodes[q] =~~= a.nodes[q]);
            }
        }
        assert(d@.nodes =~= a.nodes);
        assert(d@ =~~= a);
        lemma_append_wf(oldd, p, dv);
    }
    idx
}

/// The whole parse, from position `i`, with the document built so far and
/// the stack of open elements. Runs to the end of the input; unclosed
/// elements need no action, since children are linked at creation.
pub open spec fn spec_parse_at(s: Seq<char>, i: int, d: DocV, st: Seq<usize>) -> DocV
    decreases s.len() - i,
{
    if i < 0 || i >= s.len() {
        d
    } else if s[i] != '<' {
        let j = clamp_pos(text_end(s, i), i + 1, s.len() as int);
        spec_parse_at(s, j, append_text(d, st, s.subrange(i, j)), st)
    } else if i + 1 >= s.len() {
        append_text(d, st, seq!['<'])
    } else if s[i + 1] == '!' {
        let j = if i + 4 <= s.len() && s[i + 2] == '-' && s[i + 3] == '-' {
            clamp_pos(comment_end(s, i + 4), i + 1, s.len() as int)
        } else {
            clamp_pos(char_end(s, i, '>') + 1, i + 1, s.len() as int)
        };
        spec_parse_at(s, j, d, st)
    } else if s[i + 1] == '?' {
        let j = clamp_pos(char_end(s, i, '>') + 1, i + 1, s.len() as int);
        spec_parse_at(s, j, d, st)
    } else if s[i + 1] == '/' {
        let k = clamp_pos(name_end(s, i + 2), i + 2, s.len() as int);
        let name = lower_seq(s.subrange(i + 2, k));
        let j = clamp_pos(char_end(s, k, '>') + 1, i + 1, s.len() as int);
        spec_parse_at(s, j, d, close_tag(d, st, name))
    } else if is_name_char(s[i + 1]) {
        let k = clamp_pos(name_end(s, i + 1), i + 2, s.len() as int);
        let name = lower_seq(s.subrange(i + 1, k));
        let (attrs, j0, selfc) = scan_attrs(s, k, Seq::empty());
        let j = clamp_pos(j0, i + 1, s.len() as int);
        let st1 = if is_auto(name) && st.len() > 1 && tag_of(d, last_of(st) as int) == name {
            st.take(st.len() - 1)
        } else {
            st
        };
        let d2 = append_node(d, last_of(st1), NodeDataV::Element { tag: name, attrs });
        let st2 = if selfc || is_void(name) {
            st1
        } else {
            st1.push(d.nodes.len() as usize)
        };
        spec_parse_at(s, j, d2, st2)
    } else {
        spec_parse_at(s, i + 1, append_text(d, st, seq!['<']), st)
    }
}

/// The document produced for the given markup.
pub open spec fn spec_parse_html(s: Seq<char>) -> DocV {
    spec_parse_at(s, 0, empty_doc(), seq![0usize])
}

impl Document {
    /// Builds the document tree for `html`. Never rejects its input:
    /// malformed markup yields a best-effort tree.
    pub fn parse(html: &str) -> (doc: Document)
        requires
            html@.len() < usize::MAX,
        ensures
            doc@ == spec_parse_html(html@),
            wf_doc(doc@),
    {
        let v = str_to_chars(html);
        let mut d = Document::empty();
        let mut st: Vec<usize> = Vec::new();
        st.push(0);
        proof {
            assert(st@ =~= seq![0usize]);
            assert(wf_stack(d@, st@));
        }
        let mut i: usize = 0;
        while i < v.len()
            invariant
                v@ == html@,
                i <= v@.len(),
                v@.len() < usize::MAX,
                wf_doc(d@),
                wf_stack(d@, st@),
                d@.nodes.len() <= 1 + i,
                spec_parse_at(v@, i as int, d@, st@) == spec_parse_html(html@),
            decreases v@.len() - i,
        {
            let ghost oldd = d@;
            let ghost oldst = st@;
            let ghost ii = i as int;
            let c = v[i];
            if c != '<' {
                let j = clamp_c(text_end_c(&v, i), i + 1, v.len());
                let content = sub_chars(&v, i, j);
                let p = st[st.len() - 1];
                proof {
                    assert(oldst[oldst.len() - 1] == last_of(oldst));
                }
                push_node(&mut d, p, NodeData::Text { content: chars_to_string(&content) });
                proof {
                    assert(d@ == append_text(oldd, oldst, v@.subrange(ii, j as int)));
                }
                i = j;
            } else if i + 1 >= v.len() {
                let mut one: Vec<char> = Vec::new();
                one.push('<');
                let p = st[st.len() - 1];
                proof {
                    assert(oldst[oldst.len() - 1] == last_of(oldst));
                    assert(one@ =~= seq!['<']);
                }
                push_node(&mut d, p, NodeData::Text { content: chars_to_string(&one) });
                proof {
                    assert(d@ == append_text(oldd, oldst, seq!['<']));
                }
                i = i + 1;
            } else if v[i + 1] == '!' {
                let j = if v.len() >= 4 && i <= v.len() - 4 && v[i + 2] == '-' && v[i + 3] == '-' {
                    clamp_c(comment_end_c(&v, i + 4), i + 1, v.len())
                } else {
                    clamp_c(char_end_c(&v, i, '>') + 1, i + 1, v.len())
                };
                i = j;
            } else if v[i + 1] == '?' {
                let j = clamp_c(char_end_c(&v, i, '>') + 1, i + 1, v.len());
                i = j;
            } else if v[i + 1] == '/' {
                let k = clamp_c(name_end_c(&v, i + 2), i + 2, v.len());
                let raw = sub_chars(&v, i + 2, k);
                let low = lower_chars(&raw);
                let name = chars_to_string(&low);
                let j = clamp_c(char_end_c(&v, k, '>') + 1, i + 1, v.len());
                close_tag_c(&d, &mut st, &name);
                i = j;
            } else if is_name_char_c(v[i + 1]) {
                let k = clamp_c(name_end_c(&v, i + 1), i + 2, v.len());
                let raw = sub_chars(&v, i + 1, k);
                let low = lower_chars(&raw);
                let (attrs, j0, selfc) = scan_attrs_c(&v, k);
                let j = clamp_c(j0, i + 1, v.len());
                let auto = is_auto_c(&low);
                let void = is_void_c(&low);
                let name = chars_to_string(&low);
                let top = st[st.len() - 1];
                proof {
                    assert(oldst[oldst.len() - 1] == last_of(oldst));
                }
                let top_same = match &d.nodes[top].data {
                    NodeData::Element { tag, .. } => *tag == name,
                    NodeData::Text { .. } => false,
                };
                if auto && st.len() > 1 && top_same {
                    st.pop();
                    proof {
                        assert(st@ =~= oldst.take(oldst.len() - 1));
                    }
                }
                let ghost st1 = st@;
                let p = st[st.len() - 1];
                proof {
                    assert(st@[st@.len() - 1] == last_of(st1));
                }
                let idx = push_node(
                    &mut d,
                    p,
                    NodeData::Element { tag: name, attrs },
                );
                if !selfc && !void {
                    st.push(idx);
                    proof {
                        assert(st@ =~= st1.push(idx));
                    }
                }
                proof {
                    assert(wf_stack(d@, st@));
                    assert(spec_parse_at(v@, ii, oldd, oldst) == spec_parse_at(
                        v@,
                        j as int,
                        d@,
                        st@,
                    ));
                }
                i = j;
            } else {
                let mut one: Vec<char> = Vec::new();
                one.push('<');
                let p = st[st.len() - 1];
                proof {
                    assert(oldst[oldst.len() - 1] == last_of(oldst));
                    assert(one@ =~= seq!['<']);
                }
                push_node(&mut d, p, NodeData::Text { content: chars_to_string(&one) });
                proof {
                    assert(d@ == append_text(oldd, oldst, seq!['<']));
                }
                i = i + 1;
            }
        }
        d
    }
}

} // verus!
