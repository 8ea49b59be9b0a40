//! Selector syntax: simple predicates (`tag`, `#id`, `.class`, `[name]`,
//! `[name=value]`) joined into compounds, and compounds joined by the
//! descendant (whitespace) and child (`>`) combinators.

use vstd::prelude::*;

use crate::text::{
    char_end, clamp_c, clamp_pos, is_name_char, is_name_char_c, is_space, lower_chars, lower_seq,
    name_end, name_end_c, str_to_chars, sub_chars, ws_end, ws_end_c,
};
use crate::text::char_end_c;
use crate::text::chars_to_string;
use crate::text::{lemma_char_end_first, lemma_name_end_first, lemma_ws_end_first};

verus! {

/// One test on a single element.
#[derive(Debug, Clone)]
pub enum Pred {
    /// The element's tag equals the given (lowercased) name.
    TypeIs(String),
    /// The element's `id` attribute equals the given value.
    HasId(String),
    /// The whitespace-separated `class` list contains the given word.
    HasClass(String),
    /// The element carries an attribute of the given (lowercased) name.
    HasAttr(String),
    /// The attribute of the given name has exactly the given value.
    AttrEquals(String, String),
}

/// Ghost mirror of `Pred`.
#[verifier::ext_equal]
pub enum PredV {
    TypeIs(Seq<char>),
    HasId(Seq<char>),
    HasClass(Seq<char>),
    HasAttr(Seq<char>),
    AttrEquals(Seq<char>, Seq<char>),
}

/// The relation between two adjacent compounds of a selector.
#[derive(Debug, Clone, Copy, PartialEq, Eq, Structural)]
pub enum Comb {
    Descendant,
    Child,
}

/// A non-empty conjunction of predicates on one element.
#[derive(Debug, Clone)]
pub struct Compound {
    pub preds: Vec<Pred>,
}

/// Ghost mirror of `Compound`.
#[verifier::ext_equal]
pub struct CompoundV {
    pub preds: Seq<PredV>,
}

/// A parsed selector: the leftmost compound, then pairs of a combinator and
/// the compound to its right. Matching proceeds from the rightmost compound.
#[derive(Debug, Clone)]
pub struct Selector {
    pub head: Compound,
    pub tail: Vec<(Comb, Compound)>,
}

/// Ghost mirror of `Selector`.
#[verifier::ext_equal]
pub struct SelV {
    pub head: CompoundV,
    pub tail: Seq<(Comb, CompoundV)>,
}

/// Why a selector was rejected.
#[derive(Debug, Clone, Copy, PartialEq, Eq, Structural)]
pub enum Reason {
    /// The selector text held no compound at all.
    EmptySelector,
    /// The text ended right after a combinator.
    DanglingCombinator,
    /// A character that starts no simple predicate.
    UnexpectedChar,
    /// `#`, `.` or `[` with no identifier after it.
    MissingName,
    /// `[` whose bracket is never closed.
    UnclosedBracket,
}

#[derive(Debug, Clone, Copy, PartialEq, Eq, Structural)]
pub struct SelectorError {
    pub reason: Reason,
    pub position: usize,
}

impl View for Pred {
    type V = PredV;

    open spec fn view(&self) -> PredV {
        match self {
            Pred::TypeIs(t) => PredV::TypeIs(t@),
            Pred::HasId(v) => PredV::HasId(v@),
            Pred::HasClass(v) => PredV::HasClass(v@),
            Pred::HasAttr(n) => PredV::HasAttr(n@),
            Pred::AttrEquals(n, v) => PredV::AttrEquals(n@, v@),
        }
    }
}

impl View for Compound {
    type V = CompoundV;

    open spec fn view(&self) -> CompoundV {
        CompoundV { preds: self.preds@.map_values(|p: Pred| p@) }
    }
}

impl View for Selector {
    type V = SelV;

    open spec fn view(&self) -> SelV {
        SelV {
            head: self.head@,
            tail: self.tail@.map_values(|t: (Comb, Compound)| (t.0, t.1@)),
        }
    }
}

/// One compound, scanned left to right from `i`; `acc` holds the predicates
/// already read. Stops (without consuming) at whitespace, `>` or the end.
pub open spec fn parse_compound(s: Seq<char>, i: int, acc: Seq<PredV>) -> Result<
    (Seq<PredV>, int),
    SelectorError,
>
    decreases s.len() - i,
{
    if i < 0 || i >= s.len() || is_space(s[i]) || s[i] == '>' {
        if acc.len() == 0 {
            Err(SelectorError { reason: Reason::UnexpectedChar, position: i as usize })
        } else {
            Ok((acc, i))
        }
    } else if s[i] == '#' || s[i] == '.' {
        let j = clamp_pos(name_end(s, i + 1), i + 1, s.len() as int);
        if j == i + 1 {
            Err(SelectorError { reason: Reason::MissingName, position: i as usize })
        } else {
            let name = s.subrange(i + 1, j);
            let p = if s[i] == '#' {
                PredV::HasId(name)
            } else {
                PredV::HasClass(name)
            };
            parse_compound(s, j, acc.push(p))
        }
    } else if s[i] == '[' {
        let j = clamp_pos(name_end(s, i + 1), i + 1, s.len() as int);
        if j == i + 1 {
            Err(SelectorError { reason: Reason::MissingName, position: i as usize })
        } else {
            let name = lower_seq(s.subrange(i + 1, j));
            if j >= s.len() {
                Err(SelectorError { reason: Reason::UnclosedBracket, position: i as usize })
            } else if s[j] == ']' {
                parse_compound(s, j + 1, acc.push(PredV::HasAttr(name)))
            } else if s[j] == '=' {
                let k = clamp_pos(char_end(s, j + 1, ']'), j + 1, s.len() as int);
                if k >= s.len() {
                    Err(SelectorError { reason: Reason::UnclosedBracket, position: i as usize })
                } else {
                    parse_compound(
                        s,
                        k + 1,
                        acc.push(PredV::AttrEquals(name, s.subrange(j + 1, k))),
                    )
                }
            } else {
                Err(SelectorError { reason: Reason::UnclosedBracket, position: i as usize })
            }
        }
    } else if is_name_char(s[i]) {
        let j = clamp_pos(name_end(s, i), i + 1, s.len() as int);
        parse_compound(s, j, acc.push(PredV::TypeIs(lower_seq(s.subrange(i, j)))))
    } else {
        Err(SelectorError { reason: Reason::UnexpectedChar, position: i as usize })
    }
}

/// The rest of a selector after its first compound: whitespace alone joins
/// the next compound as a descendant, `>` as a child; trailing whitespace
/// ends the selector, a trailing combinator is an error.
pub open spec fn parse_sel_from(
    s: Seq<char>,
    i: int,
    head: CompoundV,
    tail: Seq<(Comb, CompoundV)>,
) -> Result<SelV, SelectorError>
    decreases s.len() - i,
{
    let j = clamp_pos(ws_end(s, i), i, s.len() as int);
    if j >= s.len() {
        Ok(SelV { head, tail })
    } else if s[j] == '>' {
        let k = clamp_pos(ws_end(s, j + 1), j + 1, s.len() as int);
        if k >= s.len() {
            Err(SelectorError { reason: Reason::DanglingCombinator, position: j as usize })
        } else {
            match parse_compound(s, k, Seq::empty()) {
                Err(e) => Err(e),
                Ok((preds, end)) => parse_sel_from(
                    s,
                    clamp_pos(end, k + 1, s.len() as int),
                    head,
                    tail.push((Comb::Child, CompoundV { preds })),
                ),
            }
        }
    } else {
        match parse_compound(s, j, Seq::empty()) {
            Err(e) => Err(e),
            Ok((preds, end)) => parse_sel_from(
                s,
                clamp_pos(end, j + 1, s.len() as int),
                head,
                tail.push((Comb::Descendant, CompoundV { preds })),
            ),
        }
    }
}

/// The whole selector grammar. An all-whitespace selector is empty; anything
/// else is the first compound followed by combinator-joined compounds.
pub open spec fn spec_parse_selector(s: Seq<char>) -> Result<SelV, SelectorError> {
    let i = clamp_pos(ws_end(s, 0), 0, s.len() as int);
    if i >= s.len() {
        Err(SelectorError { reason: Reason::EmptySelector, position: 0 })
    } else {
        match parse_compound(s, i, Seq::empty()) {
            Err(e) => Err(e),
            Ok((preds, end)) => parse_sel_from(
                s,
                clamp_pos(end, i + 1, s.len() as int),
                CompoundV { preds },
                Seq::empty(),
            ),
        }
    }
}

/// Reads one compound starting at `start`, which must sit on a
/// non-whitespace, non-`>` character.
fn parse_compound_c(v: &Vec<char>, start: usize) -> (r: Result<(Vec<Pred>, usize), SelectorError>)
    requires
        start <= v@.len(),
    ensures
        (match r {
            Ok(pe) => parse_compound(v@, start as int, Seq::empty()) == Ok::<
                (Seq<PredV>, int),
                SelectorError,
            >((pe.0@.map_values(|p: Pred| p@), pe.1 as int)) && start <= pe.1 <= v@.len(),
            Err(e) => parse_compound(v@, start as int, Seq::empty()) == Err::<
                (Seq<PredV>, int),
                SelectorError,
            >(e),
        }),
{
    let mut preds: Vec<Pred> = Vec::new();
    let mut i: usize = start;
    proof {
        assert(preds@.map_values(|p: Pred| p@) =~= Seq::<PredV>::empty());
    }
    loop
        invariant
            start <= i <= v@.len(),
            parse_compound(v@, start as int, Seq::empty()) == parse_compound(
                v@,
                i as int,
                preds@.map_values(|p: Pred| p@),
            ),
        decreases v@.len() - i,
    {
        let ghost accv = preds@.map_values(|p: Pred| p@);
        if i >= v.len() || is_space_or_gt(v[i]) {
            if preds.len() == 0 {
                return Err(SelectorError { reason: Reason::UnexpectedChar, position: i });
            }
            return Ok((preds, i));
        }
        let c = v[i];
        if c == '#' || c == '.' {
            let j = clamp_c(name_end_c(v, i + 1), i + 1, v.len());
            if j == i + 1 {
                return Err(SelectorError { reason: Reason::MissingName, position: i });
            }
            let name = sub_chars(v, i + 1, j);
            let ns = chars_to_string(&name);
            let p = if c == '#' {
                Pred::HasId(ns)
            } else {
                Pred::HasClass(ns)
            };
            proof {
                assert(preds@.push(p).map_values(|q: Pred| q@) =~= accv.push(p@));
            }
            preds.push(p);
            i = j;
        } else if c == '[' {
            let j = clamp_c(name_end_c(v, i + 1), i + 1, v.len());
            if j == i + 1 {
                return Err(SelectorError { reason: Reason::MissingName, position: i });
            }
            let raw = sub_chars(v, i + 1, j);
            let low = lower_chars(&raw);
            let name = chars_to_string(&low);
            if j >= v.len() {
                return Err(SelectorError { reason: Reason::UnclosedBracket, position: i });
            }
            if v[j] == ']' {
                let p = Pred::HasAttr(name);
                proof {
                    assert(preds@.push(p).map_values(|q: Pred| q@) =~= accv.push(p@));
                }
                preds.push(p);
                i = j + 1;
            } else if v[j] == '=' {
                let k = clamp_c(char_end_c(v, j + 1, ']'), j + 1, v.len());
                if k >= v.len() {
                    return Err(SelectorError { reason: Reason::UnclosedBracket, position: i });
                }
                let value = sub_chars(v, j + 1, k);
                let p = Pred::AttrEquals(name, chars_to_string(&value));
                proof {
                    assert(preds@.push(p).map_values(|q: Pred| q@) =~= accv.push(p@));
                }
                preds.push(p);
                i = k + 1;
            } else {
                return Err(SelectorError { reason: Reason::UnclosedBracket, position: i });
            }
        } else if is_name_char_c(c) {
            let j = clamp_c(name_end_c(v, i), i + 1, v.len());
            let raw = sub_chars(v, i, j);
            let low = lower_chars(&raw);
            let p = Pred::TypeIs(chars_to_string(&low));
            proof {
                assert(preds@.push(p).map_values(|q: Pred| q@) =~= accv.push(p@));
            }
            preds.push(p);
            i = j;
        } else {
            return Err(SelectorError { reason: Reason::UnexpectedChar, position: i });
        }
    }
}

/// A compound that starts at or before a final `>` (one followed only by
/// whitespace) can never read past it: brackets would need a `]` beyond it,
/// names stop at it.
proof fn lemma_compound_stops_before(s: Seq<char>, i: int, acc: Seq<PredV>, j: int)
    requires
        0 <= i <= j < s.len(),
        s[j] == '>',
        ws_end(s, j + 1) >= s.len(),
    ensures
        parse_compound(s, i, acc) matches Ok(pe) ==> i <= pe.1 <= j,
    decreases s.len() - i,
{
    lemma_ws_end_first(s, j + 1);
    assert(!is_space('>'));
    if i >= s.len() || is_space(s[i]) || s[i] == '>' {
    } else if s[i] == '#' || s[i] == '.' {
        lemma_name_end_first(s, i + 1);
        let jn = clamp_pos(name_end(s, i + 1), i + 1, s.len() as int);
        assert(!is_name_char('>'));
        assert(jn <= j);
        if jn != i + 1 {
            let name = s.subrange(i + 1, jn);
            let p = if s[i] == '#' {
                PredV::HasId(name)
            } else {
                PredV::HasClass(name)
            };
            lemma_compound_stops_before(s, jn, acc.push(p), j);
        }
    } else if s[i] == '[' {
        lemma_name_end_first(s, i + 1);
        let jn = clamp_pos(name_end(s, i + 1), i + 1, s.len() as int);
        assert(!is_name_char('>'));
        assert(jn <= j);
        if jn != i + 1 && jn < s.len() {
            let name = lower_seq(s.subrange(i + 1, jn));
            if s[jn] == ']' {
                assert(jn < j);
                lemma_compound_stops_before(s, jn + 1, acc.push(PredV::HasAttr(name)), j);
            } else if s[jn] == '=' {
                lemma_char_end_first(s, jn + 1, ']');
                let k = clamp_pos(char_end(s, jn + 1, ']'), jn + 1, s.len() as int);
                if k < s.len() {
                    assert(s[k] == ']');
                    assert(k != j);
                    if k > j {
                        assert(is_space(s[k]));
                        assert(false);
                    }
                    lemma_compound_stops_before(
                        s,
                        k + 1,
                        acc.push(PredV::AttrEquals(name, s.subrange(jn + 1, k))),
                        j,
                    );
                }
            }
        }
    } else if is_name_char(s[i]) {
        lemma_name_end_first(s, i);
        let jn = clamp_pos(name_end(s, i), i + 1, s.len() as int);
        assert(!is_name_char('>'));
        assert(i < j);
        assert(jn <= j);
        lemma_compound_stops_before(
            s,
            jn,
            acc.push(PredV::TypeIs(lower_seq(s.subrange(i, jn)))),
            j,
        );
    }
}

/// The combinator loop fails on input whose last meaningful character is a
/// final `>`: reaching it as a combinator leaves nothing to its right.
proof fn lemma_sel_from_trailing(
    s: Seq<char>,
    i: int,
    head: CompoundV,
    tail: Seq<(Comb, CompoundV)>,
    j: int,
)
    requires
        0 <= i <= j < s.len(),
        s[j] == '>',
        ws_end(s, j + 1) >= s.len(),
    ensures
        parse_sel_from(s, i, head, tail) is Err,
    decreases s.len() - i,
{
    lemma_ws_end_first(s, i);
    lemma_ws_end_first(s, j + 1);
    assert(!is_space('>'));
    let jw = clamp_pos(ws_end(s, i), i, s.len() as int);
    assert(jw <= j);
    if s[jw] == '>' {
        lemma_ws_end_first(s, jw + 1);
        let k = clamp_pos(ws_end(s, jw + 1), jw + 1, s.len() as int);
        if jw == j {
            assert(k >= s.len());
        } else {
            assert(k <= j);
            match parse_compound(s, k, Seq::empty()) {
                Err(_) => {},
                Ok((preds, end)) => {
                    assert(k < j);
                    lemma_compound_stops_before(s, k, Seq::empty(), j);
                    let p = clamp_pos(end, k + 1, s.len() as int);
                    assert(p <= j);
                    lemma_sel_from_trailing(
                        s,
                        p,
                        head,
                        tail.push((Comb::Child, CompoundV { preds })),
                        j,
                    );
                },
            }
        }
    } else {
        assert(jw < j);
        match parse_compound(s, jw, Seq::empty()) {
            Err(_) => {},
            Ok((preds, end)) => {
                lemma_compound_stops_before(s, jw, Seq::empty(), j);
                let p = clamp_pos(end, jw + 1, s.len() as int);
                assert(p <= j);
                lemma_sel_from_trailing(
                    s,
                    p,
                    head,
                    tail.push((Comb::Descendant, CompoundV { preds })),
                    j,
                );
            },
        }
    }
}

/// A selector whose text ends in a child combinator — a `>` followed by
/// nothing but whitespace — is always rejected.
pub proof fn lemma_trailing_combinator_rejected(s: Seq<char>, j: int)
    requires
        0 <= j < s.len(),
        s[j] == '>',
        ws_end(s, j + 1) >= s.len(),
    ensures
        spec_parse_selector(s) is Err,
{
    lemma_ws_end_first(s, 0);
    assert(!is_space('>'));
    let i0 = clamp_pos(ws_end(s, 0), 0, s.len() as int);
    assert(i0 <= j);
    match parse_compound(s, i0, Seq::empty()) {
        Err(_) => {},
        Ok((preds, end)) => {
            assert(i0 < j);
            lemma_compound_stops_before(s, i0, Seq::empty(), j);
            let p = clamp_pos(end, i0 + 1, s.len() as int);
            assert(p <= j);
            lemma_sel_from_trailing(s, p, CompoundV { preds }, Seq::empty(), j);
        },
    }
}

fn is_space_or_gt(c: char) -> (b: bool)
    ensures
        b == (is_space(c) || c == '>'),
{
    crate::text::is_space_c(c) || c == '>'
}

impl Selector {
    /// Compiles selector text, or reports the reason and position of the
    /// first offence.
    pub fn parse(text: &str) -> (r: Result<Selector, SelectorError>)
        ensures
            (match r {
                Ok(sel) => spec_parse_selector(text@) == Ok::<SelV, SelectorError>(sel@),
                Err(e) => spec_parse_selector(text@) == Err::<SelV, SelectorError>(e),
            }),
            r is Ok <==> spec_parse_selector(text@) is Ok,
    {
        let v = str_to_chars(text);
        let start = clamp_c(ws_end_c(&v, 0), 0, v.len());
        if start >= v.len() {
            return Err(SelectorError { reason: Reason::EmptySelector, position: 0 });
        }
        let (hp, hend) = match parse_compound_c(&v, start) {
            Ok(pe) => pe,
            Err(e) => {
                return Err(e);
            },
        };
        let ghost hpv = hp@.map_values(|p: Pred| p@);
        let head = Compound { preds: hp };
        let mut tail: Vec<(Comb, Compound)> = Vec::new();
        let mut i: usize = clamp_c(hend, start + 1, v.len());
        proof {
            assert(head@.preds == hpv);
            assert(tail@.map_values(|t: (Comb, Compound)| (t.0, t.1@)) =~= Seq::<
                (Comb, CompoundV),
            >::empty());
            assert(head@ =~= CompoundV { preds: hpv });
        }
        loop
            invariant
                i <= v@.len(),
                parse_sel_from(
                    v@,
                    i as int,
                    head@,
                    tail@.map_values(|t: (Comb, Compound)| (t.0, t.1@)),
                ) == spec_parse_selector(text@),
            decreases v@.len() - i,
        {
            let ghost tailv = tail@.map_values(|t: (Comb, Compound)| (t.0, t.1@));
            let j = clamp_c(ws_end_c(&v, i), i, v.len());
            if j >= v.len() {
                return Ok(Selector { head, tail });
            }
            if v[j] == '>' {
                let k = clamp_c(ws_end_c(&v, j + 1), j + 1, v.len());
                if k >= v.len() {
                    return Err(
                        SelectorError { reason: Reason::DanglingCombinator, position: j },
                    );
                }
                let (preds, end) = match parse_compound_c(&v, k) {
                    Ok(pe) => pe,
                    Err(e) => {
                        return Err(e);
                    },
                };
                let step = (Comb::Child, Compound { preds });
                proof {
                    assert(tail@.push(step).map_values(|t: (Comb, Compound)| (t.0, t.1@))
                        =~= tailv.push((Comb::Child, step.1@)));
                }
                tail.push(step);
                i = clamp_c(end, k + 1, v.len());
            } else {
                let (preds, end) = match parse_compound_c(&v, j) {
                    Ok(pe) => pe,
                    Err(e) => {
                        return Err(e);
                    },
                };
                let step = (Comb::Descendant, Compound { preds });
                proof {
                    assert(tail@.push(step).map_values(|t: (Comb, Compound)| (t.0, t.1@))
                        =~= tailv.push((Comb::Descendant, step.1@)));
                }
                tail.push(step);
                i = clamp_c(end, j + 1, v.len());
            }
        }
    }
}

} // verus!
