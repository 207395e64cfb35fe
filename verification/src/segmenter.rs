//! The object segmenter: a depth-tracking scan over the token stream of a
//! whole document that reconstructs each top-level element whose name ends
//! with the configured suffix as one self-contained XML fragment.

use vstd::prelude::*;
use crate::xml::{Attr, AttrV, Token, TokenV, token_views, is_terminal};
use crate::text::{ends_with, ends_with_chars, append_chars};

verus! {

/// The reconstructed text ` key="value"` of one attribute, value verbatim.
pub open spec fn attr_text(a: AttrV) -> Seq<char> {
    seq![' '] + a.key + seq!['=', '"'] + a.value + seq!['"']
}

/// The reconstructed text of an attribute list, in order.
pub open spec fn attrs_text(attrs: Seq<AttrV>) -> Seq<char>
    decreases attrs.len(),
{
    if attrs.len() == 0 {
        Seq::empty()
    } else {
        attrs_text(attrs.drop_last()) + attr_text(attrs.last())
    }
}

/// The reconstructed text `<name key="value" ...>` of a start tag.
pub open spec fn start_tag_text(name: Seq<char>, attrs: Seq<AttrV>) -> Seq<char> {
    seq!['<'] + name + attrs_text(attrs) + seq!['>']
}

/// The reconstructed text `</name>` of an end tag.
pub open spec fn end_tag_text(name: Seq<char>) -> Seq<char> {
    seq!['<', '/'] + name + seq!['>']
}

fn push_start_tag(acc: &mut Vec<char>, name: &Vec<char>, attrs: &Vec<Attr>)
    ensures
        final(acc)@ == old(acc)@ + start_tag_text(name@, attrs@.map_values(|a: Attr| a@)),
{
    let ghost avs = attrs@.map_values(|a: Attr| a@);
    acc.push('<');
    append_chars(acc, name);
    let mut i: usize = 0;
    while i < attrs.len()
        invariant
            0 <= i <= attrs.len(),
            avs == attrs@.map_values(|a: Attr| a@),
            acc@ == old(acc)@ + seq!['<'] + name@ + attrs_text(avs.take(i as int)),
        decreases attrs.len() - i,
    {
        acc.push(' ');
        append_chars(acc, &attrs[i].key);
        acc.push('=');
        acc.push('"');
        append_chars(acc, &attrs[i].value);
        acc.push('"');
        proof {
            assert(avs.take(i + 1).drop_last() =~= avs.take(i as int));
            assert(avs.take(i + 1).last() == avs[i as int]);
            assert(attrs_text(avs.take(i + 1)) == attrs_text(avs.take(i as int)) + attr_text(avs[i as int]));
            assert(acc@ =~= old(acc)@ + seq!['<'] + name@ + attrs_text(avs.take(i + 1)));
        }
        i += 1;
    }
    acc.push('>');
    proof {
        assert(avs.take(avs.len() as int) =~= avs);
        assert(acc@ =~= old(acc)@ + start_tag_text(name@, avs));
    }
}

fn push_end_tag(acc: &mut Vec<char>, name: &Vec<char>)
    ensures
        final(acc)@ == old(acc)@ + end_tag_text(name@),
{
    acc.push('<');
    acc.push('/');
    append_chars(acc, name);
    acc.push('>');
    proof {
        assert(acc@ =~= old(acc)@ + end_tag_text(name@));
    }
}

/// The scanner's state: whether a target object is open, the nesting depth
/// inside it, the fragment text accumulated so far, and the fragments
/// already produced.
pub struct SegState {
    pub inside: bool,
    pub depth: int,
    pub acc: Seq<char>,
    pub frags: Seq<Seq<char>>,
}

pub open spec fn seg_init() -> SegState {
    SegState { inside: false, depth: 0, acc: Seq::empty(), frags: Seq::empty() }
}

/// One scanner step.  A start tag whose name ends with the suffix begins a
/// capture only while no target object is open; inside an open object it is
/// an ordinary descendant and only deepens the nesting.  An end tag at depth
/// one completes the fragment.
pub open spec fn seg_step(st: SegState, t: TokenV, suffix: Seq<char>) -> SegState {
    match t {
        TokenV::Start { name, attrs } => {
            if !st.inside && ends_with(name, suffix) {
                SegState { inside: true, depth: 1, acc: start_tag_text(name, attrs), frags: st.frags }
            } else if st.inside {
                SegState { depth: st.depth + 1, acc: st.acc + start_tag_text(name, attrs), ..st }
            } else {
                st
            }
        },
        TokenV::End { name } => {
            if st.inside {
                let done = st.acc + end_tag_text(name);
                if st.depth == 1 {
                    SegState { inside: false, depth: 0, acc: Seq::empty(), frags: st.frags.push(done) }
                } else {
                    SegState { depth: st.depth - 1, acc: done, ..st }
                }
            } else {
                st
            }
        },
        TokenV::Text { text } => {
            if st.inside {
                SegState { acc: st.acc + text, ..st }
            } else {
                st
            }
        },
        _ => st,
    }
}

/// Run the scanner over a token stream, stopping at the first terminal
/// token (end of document, or the point where the markup broke).
pub open spec fn seg_run(st: SegState, ts: Seq<TokenV>, suffix: Seq<char>) -> SegState
    decreases ts.len(),
{
    if ts.len() == 0 || is_terminal(ts.first()) {
        st
    } else {
        seg_run(seg_step(st, ts.first(), suffix), ts.drop_first(), suffix)
    }
}

/// The fragments a token stream yields: one per completed top-level object,
/// in document order.
pub open spec fn fragments_of(ts: Seq<TokenV>, suffix: Seq<char>) -> Seq<Seq<char>> {
    seg_run(seg_init(), ts, suffix).frags
}

pub open spec fn seg_st(inside: bool, depth: int, acc: Seq<char>, frags: Seq<Seq<char>>) -> SegState {
    SegState { inside, depth, acc, frags }
}

pub open spec fn frag_views(fs: Seq<Vec<char>>) -> Seq<Seq<char>> {
    fs.map_values(|f: Vec<char>| f@)
}

/// Scan a token stream and reconstruct one fragment per top-level object
/// whose element name ends with `suffix`.
pub fn segment(tokens: &Vec<Token>, suffix: &Vec<char>) -> (frags: Vec<Vec<char>>)
    requires
        tokens@.len() < usize::MAX,
    ensures
        frag_views(frags@) == fragments_of(token_views(tokens@), suffix@),
{
    let ghost tv = token_views(tokens@);
    let mut inside: bool = false;
    let mut depth: usize = 0;
    let mut acc: Vec<char> = Vec::new();
    let mut frags: Vec<Vec<char>> = Vec::new();
    let n = tokens.len();
    let mut i: usize = 0;
    proof {
        assert(tv.skip(0) =~= tv);
        assert(frag_views(frags@) =~= Seq::<Seq<char>>::empty());
        assert(seg_st(inside, depth as int, acc@, frag_views(frags@)) == seg_init());
    }
    while i < n
        invariant_except_break
            0 <= i <= n,
            n == tokens@.len() < usize::MAX,
            tv == token_views(tokens@),
            inside ==> depth >= 1,
            depth <= i,
            seg_run(seg_init(), tv, suffix@) == seg_run(
                seg_st(inside, depth as int, acc@, frag_views(frags@)),
                tv.skip(i as int),
                suffix@,
            ),
        ensures
            frag_views(frags@) == fragments_of(tv, suffix@),
        decreases n - i,
    {
        let ghost st_old = seg_st(inside, depth as int, acc@, frag_views(frags@));
        proof {
            assert(tv.skip(i as int).len() == tv.len() - i);
            assert(tv.skip(i as int).first() == tv[i as int]);
            assert(tv.skip(i as int).drop_first() =~= tv.skip(i + 1));
            assert(tv[i as int] == tokens@[i as int]@);
        }
        match &tokens[i] {
            Token::Start { name, attrs } => {
                if !inside && ends_with_chars(name, suffix) {
                    inside = true;
                    depth = 1;
                    acc = Vec::new();
                    push_start_tag(&mut acc, name, attrs);
                } else if inside {
                    depth = depth + 1;
                    push_start_tag(&mut acc, name, attrs);
                }
            },
            Token::End { name } => {
                if inside {
                    push_end_tag(&mut acc, name);
                    if depth == 1 {
                        frags.push(acc);
                        acc = Vec::new();
                        inside = false;
                        depth = 0;
                        proof {
                            assert(frag_views(frags@) =~= st_old.frags.push(st_old.acc + end_tag_text(name@)));
                        }
                    } else {
                        depth = depth - 1;
                    }
                }
            },
            Token::Text { text } => {
                if inside {
                    append_chars(&mut acc, text);
                }
            },
            Token::Other => {},
            Token::Eof => {
                break;
            },
            Token::Error => {
                break;
            },
        }
        proof {
            let stepped = seg_step(st_old, tv[i as int], suffix@);
            assert(acc@ =~= stepped.acc);
            assert(frag_views(frags@) =~= stepped.frags);
            assert(seg_st(inside, depth as int, acc@, frag_views(frags@)) == stepped);
        }
        i += 1;
    }
    proof {
        if i == n {
            assert(tv.skip(n as int).len() == 0);
        }
    }
    frags
}

/// Law: an element whose name also ends with the suffix, nested inside an
/// already-open capture, does not end the capture early and does not start
/// a new one.  The four tokens below close exactly one fragment — the
/// depth counter balances at zero exactly once, on the outer end tag — and
/// the fragment holds all four reconstructed tags.
pub proof fn lemma_nested_same_name(
    st: SegState,
    n1: Seq<char>,
    a1: Seq<AttrV>,
    n2: Seq<char>,
    a2: Seq<AttrV>,
    suffix: Seq<char>,
)
    requires
        !st.inside,
        ends_with(n1, suffix),
        ends_with(n2, suffix),
    ensures
        ({
            let ts = seq![
                TokenV::Start { name: n1, attrs: a1 },
                TokenV::Start { name: n2, attrs: a2 },
                TokenV::End { name: n2 },
                TokenV::End { name: n1 },
            ];
            let end = seg_run(st, ts, suffix);
            &&& !end.inside
            &&& end.frags == st.frags.push(
                start_tag_text(n1, a1) + start_tag_text(n2, a2) + end_tag_text(n2) + end_tag_text(
                    n1,
                ),
            )
        }),
{
    let t1 = TokenV::Start { name: n1, attrs: a1 };
    let t2 = TokenV::Start { name: n2, attrs: a2 };
    let t3 = TokenV::End { name: n2 };
    let t4 = TokenV::End { name: n1 };
    let ts = seq![t1, t2, t3, t4];
    let s1 = seg_step(st, t1, suffix);
    assert(s1.inside && s1.depth == 1 && s1.frags == st.frags);
    let s2 = seg_step(s1, t2, suffix);
    assert(s2.inside && s2.depth == 2 && s2.frags == st.frags);
    let s3 = seg_step(s2, t3, suffix);
    assert(s3.inside && s3.depth == 1 && s3.frags == st.frags);
    let s4 = seg_step(s3, t4, suffix);
    assert(!s4.inside);
    assert(ts.first() == t1);
    assert(ts.drop_first() =~= seq![t2, t3, t4]);
    assert(seq![t2, t3, t4].drop_first() =~= seq![t3, t4]);
    assert(seq![t3, t4].drop_first() =~= seq![t4]);
    assert(seq![t4].drop_first() =~= Seq::<TokenV>::empty());
    assert(seg_run(st, ts, suffix) == seg_run(s1, seq![t2, t3, t4], suffix));
    assert(seg_run(s1, seq![t2, t3, t4], suffix) == seg_run(s2, seq![t3, t4], suffix));
    assert(seg_run(s2, seq![t3, t4], suffix) == seg_run(s3, seq![t4], suffix));
    assert(seg_run(s3, seq![t4], suffix) == seg_run(s4, Seq::<TokenV>::empty(), suffix));
    assert(seg_run(st, ts, suffix) == s4);
    assert(s4.frags.last() =~= start_tag_text(n1, a1) + start_tag_text(n2, a2) + end_tag_text(n2)
        + end_tag_text(n1));
    assert(s4.frags =~= st.frags.push(
        start_tag_text(n1, a1) + start_tag_text(n2, a2) + end_tag_text(n2) + end_tag_text(n1),
    ));
}

} // verus!
