//! The attribute/geometry extractor: a walk over one fragment's token
//! stream that harvests typed attribute events and position lists, and the
//! assembly of a feature record once the floating-point texts have been
//! resolved by the surrounding program.
//!
//! Element kinds are recognized by local-name suffix, independent of the
//! namespace prefix.  Text accumulates in a single buffer while one of the
//! recognized kinds is open; the buffer is cleared when that kind closes.
//! A generic value element inside an attribute needs no handling of its
//! own: its text is already captured by the enclosing attribute element's
//! accumulation.

use vstd::prelude::*;
use crate::xml::{Attr, AttrV, Token, TokenV, token_views, is_terminal};
use crate::text::{ends_with, ends_with_chars, append_chars, chars_of};
use crate::numbers::{split_ws, split_ws_chars};
use crate::segmenter::frag_views;

verus! {

pub open spec fn string_attr_suffix() -> Seq<char> {
    ":stringAttribute"@
}

pub open spec fn int_attr_suffix() -> Seq<char> {
    ":intAttribute"@
}

pub open spec fn double_attr_suffix() -> Seq<char> {
    ":doubleAttribute"@
}

pub open spec fn pos_list_suffix() -> Seq<char> {
    ":posList"@
}

/// The kind of one recognized attribute element.
#[derive(Clone, Copy, PartialEq, Eq, Structural)]
pub enum AttrKind {
    Text,
    Int,
    Double,
}

/// The view of one attribute event.
pub struct AttrEventV {
    pub kind: AttrKind,
    pub key: Seq<char>,
    pub text: Seq<char>,
}

/// One attribute event: a recognized attribute element closed, carrying the
/// property key that was current and the accumulated inner text.
pub struct AttrEvent {
    pub kind: AttrKind,
    pub key: Vec<char>,
    pub text: Vec<char>,
}

impl View for AttrEvent {
    type V = AttrEventV;

    open spec fn view(&self) -> AttrEventV {
        AttrEventV { kind: self.kind, key: self.key@, text: self.text@ }
    }
}

pub open spec fn event_views(evs: Seq<AttrEvent>) -> Seq<AttrEventV> {
    evs.map_values(|e: AttrEvent| e@)
}

pub open spec fn pos_views(pls: Seq<Vec<Vec<char>>>) -> Seq<Seq<Seq<char>>> {
    pls.map_values(|p: Vec<Vec<char>>| frag_views(p@))
}

/// The value of the last attribute literally named `name`, or the current
/// key where the tag has none.
pub open spec fn name_attr(attrs: Seq<AttrV>, cur: Seq<char>) -> Seq<char>
    decreases attrs.len(),
{
    if attrs.len() == 0 {
        cur
    } else {
        name_attr(
            attrs.drop_first(),
            if attrs.first().key == "name"@ { attrs.first().value } else { cur },
        )
    }
}

pub fn clone_chars(v: &Vec<char>) -> (r: Vec<char>)
    ensures
        r@ == v@,
{
    let mut out: Vec<char> = Vec::new();
    append_chars(&mut out, v);
    proof {
        assert(out@ =~= v@);
    }
    out
}

fn find_name_attr(attrs: &Vec<Attr>, cur: &Vec<char>, name_key: &Vec<char>) -> (r: Vec<char>)
    requires
        name_key@ == "name"@,
    ensures
        r@ == name_attr(attrs@.map_values(|a: Attr| a@), cur@),
{
    let ghost avs = attrs@.map_values(|a: Attr| a@);
    let mut out = clone_chars(cur);
    proof {
        assert(avs.skip(0) =~= avs);
    }
    let mut i: usize = 0;
    while i < attrs.len()
        invariant
            0 <= i <= attrs@.len(),
            avs == attrs@.map_values(|a: Attr| a@),
            avs.len() == attrs@.len(),
            name_key@ == "name"@,
            name_attr(avs, cur@) == name_attr(avs.skip(i as int), out@),
        decreases attrs@.len() - i,
    {
        proof {
            assert(avs.skip(i as int).first() == avs[i as int]);
            assert(avs.skip(i as int).drop_first() =~= avs.skip(i + 1));
            assert(avs[i as int] == attrs@[i as int]@);
        }
        if crate::feature::chars_eq(&attrs[i].key, name_key) {
            out = clone_chars(&attrs[i].value);
        }
        i += 1;
    }
    proof {
        assert(avs.skip(avs.len() as int).len() == 0);
    }
    out
}

/// The extractor's state: which recognized kind is open, the current
/// property key, the text buffer, the attribute events so far, and the
/// token lists of the position lists seen so far.
pub struct ExtState {
    pub in_str: bool,
    pub in_int: bool,
    pub in_dbl: bool,
    pub in_pos: bool,
    pub name: Seq<char>,
    pub value: Seq<char>,
    pub events: Seq<AttrEventV>,
    pub pos_lists: Seq<Seq<Seq<char>>>,
}

pub open spec fn ext_init() -> ExtState {
    ExtState {
        in_str: false,
        in_int: false,
        in_dbl: false,
        in_pos: false,
        name: Seq::empty(),
        value: Seq::empty(),
        events: Seq::empty(),
        pos_lists: Seq::empty(),
    }
}

/// One extractor step over one token.
pub open spec fn ext_step(st: ExtState, t: TokenV) -> ExtState {
    match t {
        TokenV::Start { name, attrs } => {
            if ends_with(name, string_attr_suffix()) {
                ExtState { in_str: true, name: name_attr(attrs, st.name), ..st }
            } else if ends_with(name, int_attr_suffix()) {
                ExtState { in_int: true, name: name_attr(attrs, st.name), ..st }
            } else if ends_with(name, double_attr_suffix()) {
                ExtState { in_dbl: true, name: name_attr(attrs, st.name), ..st }
            } else if ends_with(name, pos_list_suffix()) {
                ExtState { in_pos: true, value: Seq::empty(), ..st }
            } else {
                st
            }
        },
        TokenV::End { name } => {
            if ends_with(name, string_attr_suffix()) {
                ExtState {
                    in_str: false,
                    value: Seq::empty(),
                    events: st.events.push(AttrEventV { kind: AttrKind::Text, key: st.name, text: st.value }),
                    ..st
                }
            } else if ends_with(name, int_attr_suffix()) {
                ExtState {
                    in_int: false,
                    value: Seq::empty(),
                    events: st.events.push(AttrEventV { kind: AttrKind::Int, key: st.name, text: st.value }),
                    ..st
                }
            } else if ends_with(name, double_attr_suffix()) {
                ExtState {
                    in_dbl: false,
                    value: Seq::empty(),
                    events: st.events.push(AttrEventV { kind: AttrKind::Double, key: st.name, text: st.value }),
                    ..st
                }
            } else if ends_with(name, pos_list_suffix()) {
                ExtState {
                    in_pos: false,
                    value: Seq::empty(),
                    pos_lists: st.pos_lists.push(split_ws(st.value)),
                    ..st
                }
            } else {
                st
            }
        },
        TokenV::Text { text } => {
            if st.in_str || st.in_int || st.in_dbl || st.in_pos {
                ExtState { value: st.value + text, ..st }
            } else {
                st
            }
        },
        _ => st,
    }
}

/// Run the extractor over a token stream, stopping at the first terminal
/// token; whatever was gathered up to a failure point is kept.
pub open spec fn ext_run(st: ExtState, ts: Seq<TokenV>) -> ExtState
    decreases ts.len(),
{
    if ts.len() == 0 || is_terminal(ts.first()) {
        st
    } else {
        ext_run(ext_step(st, ts.first()), ts.drop_first())
    }
}

/// The view of a raw extraction result.
pub struct RawObjectV {
    pub events: Seq<AttrEventV>,
    pub pos_lists: Seq<Seq<Seq<char>>>,
}

/// What the first extraction pass gathers from one fragment: the attribute
/// events in document order, and one whitespace-split token list per
/// position list, in document order.
pub struct RawObject {
    pub events: Vec<AttrEvent>,
    pub pos_lists: Vec<Vec<Vec<char>>>,
}

impl View for RawObject {
    type V = RawObjectV;

    open spec fn view(&self) -> RawObjectV {
        RawObjectV { events: event_views(self.events@), pos_lists: pos_views(self.pos_lists@) }
    }
}

/// What a fragment's token stream extracts to.
pub open spec fn raw_object_of(ts: Seq<TokenV>) -> RawObjectV {
    let end = ext_run(ext_init(), ts);
    RawObjectV { events: end.events, pos_lists: end.pos_lists }
}

pub open spec fn ext_st(
    in_str: bool,
    in_int: bool,
    in_dbl: bool,
    in_pos: bool,
    name: Seq<char>,
    value: Seq<char>,
    events: Seq<AttrEventV>,
    pos_lists: Seq<Seq<Seq<char>>>,
) -> ExtState {
    ExtState { in_str, in_int, in_dbl, in_pos, name, value, events, pos_lists }
}

/// Walk one fragment's token stream and gather its attribute events and
/// position-list tokens.  A malformed fragment truncates the walk at its
/// error token, keeping what was gathered before it.
pub fn extract_raw(tokens: &Vec<Token>) -> (raw: RawObject)
    ensures
        raw@ == raw_object_of(token_views(tokens@)),
{
    let ghost tv = token_views(tokens@);
    let s_sfx = chars_of(":stringAttribute");
    let i_sfx = chars_of(":intAttribute");
    let d_sfx = chars_of(":doubleAttribute");
    let p_sfx = chars_of(":posList");
    let name_key = chars_of("name");
    let mut in_str: bool = false;
    let mut in_int: bool = false;
    let mut in_dbl: bool = false;
    let mut in_pos: bool = false;
    let mut name: Vec<char> = Vec::new();
    let mut value: Vec<char> = Vec::new();
    let mut events: Vec<AttrEvent> = Vec::new();
    let mut pos_lists: Vec<Vec<Vec<char>>> = Vec::new();
    proof {
        assert(tv.skip(0) =~= tv);
        assert(event_views(events@) =~= Seq::<AttrEventV>::empty());
        assert(pos_views(pos_lists@) =~= Seq::<Seq<Seq<char>>>::empty());
        assert(ext_st(in_str, in_int, in_dbl, in_pos, name@, value@, event_views(events@), pos_views(pos_lists@)) == ext_init());
    }
    let n = tokens.len();
    let mut i: usize = 0;
    while i < n
        invariant_except_break
            0 <= i <= n,
            n == tokens@.len(),
            tv == token_views(tokens@),
            s_sfx@ == string_attr_suffix(),
            i_sfx@ == int_attr_suffix(),
            d_sfx@ == double_attr_suffix(),
            p_sfx@ == pos_list_suffix(),
            name_key@ == "name"@,
            ext_run(ext_init(), tv) == ext_run(
                ext_st(in_str, in_int, in_dbl, in_pos, name@, value@, event_views(events@), pos_views(pos_lists@)),
                tv.skip(i as int),
            ),
        ensures
            event_views(events@) == ext_run(ext_init(), tv).events,
            pos_views(pos_lists@) == ext_run(ext_init(), tv).pos_lists,
        decreases n - i,
    {
        let ghost st_old = ext_st(in_str, in_int, in_dbl, in_pos, name@, value@, event_views(events@), pos_views(pos_lists@));
        proof {
            assert(tv.skip(i as int).len() == tv.len() - i);
            assert(tv.skip(i as int).first() == tv[i as int]);
            assert(tv.skip(i as int).drop_first() =~= tv.skip(i + 1));
            assert(tv[i as int] == tokens@[i as int]@);
        }
        match &tokens[i] {
            Token::Start { name: tag, attrs } => {
                if ends_with_chars(tag, &s_sfx) {
                    in_str = true;
                    name = find_name_attr(attrs, &name, &name_key);
                } else if ends_with_chars(tag, &i_sfx) {
                    in_int = true;
                    name = find_name_attr(attrs, &name, &name_key);
                } else if ends_with_chars(tag, &d_sfx) {
                    in_dbl = true;
                    name = find_name_attr(attrs, &name, &name_key);
                } else if ends_with_chars(tag, &p_sfx) {
                    in_pos = true;
                    value = Vec::new();
                }
            },
            Token::End { name: tag } => {
                if ends_with_chars(tag, &s_sfx) {
                    let key = clone_chars(&name);
                    events.push(AttrEvent { kind: AttrKind::Text, key, text: value });
                    value = Vec::new();
                    in_str = false;
                    proof {
                        assert(event_views(events@) =~= st_old.events.push(AttrEventV { kind: AttrKind::Text, key: st_old.name, text: st_old.value }));
                    }
                } else if ends_with_chars(tag, &i_sfx) {
                    let key = clone_chars(&name);
                    events.push(AttrEvent { kind: AttrKind::Int, key, text: value });
                    value = Vec::new();
                    in_int = false;
                    proof {
                        assert(event_views(events@) =~= st_old.events.push(AttrEventV { kind: AttrKind::Int, key: st_old.name, text: st_old.value }));
                    }
                } else if ends_with_chars(tag, &d_sfx) {
                    let key = clone_chars(&name);
                    events.push(AttrEvent { kind: AttrKind::Double, key, text: value });
                    value = Vec::new();
                    in_dbl = false;
                    proof {
                        assert(event_views(events@) =~= st_old.events.push(AttrEventV { kind: AttrKind::Double, key: st_old.name, text: st_old.value }));
                    }
                } else if ends_with_chars(tag, &p_sfx) {
                    let toks = split_ws_chars(&value);
                    pos_lists.push(toks);
                    value = Vec::new();
                    in_pos = false;
                    proof {
                        assert(pos_views(pos_lists@) =~= st_old.pos_lists.push(split_ws(st_old.value)));
                    }
                }
            },
            Token::Text { text } => {
                if in_str || in_int || in_dbl || in_pos {
                    append_chars(&mut value, text);
                }
            },
            Token::Other => {},
            Token::Eof => {
                break;
            },
            Token::Error => {
                break;
            },
        }
        proof {
            let stepped = ext_step(st_old, tv[i as int]);
            assert(name@ =~= stepped.name);
            assert(value@ =~= stepped.value);
            assert(event_views(events@) =~= stepped.events);
            assert(pos_views(pos_lists@) =~= stepped.pos_lists);
            assert(ext_st(in_str, in_int, in_dbl, in_pos, name@, value@, event_views(events@), pos_views(pos_lists@)) == stepped);
        }
        i += 1;
    }
    proof {
        if i == n {
            assert(tv.skip(n as int).len() == 0);
        }
    }
    RawObject { events, pos_lists }
}

} // verus!
