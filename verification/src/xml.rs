//! A tolerant XML tokenizer over `quick_xml`.
//!
//! The two scanning passes of the pipeline both consume a flat stream of
//! owned tokens.  `quick_xml` does the actual parsing behind trusted
//! wrappers; everything downstream of [`tokenize`] is verified against the
//! abstract token stream [`xml_token_seq`].

use vstd::prelude::*;
use quick_xml::events::Event;

verus! {

/// The view of one XML attribute: key and raw (still escaped) value.
pub struct AttrV {
    pub key: Seq<char>,
    pub value: Seq<char>,
}

/// One XML attribute as the tokenizer hands it out; the value is kept
/// verbatim as it stood in the source, not unescaped.
pub struct Attr {
    pub key: Vec<char>,
    pub value: Vec<char>,
}

impl View for Attr {
    type V = AttrV;

    open spec fn view(&self) -> AttrV {
        AttrV { key: self.key@, value: self.value@ }
    }
}

/// The view of one token of the event stream.
pub enum TokenV {
    Start { name: Seq<char>, attrs: Seq<AttrV> },
    End { name: Seq<char> },
    Text { text: Seq<char> },
    Other,
    Eof,
    Error,
}

/// One token of the event stream: an element start with its attributes, an
/// element end, a run of unescaped character data, any other markup the
/// pipeline ignores, the end of the document, or a tokenizer error.
pub enum Token {
    Start { name: Vec<char>, attrs: Vec<Attr> },
    End { name: Vec<char> },
    Text { text: Vec<char> },
    Other,
    Eof,
    Error,
}

impl View for Token {
    type V = TokenV;

    open spec fn view(&self) -> TokenV {
        match self {
            Token::Start { name, attrs } => TokenV::Start {
                name: name@,
                attrs: attrs@.map_values(|a: Attr| a@),
            },
            Token::End { name } => TokenV::End { name: name@ },
            Token::Text { text } => TokenV::Text { text: text@ },
            Token::Other => TokenV::Other,
            Token::Eof => TokenV::Eof,
            Token::Error => TokenV::Error,
        }
    }
}

pub open spec fn token_views(ts: Seq<Token>) -> Seq<TokenV> {
    ts.map_values(|t: Token| t@)
}

/// A token that ends the stream: end of document, or a malformed-markup
/// error that truncates the scan.
pub open spec fn is_terminal(t: TokenV) -> bool {
    t is Eof || t is Error
}

#[verifier::external_type_specification]
#[verifier::external_body]
#[verifier::reject_recursive_types(R)]
pub struct ExReader<R>(quick_xml::Reader<R>);

/// The stream of tokens that a freshly made reader yields for `doc`, with
/// text trimmed, cut just after its first terminal token.
pub uninterp spec fn xml_token_seq(doc: Seq<char>) -> Seq<TokenV>;

/// The tokens a reader has not yielded yet.
pub uninterp spec fn remaining_tokens(r: quick_xml::Reader<&[u8]>) -> Seq<TokenV>;

/// Relies on `quick_xml::Reader::from_str` and `Reader::trim_text`: a fresh
/// reader yields the token stream of `doc` (a function of `doc` alone), text
/// events trimmed; the stream ends with exactly one terminal token, either
/// `Eof` at end of input or `Error` where the markup is malformed.
#[verifier::external_body]
fn new_reader<'a>(doc: &'a str) -> (r: quick_xml::Reader<&'a [u8]>)
    ensures
        remaining_tokens(r) == xml_token_seq(doc@),
        remaining_tokens(r).len() > 0,
        is_terminal(remaining_tokens(r).last()),
        forall|i: int|
            0 <= i < remaining_tokens(r).len() - 1 ==> !is_terminal(#[trigger] remaining_tokens(r)[i]),
{
    let mut r = quick_xml::Reader::from_str(doc);
    r.trim_text(true);
    r
}

/// Relies on `quick_xml::Reader::read_event`: each call yields the next
/// event of the stream, converted to an owned token; once the stream is
/// exhausted the reader keeps answering `Eof`.
#[verifier::external_body]
fn next_token(r: &mut quick_xml::Reader<&[u8]>) -> (t: Token)
    ensures
        remaining_tokens(*old(r)).len() > 0 ==> {
            &&& t@ == remaining_tokens(*old(r)).first()
            &&& remaining_tokens(*final(r)) == remaining_tokens(*old(r)).drop_first()
        },
        remaining_tokens(*old(r)).len() == 0 ==> {
            &&& t@ == TokenV::Eof
            &&& remaining_tokens(*final(r)) == remaining_tokens(*old(r))
        },
{
    let f = |b: &[u8]| String::from_utf8_lossy(b).chars().collect();
    match r.read_event() {
        Ok(Event::Start(e)) => Token::Start {
            name: f(e.name().0),
            attrs: e.attributes().flatten().map(|a| Attr { key: f(a.key.0), value: f(&a.value) }).collect()
        },
        Ok(Event::End(e)) => Token::End { name: f(e.name().0) },
        Ok(Event::Text(e)) => Token::Text { text: e.unescape().unwrap_or_default().chars().collect() },
        Ok(Event::Eof) => Token::Eof,
        Ok(_) => Token::Other,
        Err(_) => Token::Error
    }
}

/// Scan a whole document into its token stream, terminal token included.
pub fn tokenize(doc: &str) -> (out: Vec<Token>)
    ensures
        token_views(out@) == xml_token_seq(doc@),
{
    let mut r = new_reader(doc);
    let ghost full = xml_token_seq(doc@);
    let mut out: Vec<Token> = Vec::new();
    loop
        invariant_except_break
            token_views(out@) + remaining_tokens(r) == full,
            token_views(out@).len() < full.len(),
            is_terminal(full.last()),
            forall|i: int| 0 <= i < full.len() - 1 ==> !is_terminal(#[trigger] full[i]),
        ensures
            token_views(out@) == full,
        decreases remaining_tokens(r).len(),
    {
        assert(remaining_tokens(r).len() > 0);
        assert(remaining_tokens(r).first() == full[out@.len() as int]);
        let t = next_token(&mut r);
        let done = match &t {
            Token::Eof => true,
            Token::Error => true,
            _ => false,
        };
        proof {
            assert(token_views(out@.push(t)) =~= token_views(out@).push(t@));
        }
        out.push(t);
        if done {
            proof {
                assert(is_terminal(full[out@.len() - 1]));
                assert(out@.len() == full.len());
                assert(token_views(out@) =~= full);
            }
            break;
        }
    }
    out
}

} // verus!
