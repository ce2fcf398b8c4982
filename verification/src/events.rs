//! The tokens of a document, and how they are had from the XML decoder.

use vstd::prelude::*;
use xml::common::Position;
use xml::reader::XmlEvent;
use crate::error::{DecodeError, DecodeErrorView};

verus! {

/// The models of the items of `s`, in order.
pub open spec fn views<T: View>(s: Seq<T>) -> Seq<T::V> {
    s.map_values(|t: T| t@)
}

/// One attribute of an element: its local name and its value.
#[derive(Debug, PartialEq, Eq, Clone)]
pub struct Attribute {
    pub name: String,
    pub value: String,
}

/// The model of an [`Attribute`].
pub struct AttributeView {
    pub name: Seq<char>,
    pub value: Seq<char>,
}

impl View for Attribute {
    type V = AttributeView;

    open spec fn view(&self) -> AttributeView {
        AttributeView { name: self.name@, value: self.value@ }
    }
}

/// One step of a document, as the decoder hands it out.
#[derive(Debug, PartialEq, Eq, Clone)]
pub enum Token {
    /// An element opens.
    Start { name: String, attrs: Vec<Attribute> },
    /// An element closes.
    End { name: String },
    /// Character data between tags.
    Text(String),
    /// The document is complete. Nothing follows.
    EndDocument,
    /// The decoder gave up. Nothing follows.
    Invalid(DecodeError),
    /// Anything the reader has no use for: the declaration, comments, white space and the like.
    Other,
}

/// The model of a [`Token`].
pub enum TokenView {
    Start { name: Seq<char>, attrs: Seq<AttributeView> },
    End { name: Seq<char> },
    Text(Seq<char>),
    EndDocument,
    Invalid(DecodeErrorView),
    Other,
}

impl View for Token {
    type V = TokenView;

    open spec fn view(&self) -> TokenView {
        match self {
            Token::Start { name, attrs } => TokenView::Start {
                name: name@,
                attrs: views(attrs@),
            },
            Token::End { name } => TokenView::End { name: name@ },
            Token::Text(text) => TokenView::Text(text@),
            Token::EndDocument => TokenView::EndDocument,
            Token::Invalid(e) => TokenView::Invalid(e@),
            Token::Other => TokenView::Other,
        }
    }
}

impl TokenView {
    /// Whether the token ends a stream.
    pub open spec fn is_last(self) -> bool {
        self is EndDocument || self is Invalid
    }
}

impl Token {
    /// Whether the token ends a stream.
    pub fn is_last(&self) -> (r: bool)
        ensures
            r == self@.is_last(),
    {
        match self {
            Token::EndDocument => true,
            Token::Invalid(_) => true,
            _ => false,
        }
    }
}

/// A decoder of the `xml` crate, an `xml::reader::EventReader`, at work on a document held in
/// memory. The verifier does not look inside: all that it knows of a stream is what [`open`]
/// and [`pull`] say of [`upcoming`], and those two are believed, not proved.
#[verifier::external_body]
pub struct EventStream<'a> {
    reader: xml::reader::EventReader<&'a [u8]>,
}

/// The tokens that a stream has yet to hand out: what its decoder returns call after call
/// from the state it is in, up to and including the first `EndDocument` or error. The
/// decoder reads nothing but its document, which is finite, so these are finitely many and
/// the state decides them.
pub uninterp spec fn upcoming(stream: EventStream) -> Seq<TokenView>;

/// The tokens that a decoder with the default settings hands out for the document that
/// `bytes` holds, up to and including the first `EndDocument` or error.
pub uninterp spec fn document_tokens(bytes: Seq<u8>) -> Seq<TokenView>;

/// Calls `xml::reader::EventReader::new` on a byte slice. Believed of it: nothing is read
/// yet, so all of the document's tokens are still to come.
#[verifier::external_body]
fn open<'a>(bytes: &'a [u8]) -> (stream: EventStream<'a>)
    ensures
        upcoming(stream) == document_tokens(bytes@),
{
    EventStream { reader: xml::reader::EventReader::new(bytes) }
}

/// Calls `xml::reader::EventReader::next` and turns its event into a [`Token`]: the local
/// name of an element, the local names and values of its attributes, character data, and
/// of an error its position and message. Believed of it: the decoder hands out the first of
/// the tokens to come; after `EndDocument` or an error it stays where it is and hands out
/// the same again, so nothing follows either; any other token is consumed.
#[verifier::external_body]
fn pull(stream: &mut EventStream) -> (token: Token)
    ensures
        upcoming(*old(stream)).len() > 0,
        token@ == upcoming(*old(stream))[0],
        token@.is_last() ==> upcoming(*old(stream)).len() == 1,
        upcoming(*final(stream)) == if token@.is_last() {
            upcoming(*old(stream))
        } else {
            upcoming(*old(stream)).skip(1)
        },
{
    match stream.reader.next() {
        Ok(XmlEvent::StartElement { name, attributes, .. }) => Token::Start {
            name: name.local_name,
            attrs: attributes.into_iter().map(|a| Attribute { name: a.name.local_name, value: a.value }).collect(),
        },
        Ok(XmlEvent::EndElement { name }) => Token::End { name: name.local_name },
        Ok(XmlEvent::Characters(text)) => Token::Text(text),
        Ok(XmlEvent::EndDocument) => Token::EndDocument,
        Ok(_) => Token::Other,
        Err(e) => Token::Invalid(DecodeError { row: e.position().row, column: e.position().column, message: e.msg().to_string() }),
    }
}

/// Decodes the document in `bytes` to its end and returns its tokens. The last of them is
/// [`Token::EndDocument`] or [`Token::Invalid`].
pub fn read_tokens(bytes: &[u8]) -> (tokens: Vec<Token>)
    ensures
        views(tokens@) == document_tokens(bytes@),
        tokens@.len() > 0,
        tokens@.last()@.is_last(),
{
    let mut stream = open(bytes);
    let mut tokens: Vec<Token> = Vec::new();
    loop
        invariant_except_break
            views(tokens@) + upcoming(stream) == document_tokens(bytes@),
        ensures
            views(tokens@) == document_tokens(bytes@),
            tokens@.len() > 0,
            tokens@.last()@.is_last(),
        decreases upcoming(stream).len(),
    {
        let ghost before = upcoming(stream);
        let ghost read = views(tokens@);
        let token = pull(&mut stream);
        let last = token.is_last();
        tokens.push(token);
        proof {
            assert(views(tokens@) =~= read.push(before[0]));
            if last {
                assert(before =~= seq![before[0]]);
                assert(read + before =~= read.push(before[0]));
            } else {
                assert(views(tokens@) + upcoming(stream) =~= read + before);
            }
        }
        if last {
            break;
        }
    }
    tokens
}

} // verus!
