//! XML as a stream of tokens, read by quick-xml.

use crate::text::opt_view;
use quick_xml::events::Event;
use vstd::prelude::*;

verus! {

/// The reader of the quick-xml crate.
#[verifier::external_type_specification]
#[verifier::external_body]
#[verifier::reject_recursive_types(R)]
pub struct ExReader<R>(quick_xml::reader::Reader<R>);

/// A piece of a document. `B` is the type of tag names, which are bytes, and `S`
/// that of texts.
#[derive(Debug)]
pub enum XmlToken<B = Vec<u8>, S = String> {
    /// An opening tag.
    Start(B),
    /// A closing tag.
    End(B),
    /// Text between tags, trimmed and unescaped; `None` if it cannot be.
    Text(Option<S>),
    /// Anything else.
    Other,
    /// The end of the document.
    Eof,
    /// What is no XML. Nothing is read behind it.
    Bad,
}

impl View for XmlToken<Vec<u8>, String> {
    type V = XmlToken<Seq<u8>, Seq<char>>;

    open spec fn view(&self) -> XmlToken<Seq<u8>, Seq<char>> {
        match *self {
            XmlToken::Start(n) => XmlToken::Start(n@),
            XmlToken::End(n) => XmlToken::End(n@),
            XmlToken::Text(t) => XmlToken::Text(opt_view(t)),
            XmlToken::Other => XmlToken::Other,
            XmlToken::Eof => XmlToken::Eof,
            XmlToken::Bad => XmlToken::Bad,
        }
    }
}

impl<B, S> XmlToken<B, S> {
    /// True of the token behind which nothing is read.
    pub open spec fn is_last(self) -> bool {
        self is Eof || self is Bad
    }
}

/// The tokens of a document, up to its end or the first place that is no XML.
pub uninterp spec fn xml_tokens(text: Seq<char>) -> Seq<XmlToken<Seq<u8>, Seq<char>>>;

/// The tokens that a reader has yet to give, up to the last.
pub uninterp spec fn xml_pending(r: quick_xml::reader::Reader<&[u8]>) -> Seq<
    XmlToken<Seq<u8>, Seq<char>>,
>;

/// True of a sequence that ends with its only last token.
pub open spec fn ends_once(tokens: Seq<XmlToken<Seq<u8>, Seq<char>>>) -> bool {
    &&& tokens.len() > 0
    &&& forall|i: int| 0 <= i < tokens.len() ==> ((#[trigger] tokens[i]).is_last() <==> i == tokens.len() - 1)
}

/// `quick_xml::Reader::from_str` with `trim_text(true)`: a reader at the start
/// of the document. Its tokens are a function of the text, named `xml_tokens`;
/// a document is finite, so they come to an end.
#[verifier::external_body]
fn open_xml<'a>(text: &'a str) -> (r: quick_xml::reader::Reader<&'a [u8]>)
    ensures
        xml_pending(r) == xml_tokens(text@),
        ends_once(xml_pending(r)),
{
    let mut reader = quick_xml::reader::Reader::from_str(text);
    reader.config_mut().trim_text(true);
    reader
}

/// `quick_xml::Reader::read_event`: takes the next token off the reader. The
/// bytes of a tag's name are those of `name`, a text is what
/// `BytesText::unescape` makes of it. Nothing is said of the reader behind the last
/// token.
#[verifier::external_body]
fn next_token(reader: &mut quick_xml::reader::Reader<&[u8]>) -> (r: XmlToken)
    requires
        xml_pending(*old(reader)).len() > 0,
    ensures
        r@ == xml_pending(*old(reader))[0],
        !r@.is_last() ==> xml_pending(*final(reader)) == xml_pending(*old(reader)).drop_first(),
{
    match reader.read_event() {
        Ok(Event::Start(e)) => XmlToken::Start(e.name().as_ref().to_vec()),
        Ok(Event::End(e)) => XmlToken::End(e.name().as_ref().to_vec()),
        Ok(Event::Text(t)) => XmlToken::Text(t.unescape().ok().map(|s| s.into_owned())),
        Ok(Event::Eof) => XmlToken::Eof,
        Ok(_) => XmlToken::Other,
        Err(_) => XmlToken::Bad,
    }
}

/// The views of a list of tokens.
pub open spec fn token_views(v: Seq<XmlToken>) -> Seq<XmlToken<Seq<u8>, Seq<char>>> {
    Seq::new(v.len(), |i: int| v[i]@)
}

/// The tokens of a document.
pub fn read_tokens(text: &str) -> (r: Vec<XmlToken>)
    ensures
        token_views(r@) == xml_tokens(text@),
{
    let mut reader = open_xml(text);
    let ghost all = xml_tokens(text@);
    let mut out: Vec<XmlToken> = Vec::new();
    assert(all.skip(0) =~= all);
    loop
        invariant
            all == xml_tokens(text@),
            ends_once(all),
            out@.len() < all.len(),
            xml_pending(reader) == all.skip(out@.len() as int),
            token_views(out@) == all.take(out@.len() as int),
        decreases all.len() - out@.len(),
    {
        let ghost n = out@.len() as int;
        let token = next_token(&mut reader);
        let done = match &token {
            XmlToken::Eof | XmlToken::Bad => true,
            _ => false,
        };
        assert(token@ == all[n]);
        assert(token@.is_last() == done);
        let ghost before = out@;
        out.push(token);
        proof {
            assert(all.skip(n).drop_first() =~= all.skip(n + 1));
            assert forall|i: int| 0 <= i < n + 1 implies #[trigger] token_views(out@)[i] == all[i] by {
                if i < n {
                    assert(token_views(before)[i] == all.take(n)[i]);
                }
            }
            assert(token_views(out@) =~= all.take(n + 1));
        }
        if done {
            assert(all.take(n + 1) =~= all);
            return out;
        }
    }
}

/// The index of the last colon in a tag's name, or -1.
pub open spec fn last_colon(qname: Seq<u8>) -> int
    decreases qname.len(),
{
    if qname.len() == 0 {
        -1
    } else if qname.last() == 58 {
        qname.len() - 1
    } else {
        last_colon(qname.drop_last())
    }
}

/// What follows the last colon of a tag's name; all of it without one.
pub open spec fn local_name(qname: Seq<u8>) -> Seq<u8> {
    qname.skip(last_colon(qname) + 1)
}

pub(crate) proof fn lemma_last_colon_is(q: Seq<u8>, i: int)
    requires
        -1 <= i < q.len(),
        forall|j: int| i < j < q.len() ==> q[j] != 58,
        i >= 0 ==> q[i] == 58,
    ensures
        last_colon(q) == i,
    decreases q.len(),
{
    if q.len() > 0 && i < q.len() - 1 {
        assert(q.last() != 58);
        lemma_last_colon_is(q.drop_last(), i);
    }
}

/// True if the name behind the last colon of `qname` is `local`.
pub fn local_name_eq(qname: &[u8], local: &[u8]) -> (r: bool)
    ensures
        r == (local_name(qname@) == local@),
{
    let n: usize = qname.len();
    let mut i: usize = n;
    while i > 0 && qname[i - 1] != 58
        invariant
            i <= n == qname@.len(),
            forall|j: int| i <= j < n ==> qname@[j] != 58,
        decreases i,
    {
        i -= 1;
    }
    proof {
        lemma_last_colon_is(qname@, i - 1);
    }
    let ghost tail = local_name(qname@);
    assert(tail =~= qname@.skip(i as int));
    if n - i != local.len() {
        return false;
    }
    let mut j: usize = 0;
    while j < local.len()
        invariant
            j <= local@.len(),
            i + local@.len() == n == qname@.len(),
            tail == qname@.skip(i as int),
            tail == local_name(qname@),
            forall|k: int| 0 <= k < j ==> tail[k] == local@[k],
        decreases local.len() - j,
    {
        assert(tail[j as int] == qname@[i + j]);
        if qname[i + j] != local[j] {
            return false;
        }
        j += 1;
    }
    assert(tail =~= local@);
    true
}

} // verus!
