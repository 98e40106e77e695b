use quick_xml::events::attributes::{Attribute, Attributes};
use quick_xml::events::{BytesStart, BytesText, Event};
use quick_xml::Reader;
use vstd::prelude::*;

verus! {

#[verifier::external_type_specification]
#[verifier::external_body]
#[verifier::reject_recursive_types(R)]
pub struct ExReader<R>(Reader<R>);

#[verifier::external_type_specification]
#[verifier::external_body]
pub struct ExBytesStart<'a>(BytesStart<'a>);

#[verifier::external_type_specification]
#[verifier::external_body]
pub struct ExBytesText<'a>(BytesText<'a>);

#[verifier::external_type_specification]
#[verifier::external_body]
pub struct ExAttributes<'a>(Attributes<'a>);

#[verifier::external_type_specification]
#[verifier::external_body]
pub struct ExAttribute<'a>(Attribute<'a>);

#[verifier::external_type_specification]
#[verifier::external_body]
pub struct ExAttrError(quick_xml::events::attributes::AttrError);

/// What the tokenizer gives as event number `k` when it reads `bytes` from
/// the start: the kind of event (see `token_code`), or the message of the
/// error that stops it.
pub uninterp spec fn xml_token(bytes: Seq<u8>, k: nat) -> Result<int, Seq<char>>;

/// The qualified name, as bytes, of start tag number `k` of `bytes`.
pub uninterp spec fn xml_tag_name(bytes: Seq<u8>, k: nat) -> Seq<u8>;

/// Attribute number `j` of start tag number `k` of `bytes`: its qualified
/// name as bytes, or the message of the error in it; `None` past the last.
pub uninterp spec fn xml_attribute(bytes: Seq<u8>, k: nat, j: nat) -> Option<Result<Seq<u8>, Seq<char>>>;

/// The value, with its escapes replaced, of attribute number `j` of start
/// tag number `k` of `bytes`, or the message of the error in it.
pub uninterp spec fn xml_attribute_value(bytes: Seq<u8>, k: nat, j: nat) -> Result<Seq<char>, Seq<char>>;

/// The content of text event number `k` of `bytes`, or the message of the
/// error in decoding it.
pub uninterp spec fn xml_text(bytes: Seq<u8>, k: nat) -> Result<Seq<char>, Seq<char>>;

pub open spec fn start_code() -> int { 0 }
pub open spec fn empty_code() -> int { 1 }
pub open spec fn end_code() -> int { 2 }
pub open spec fn text_code() -> int { 3 }
pub open spec fn cdata_code() -> int { 4 }
pub open spec fn reference_code() -> int { 5 }
pub open spec fn other_code() -> int { 6 }
pub open spec fn eof_code() -> int { 7 }

// The values below record where they stand in the document. Their fields
// are private to this module, which holds only the calls into the
// tokenizer: each position is ghost state, set by the contract of the call
// that hands the value out or moves it on.

/// A tokenizer over `source` that has given `taken` events.
pub struct Tokenizer<'a> {
    reader: Reader<&'a [u8]>,
    source: Ghost<Seq<u8>>,
    taken: Ghost<nat>,
}

/// Start tag number `index` of `source`.
pub struct StartTag<'a> {
    tag: BytesStart<'a>,
    source: Ghost<Seq<u8>>,
    index: Ghost<nat>,
}

/// The attributes of start tag `index` of `source`, `pos` of them read.
pub struct AttrCursor<'a> {
    iter: Attributes<'a>,
    source: Ghost<Seq<u8>>,
    index: Ghost<nat>,
    pos: Ghost<nat>,
}

/// Attribute `pos` of start tag `index` of `source`.
pub struct AttrItem<'a> {
    attr: Attribute<'a>,
    source: Ghost<Seq<u8>>,
    index: Ghost<nat>,
    pos: Ghost<nat>,
}

/// Text event number `index` of `source`.
pub struct TextItem<'a> {
    text: BytesText<'a>,
    source: Ghost<Seq<u8>>,
    index: Ghost<nat>,
}

impl<'a> Tokenizer<'a> {
    pub closed spec fn source(&self) -> Seq<u8> {
        self.source@
    }

    pub closed spec fn taken(&self) -> nat {
        self.taken@
    }
}

impl<'a> StartTag<'a> {
    pub closed spec fn source(&self) -> Seq<u8> {
        self.source@
    }

    pub closed spec fn index(&self) -> nat {
        self.index@
    }
}

impl<'a> AttrCursor<'a> {
    pub closed spec fn source(&self) -> Seq<u8> {
        self.source@
    }

    pub closed spec fn index(&self) -> nat {
        self.index@
    }

    pub closed spec fn pos(&self) -> nat {
        self.pos@
    }
}

impl<'a> AttrItem<'a> {
    pub closed spec fn source(&self) -> Seq<u8> {
        self.source@
    }

    pub closed spec fn index(&self) -> nat {
        self.index@
    }

    pub closed spec fn pos(&self) -> nat {
        self.pos@
    }
}

impl<'a> TextItem<'a> {
    pub closed spec fn source(&self) -> Seq<u8> {
        self.source@
    }

    pub closed spec fn index(&self) -> nat {
        self.index@
    }
}

/// One event of the tokenizer, with the parts that the loader reads.
pub enum Token<'a> {
    Start(StartTag<'a>),
    Empty(StartTag<'a>),
    End,
    Text(TextItem<'a>),
    CData,
    Reference,
    Other,
    Eof,
}

pub open spec fn token_code(t: Token) -> int {
    match t {
        Token::Start(_) => start_code(),
        Token::Empty(_) => empty_code(),
        Token::End => end_code(),
        Token::Text(_) => text_code(),
        Token::CData => cdata_code(),
        Token::Reference => reference_code(),
        Token::Other => other_code(),
        Token::Eof => eof_code(),
    }
}

/// Event `tok` stands at number `k` of `src`.
pub open spec fn token_at(tok: Token, src: Seq<u8>, k: nat) -> bool {
    match tok {
        Token::Start(s) => s.source() == src && s.index() == k,
        Token::Empty(s) => s.source() == src && s.index() == k,
        Token::Text(t) => t.source() == src && t.index() == k,
        _ => true,
    }
}

/// Relies on `quick_xml::Reader::from_reader`: a tokenizer at the start of
/// the bytes, which has given no event yet.
#[verifier::external_body]
pub fn open_tokenizer<'a>(bytes: &'a [u8]) -> (r: Tokenizer<'a>)
    ensures
        r.source() == bytes@,
        r.taken() == 0,
{
    Tokenizer { reader: Reader::from_reader(bytes), source: Ghost(bytes@), taken: Ghost(0) }
}

/// Relies on `quick_xml::Reader::read_event`: the next event, which over a
/// byte slice depends on the bytes alone; an error comes back as its
/// message. Each call counts one event.
#[verifier::external_body]
pub fn next_token<'a>(t: &mut Tokenizer<'a>) -> (r: Result<Token<'a>, String>)
    ensures
        final(t).source() == old(t).source(),
        final(t).taken() == old(t).taken() + 1,
        match r {
            Ok(tok) => xml_token(old(t).source(), old(t).taken()) == Ok::<int, Seq<char>>(token_code(tok))
                && token_at(tok, old(t).source(), old(t).taken()),
            Err(m) => xml_token(old(t).source(), old(t).taken()) == Err::<int, Seq<char>>(m@),
        },
{
    let (source, index) = (t.source, t.taken);
    Ok(match t.reader.read_event().map_err(|e| e.to_string())? {
        Event::Start(e) => Token::Start(StartTag { tag: e, source, index }),
        Event::Empty(e) => Token::Empty(StartTag { tag: e, source, index }),
        Event::End(_) => Token::End,
        Event::Text(e) => Token::Text(TextItem { text: e, source, index }),
        Event::CData(_) => Token::CData,
        Event::GeneralRef(_) => Token::Reference,
        Event::Comment(_) => Token::Other,
        Event::Decl(_) => Token::Other,
        Event::PI(_) => Token::Other,
        Event::DocType(_) => Token::Other,
        Event::Eof => Token::Eof,
    })
}

/// Relies on `quick_xml::events::BytesStart::name`: the tag's qualified name as bytes.
#[verifier::external_body]
pub fn tag_name(s: &StartTag) -> (r: Vec<u8>)
    ensures
        r@ == xml_tag_name(s.source(), s.index()),
{
    s.tag.name().as_ref().to_vec()
}

/// Relies on `quick_xml::events::BytesStart::attributes`: an iterator over
/// the tag's attributes, from the first.
#[verifier::external_body]
pub fn attributes_of<'b>(s: &'b StartTag) -> (r: AttrCursor<'b>)
    ensures
        r.source() == s.source(),
        r.index() == s.index(),
        r.pos() == 0,
{
    AttrCursor { iter: s.tag.attributes(), source: s.source, index: s.index, pos: Ghost(0) }
}

/// Relies on `Iterator::next` of `quick_xml::events::attributes::Attributes`:
/// the next attribute with its qualified name as bytes (the `key` field), or
/// the message of the error in it. Each call counts one attribute.
#[verifier::external_body]
pub fn next_attribute<'b>(c: &mut AttrCursor<'b>) -> (r: Option<Result<(Vec<u8>, AttrItem<'b>), String>>)
    ensures
        final(c).source() == old(c).source(),
        final(c).index() == old(c).index(),
        final(c).pos() == old(c).pos() + 1,
        match r {
            None => xml_attribute(old(c).source(), old(c).index(), old(c).pos()) is None,
            Some(Ok((key, item))) => xml_attribute(old(c).source(), old(c).index(), old(c).pos())
                == Some(Ok::<Seq<u8>, Seq<char>>(key@)) && item.source() == old(c).source()
                && item.index() == old(c).index() && item.pos() == old(c).pos(),
            Some(Err(m)) => xml_attribute(old(c).source(), old(c).index(), old(c).pos()) == Some(
                Err::<Seq<u8>, Seq<char>>(m@),
            ),
        },
{
    let (source, index, pos) = (c.source, c.index, c.pos);
    c.iter.next().map(
        |a| a.map(|a| (a.key.as_ref().to_vec(), AttrItem { attr: a, source, index, pos })).map_err(|e| e.to_string()),
    )
}

/// Relies on `quick_xml::events::attributes::Attribute::unescape_value`: the
/// value with its escapes replaced, or the message of the error in it.
#[verifier::external_body]
pub fn attribute_value(a: &AttrItem) -> (r: Result<String, String>)
    ensures
        match r {
            Ok(v) => xml_attribute_value(a.source(), a.index(), a.pos()) == Ok::<Seq<char>, Seq<char>>(v@),
            Err(m) => xml_attribute_value(a.source(), a.index(), a.pos()) == Err::<Seq<char>, Seq<char>>(m@),
        },
{
    a.attr.unescape_value().map(|v| v.into_owned()).map_err(|e| e.to_string())
}

/// Relies on `quick_xml::events::BytesText::xml_content`: the text, decoded
/// and with its line ends normalized, or the message of the error.
#[verifier::external_body]
pub fn text_content(t: &TextItem) -> (r: Result<String, String>)
    ensures
        match r {
            Ok(v) => xml_text(t.source(), t.index()) == Ok::<Seq<char>, Seq<char>>(v@),
            Err(m) => xml_text(t.source(), t.index()) == Err::<Seq<char>, Seq<char>>(m@),
        },
{
    t.text.xml_content().map(|c| c.into_owned()).map_err(|e| e.to_string())
}

} // verus!
