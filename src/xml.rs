use vstd::prelude::*;
use vstd::utf8::{decode_utf8, valid_utf8};

use crate::error::ModelError;
use crate::loader::{
    fed, fed_fails, lemma_trace_push, trace_ok, DocumentParser, NativeLoader, XmlEvent,
};
use crate::registry::Registry;
use crate::scan::RawAttribute;
use crate::tokens::{
    attribute_value, attributes_of, cdata_code, empty_code, end_code, eof_code, next_attribute,
    next_token, open_tokenizer, other_code, reference_code, start_code, tag_name, text_code,
    text_content, xml_attribute, xml_attribute_value, xml_tag_name, xml_text, xml_token, StartTag,
    Token, Tokenizer,
};

verus! {

/// Relies on `String::from_utf8`: the text that valid UTF-8 encodes, and
/// nothing for other bytes.
#[verifier::external_body]
fn utf8_string(b: Vec<u8>) -> (r: Option<String>)
    ensures
        r is Some <==> valid_utf8(b@),
        r matches Some(s) ==> s@ == decode_utf8(b@),
{
    String::from_utf8(b).ok()
}

/// The text of a name, which must be valid UTF-8.
fn decode_name(b: Vec<u8>) -> (r: Result<String, ModelError>)
    ensures
        r is Ok <==> valid_utf8(b@),
        r matches Ok(s) ==> s@ == decode_utf8(b@),
        r is Err ==> r == Err::<String, ModelError>(ModelError::InvalidUtf8),
{
    match utf8_string(b) {
        Some(s) => Ok(s),
        None => Err(ModelError::InvalidUtf8),
    }
}

/// Attribute `j` of start tag `k` can be taken: its name is valid UTF-8 and
/// its value unescapes.
pub open spec fn attr_readable(bytes: Seq<u8>, k: nat, j: nat) -> bool {
    &&& xml_attribute(bytes, k, j) matches Some(Ok(key))
    &&& valid_utf8(key)
    &&& xml_attribute_value(bytes, k, j) is Ok
}

/// `a` is attribute `j` of start tag `k`, as the loader takes it.
pub open spec fn attr_read(bytes: Seq<u8>, k: nat, j: nat, a: RawAttribute) -> bool {
    &&& xml_attribute(bytes, k, j) matches Some(Ok(key))
    &&& valid_utf8(key)
    &&& a.name@ == decode_utf8(key)
    &&& xml_attribute_value(bytes, k, j) == Ok::<Seq<char>, Seq<char>>(a.value@)
}

/// `name` and `attrs` are start tag `k`, as the loader takes it.
pub open spec fn tag_read(bytes: Seq<u8>, k: nat, name: String, attrs: Seq<RawAttribute>) -> bool {
    &&& valid_utf8(xml_tag_name(bytes, k))
    &&& name@ == decode_utf8(xml_tag_name(bytes, k))
    &&& forall|j: int| 0 <= j < attrs.len() ==> attr_read(bytes, k, j as nat, #[trigger] attrs[j])
    &&& xml_attribute(bytes, k, attrs.len() as nat) is None
}

/// Why reading attribute `j` of start tag `k` stops the load with `e`; a
/// document of `size` bytes cannot hold `size` attributes in one tag.
pub open spec fn attr_failure(bytes: Seq<u8>, k: nat, j: nat, size: nat, e: ModelError) -> bool {
    if j >= size {
        e == ModelError::TokenizerOverrun
    } else {
        match xml_attribute(bytes, k, j) {
            Some(Err(m)) => e matches ModelError::Xml { message } && message@ == m,
            Some(Ok(key)) => if !valid_utf8(key) {
                e == ModelError::InvalidUtf8
            } else {
                xml_attribute_value(bytes, k, j) matches Err(m) && (e matches ModelError::Xml {
                    message,
                } && message@ == m)
            },
            None => false,
        }
    }
}

/// Why reading start tag `k` stops the load with `e`.
pub open spec fn tag_failure(bytes: Seq<u8>, k: nat, size: nat, e: ModelError) -> bool {
    if !valid_utf8(xml_tag_name(bytes, k)) {
        e == ModelError::InvalidUtf8
    } else {
        exists|j: nat|
            j <= size && (forall|i: nat| i < j ==> #[trigger] attr_readable(bytes, k, i)) && #[trigger] attr_failure(
                bytes,
                k,
                j,
                size,
                e,
            )
    }
}

/// `ev` is event `k` of `bytes`, as the loader takes it.
pub open spec fn event_read(bytes: Seq<u8>, k: nat, ev: XmlEvent) -> bool {
    match ev {
        XmlEvent::Start { name, attributes } => xml_token(bytes, k) == Ok::<int, Seq<char>>(start_code())
            && tag_read(bytes, k, name, attributes@),
        XmlEvent::Empty { name, attributes } => xml_token(bytes, k) == Ok::<int, Seq<char>>(empty_code())
            && tag_read(bytes, k, name, attributes@),
        XmlEvent::End => xml_token(bytes, k) == Ok::<int, Seq<char>>(end_code()),
        XmlEvent::Text(t) => xml_token(bytes, k) == Ok::<int, Seq<char>>(text_code()) && xml_text(bytes, k)
            == Ok::<Seq<char>, Seq<char>>(t@),
        XmlEvent::CData => xml_token(bytes, k) == Ok::<int, Seq<char>>(cdata_code()),
        XmlEvent::Reference => xml_token(bytes, k) == Ok::<int, Seq<char>>(reference_code()),
        XmlEvent::Other => xml_token(bytes, k) == Ok::<int, Seq<char>>(other_code()),
    }
}

/// Why reading event `k` of `bytes` stops the load with `e`: the tokenizer's
/// error, with its message kept, or a name that is not UTF-8.
pub open spec fn read_failure(bytes: Seq<u8>, k: nat, size: nat, e: ModelError) -> bool {
    match xml_token(bytes, k) {
        Err(m) => e matches ModelError::Xml { message } && message@ == m,
        Ok(c) => {
            ||| (c == start_code() || c == empty_code()) && tag_failure(bytes, k, size, e)
            ||| c == text_code() && (xml_text(bytes, k) matches Err(m) && (e matches ModelError::Xml {
                message,
            } && message@ == m))
        },
    }
}

/// The events `evs` are the first events of `bytes`, in order.
pub open spec fn events_read(bytes: Seq<u8>, evs: Seq<XmlEvent>) -> bool {
    forall|k: int| 0 <= k < evs.len() ==> event_read(bytes, k as nat, #[trigger] evs[k])
}

proof fn lemma_tag_failure(bytes: Seq<u8>, k: nat, size: nat, e: ModelError, j: nat)
    requires
        valid_utf8(xml_tag_name(bytes, k)),
        j <= size,
        forall|i: nat| i < j ==> #[trigger] attr_readable(bytes, k, i),
        attr_failure(bytes, k, j, size, e),
    ensures
        tag_failure(bytes, k, size, e),
{
}

/// The name and attributes of start tag `s`, in a document of `size`
/// bytes, which cannot hold `size` attributes in one tag.
fn read_tag(s: &StartTag, size: usize) -> (r: Result<(String, Vec<RawAttribute>), ModelError>)
    ensures
        r matches Ok((n, attrs)) ==> tag_read(s.source(), s.index(), n, attrs@),
        r matches Err(e) ==> tag_failure(s.source(), s.index(), size as nat, e),
{
    let ghost src = s.source();
    let ghost k = s.index();
    let name = decode_name(tag_name(s))?;
    let mut cursor = attributes_of(s);
    let mut attrs: Vec<RawAttribute> = Vec::new();
    let mut count: usize = 0;
    loop
        invariant_except_break
            cursor.pos() == count,
        invariant
            count <= size,
            src == s.source(),
            k == s.index(),
            cursor.source() == src,
            cursor.index() == k,
            attrs@.len() == count,
            valid_utf8(xml_tag_name(src, k)),
            name@ == decode_utf8(xml_tag_name(src, k)),
            forall|j: int| 0 <= j < count ==> attr_read(src, k, j as nat, #[trigger] attrs@[j]),
        ensures
            xml_attribute(src, k, count as nat) is None,
            forall|j: int| 0 <= j < count ==> attr_read(src, k, j as nat, #[trigger] attrs@[j]),
            attrs@.len() == count,
        decreases size - count,
    {
        proof {
            assert forall|i: nat| i < count implies #[trigger] attr_readable(src, k, i) by {
                assert(attr_read(src, k, i, attrs@[i as int]));
            }
        }
        if count == size {
            proof {
                lemma_tag_failure(src, k, size as nat, ModelError::TokenizerOverrun, count as nat);
            }
            return Err(ModelError::TokenizerOverrun);
        }
        match next_attribute(&mut cursor) {
            None => {
                break;
            },
            Some(Err(m)) => {
                let e = ModelError::Xml { message: m };
                proof {
                    lemma_tag_failure(src, k, size as nat, e, count as nat);
                }
                return Err(e);
            },
            Some(Ok((key_bytes, item))) => {
                let key = match decode_name(key_bytes) {
                    Ok(key) => key,
                    Err(e) => {
                        proof {
                            lemma_tag_failure(src, k, size as nat, e, count as nat);
                        }
                        return Err(e);
                    },
                };
                let value = match attribute_value(&item) {
                    Ok(v) => v,
                    Err(m) => {
                        let e = ModelError::Xml { message: m };
                        proof {
                            lemma_tag_failure(src, k, size as nat, e, count as nat);
                        }
                        return Err(e);
                    },
                };
                let ghost before = attrs@;
                attrs.push(RawAttribute { name: key, value });
                assert(attr_read(src, k, count as nat, attrs@[count as int]));
                assert forall|j: int| 0 <= j < count + 1 implies attr_read(src, k, j as nat, #[trigger] attrs@[j]) by {
                    if j < count {
                        assert(attrs@[j] == before[j]);
                    }
                }
                count += 1;
            },
        }
    }
    Ok((name, attrs))
}

/// The next event of the document, or `None` at its end, in a document of
/// `size` bytes.
pub fn read_event(tokens: &mut Tokenizer, size: usize) -> (r: Result<Option<XmlEvent>, ModelError>)
    ensures
        final(tokens).source() == old(tokens).source(),
        final(tokens).taken() == old(tokens).taken() + 1,
        r matches Ok(Some(ev)) ==> event_read(old(tokens).source(), old(tokens).taken(), ev),
        r matches Ok(None) ==> xml_token(old(tokens).source(), old(tokens).taken()) == Ok::<int, Seq<char>>(eof_code()),
        r matches Err(e) ==> read_failure(old(tokens).source(), old(tokens).taken(), size as nat, e),
{
    let token = match next_token(tokens) {
        Ok(t) => t,
        Err(m) => {
            return Err(ModelError::Xml { message: m });
        },
    };
    let event = match token {
        Token::Start(s) => {
            let (name, attributes) = read_tag(&s, size)?;
            XmlEvent::Start { name, attributes }
        },
        Token::Empty(s) => {
            let (name, attributes) = read_tag(&s, size)?;
            XmlEvent::Empty { name, attributes }
        },
        Token::End => XmlEvent::End,
        Token::Text(t) => match text_content(&t) {
            Ok(s) => XmlEvent::Text(s),
            Err(m) => {
                return Err(ModelError::Xml { message: m });
            },
        },
        Token::CData => XmlEvent::CData,
        Token::Reference => XmlEvent::Reference,
        Token::Other => XmlEvent::Other,
        Token::Eof => {
            return Ok(None);
        },
    };
    Ok(Some(event))
}

/// What loading `bytes` gives: the events are read and fed one at a time,
/// and the first that cannot be read or fed ends the load. Where every event
/// is read and accepted and the document ends with every element closed, the
/// result is the model that feeding them builds.
pub open spec fn load_outcome(reg: Registry, bytes: Seq<u8>, r: Result<NativeLoader, ModelError>) -> bool {
    exists|evs: Seq<XmlEvent>|
        #[trigger] events_read(bytes, evs) && match r {
            Ok(m) => xml_token(bytes, evs.len() as nat) == Ok::<int, Seq<char>>(eof_code()) && exists|
                p: DocumentParser,
            | #[trigger] fed(reg, evs, p) && p.spec_stack().len() == 0 && p.spec_model() == m,
            Err(e) => fed_fails(reg, evs, e) || exists|p: DocumentParser| #[trigger]
                fed(reg, evs, p) && stopped(bytes, evs.len() as nat, bytes.len(), p, e),
        }
}

/// Why the load stops with `e` after `k` events were read and fed, leaving
/// the parser as `p`: event `k` cannot be read; the document ends with
/// elements open; or more events came than the document has bytes.
pub open spec fn stopped(bytes: Seq<u8>, k: nat, size: nat, p: DocumentParser, e: ModelError) -> bool {
    ||| read_failure(bytes, k, size, e)
    ||| xml_token(bytes, k) == Ok::<int, Seq<char>>(eof_code()) && p.spec_stack().len() > 0
        && e == ModelError::UnclosedElement { depth: p.spec_stack().len() as usize }
    ||| e == ModelError::TokenizerOverrun && k > size
}

/// Loads a model from the bytes of an XML document, resolving typed
/// elements through `registry`. Each event takes at least one byte, so a
/// document of `n` bytes ends within `n + 1` events.
pub fn load_document(registry: &Registry, bytes: &[u8]) -> (r: Result<NativeLoader, ModelError>)
    requires
        registry.wf(),
    ensures
        load_outcome(*registry, bytes@, r),
        r matches Ok(m) ==> m.wf(),
{
    let size = bytes.len();
    let mut tokens = open_tokenizer(bytes);
    let mut parser = DocumentParser::new();
    let ghost mut evs: Seq<XmlEvent> = Seq::empty();
    let ghost mut states = seq![parser];
    let mut steps: usize = 0;
    loop
        invariant
            parser.wf(),
            registry.wf(),
            steps <= size,
            size == bytes@.len(),
            steps == evs.len(),
            tokens.source() == bytes@,
            tokens.taken() == evs.len(),
            events_read(bytes@, evs),
            trace_ok(*registry, evs, states),
            states.last() == parser,
        decreases size - steps,
    {
        let read = read_event(&mut tokens, size);
        match read {
            Err(e) => {
                proof {
                    assert(fed(*registry, evs, parser));
                    assert(stopped(bytes@, evs.len() as nat, bytes@.len(), parser, e));
                }
                return Err(e);
            },
            Ok(None) => {
                proof {
                    assert(fed(*registry, evs, parser));
                }
                return parser.finish();
            },
            Ok(Some(event)) => {
                let ghost ev = event;
                let fr = parser.feed(registry, event);
                proof {
                    lemma_trace_push(*registry, evs, states, ev, parser, fr);
                    assert forall|k: int| 0 <= k < evs.push(ev).len() implies event_read(bytes@, k as nat, #[trigger] evs.push(ev)[k]) by {
                        if k < evs.len() {
                            assert(evs.push(ev)[k] == evs[k]);
                        }
                    }
                    evs = evs.push(ev);
                    if fr is Ok {
                        states = states.push(parser);
                    }
                }
                if let Err(e) = fr {
                    assert(fed_fails(*registry, evs, e));
                    assert(events_read(bytes@, evs));
                    return Err(e);
                }
            },
        }
        if steps == size {
            proof {
                assert(fed(*registry, evs, parser));
                assert(stopped(bytes@, evs.len() as nat, bytes@.len(), parser, ModelError::TokenizerOverrun));
                assert(events_read(bytes@, evs));
            }
            return Err(ModelError::TokenizerOverrun);
        }
        steps += 1;
    }
}

} // verus!
