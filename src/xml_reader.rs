//! The element reader: turns a markup document into open and close events
//! and hands them to a content handler.
use vstd::prelude::*;
use vstd::utf8::{decode_utf8, valid_utf8};

use quick_xml::events::Event::{Empty, End, Eof, Start};
use quick_xml::NsReader;

verus! {

/// One attribute of an element: its name and its value, as they stand in the
/// document.
#[derive(Debug, Clone)]
pub struct RawAttribute(pub Vec<u8>, pub Vec<u8>);

/// A structural event of the document. Declarations, text and comments
/// carry no record data and give no event.
#[derive(Debug, Clone)]
pub enum XmlEvent {
    /// An element opens, with its name and attributes; the flag is set when
    /// it closes at once (`<a/>`).
    Open(Vec<u8>, AttributeMap, bool),
    /// An element closes.
    Close(Vec<u8>),
}

/// The attributes of an element as a map; a name given twice keeps its last value.
pub open spec fn attribute_map(s: Seq<RawAttribute>) -> Map<Seq<u8>, Seq<u8>>
    decreases s.len(),
{
    if s.len() == 0 {
        Map::empty()
    } else {
        attribute_map(s.drop_last()).insert(s.last().0@, s.last().1@)
    }
}

/// The attributes of one element.
#[derive(Debug, Clone)]
pub struct AttributeMap {
    pub attributes: Vec<RawAttribute>,
}

impl View for AttributeMap {
    type V = Map<Seq<u8>, Seq<u8>>;

    open spec fn view(&self) -> Map<Seq<u8>, Seq<u8>> {
        attribute_map(self.attributes@)
    }
}

/// Whether two byte strings are equal.
pub fn bytes_eq(a: &[u8], b: &[u8]) -> (r: bool)
    ensures
        r == (a@ == b@),
{
    if a.len() != b.len() {
        return false;
    }
    let mut i: usize = 0;
    while i < a.len()
        invariant
            a@.len() == b@.len(),
            0 <= i <= a@.len(),
            a@.subrange(0, i as int) == b@.subrange(0, i as int),
        decreases a@.len() - i,
    {
        if a[i] != b[i] {
            assert(a@[i as int] != b@[i as int]);
            return false;
        }
        assert(a@.subrange(0, i + 1) == a@.subrange(0, i as int).push(a@[i as int]));
        assert(b@.subrange(0, i + 1) == b@.subrange(0, i as int).push(b@[i as int]));
        i = i + 1;
    }
    assert(a@ == a@.subrange(0, a@.len() as int));
    assert(b@ == b@.subrange(0, b@.len() as int));
    true
}

impl AttributeMap {
    /// The value of the attribute `key`, the last one where it occurs twice.
    pub fn get(&self, key: &[u8]) -> (r: Option<&Vec<u8>>)
        ensures
            r is Some <==> self@.contains_key(key@),
            r is Some ==> r->0@ == self@[key@],
    {
        let ghost s = self.attributes@;
        let mut i: usize = self.attributes.len();
        assert(s.subrange(0, s.len() as int) == s);
        while i > 0
            invariant
                i <= s.len(),
                s == self.attributes@,
                attribute_map(s).contains_key(key@) <==> attribute_map(s.subrange(0, i as int)).contains_key(key@),
                attribute_map(s).contains_key(key@) ==> attribute_map(s)[key@] == attribute_map(s.subrange(0, i as int))[key@],
            decreases i,
        {
            let a = &self.attributes[i - 1];
            assert(s.subrange(0, i as int).drop_last() == s.subrange(0, i - 1));
            if bytes_eq(a.0.as_slice(), key) {
                return Some(&a.1);
            }
            i = i - 1;
        }
        assert(s.subrange(0, 0) == Seq::<RawAttribute>::empty());
        None
    }
}

/// A string from UTF-8 bytes: the characters that the bytes encode, or `None`
/// when they are not valid UTF-8.
pub open spec fn utf8_text(b: Seq<u8>) -> Option<Seq<char>> {
    if valid_utf8(b) {
        Some(decode_utf8(b))
    } else {
        None
    }
}

/// Relies on String::from_utf8: it accepts exactly the valid UTF-8 byte
/// strings and keeps the characters they encode.
#[verifier::external_body]
pub(crate) fn utf8_string(bytes: Vec<u8>) -> (r: Option<String>)
    ensures
        r is Some <==> valid_utf8(bytes@),
        r is Some ==> r->0@ == decode_utf8(bytes@),
{
    String::from_utf8(bytes).ok()
}

/// A handler of element events, as a state machine over a model of its state.
pub trait ContentHandler: Sized {
    type Model;

    type Error: View;

    /// The model of the handler's state.
    spec fn model(&self) -> Self::Model;

    /// The handler's internal invariant.
    spec fn inv(&self) -> bool;

    /// The state after an element opens, or the error it raises.
    spec fn after_open(m: Self::Model, name: Seq<u8>, attributes: Map<Seq<u8>, Seq<u8>>) -> Result<
        Self::Model,
        <Self::Error as View>::V,
    >;

    /// The state after an element closes, or the error it raises.
    spec fn after_close(m: Self::Model, name: Seq<u8>) -> Result<Self::Model, <Self::Error as View>::V>;

    fn start_element(&mut self, name: &[u8], attributes: &AttributeMap) -> (r: Result<(), Self::Error>)
        requires
            old(self).inv(),
        ensures
            match Self::after_open(old(self).model(), name@, attributes@) {
                Ok(m) => r is Ok && final(self).inv() && final(self).model() == m,
                Err(e) => r is Err && r->Err_0@ == e,
            },
    ;

    fn end_element(&mut self, name: &[u8]) -> (r: Result<(), Self::Error>)
        requires
            old(self).inv(),
        ensures
            match Self::after_close(old(self).model(), name@) {
                Ok(m) => r is Ok && final(self).inv() && final(self).model() == m,
                Err(e) => r is Err && r->Err_0@ == e,
            },
    ;
}

/// The state after one event, or the error it raises: a self-closing element
/// opens and then closes.
pub open spec fn handle_event<C: ContentHandler>(m: C::Model, e: XmlEvent) -> Result<
    C::Model,
    <C::Error as View>::V,
> {
    match e {
        XmlEvent::Open(name, attributes, closed) => match C::after_open(
            m,
            name@,
            attributes@,
        ) {
            Ok(m1) => if closed {
                C::after_close(m1, name@)
            } else {
                Ok(m1)
            },
            Err(x) => Err(x),
        },
        XmlEvent::Close(name) => C::after_close(m, name@),
    }
}

/// The state after a sequence of events, in order, or the first error.
pub open spec fn handle_events<C: ContentHandler>(m: C::Model, events: Seq<XmlEvent>) -> Result<
    C::Model,
    <C::Error as View>::V,
>
    decreases events.len(),
{
    if events.len() == 0 {
        Ok(m)
    } else {
        match handle_events::<C>(m, events.drop_last()) {
            Ok(m1) => handle_event::<C>(m1, events.last()),
            Err(x) => Err(x),
        }
    }
}

/// Once a prefix of the events raises an error, the whole sequence raises it.
pub proof fn lemma_error_persists<C: ContentHandler>(m: C::Model, events: Seq<XmlEvent>, n: int)
    requires
        0 <= n <= events.len(),
        handle_events::<C>(m, events.subrange(0, n)) is Err,
    ensures
        handle_events::<C>(m, events) == handle_events::<C>(m, events.subrange(0, n)),
    decreases events.len(),
{
    if n < events.len() {
        assert(events.drop_last().subrange(0, n) == events.subrange(0, n));
        lemma_error_persists::<C>(m, events.drop_last(), n);
    } else {
        assert(events.subrange(0, n) == events);
    }
}

/// Hands one event to the handler.
pub fn dispatch<C: ContentHandler>(handler: &mut C, event: &XmlEvent) -> (r: Result<(), C::Error>)
    requires
        old(handler).inv(),
    ensures
        match handle_event::<C>(old(handler).model(), *event) {
            Ok(m) => r is Ok && final(handler).inv() && final(handler).model() == m,
            Err(e) => r is Err && r->Err_0@ == e,
        },
{
    match event {
        XmlEvent::Open(name, attributes, closed) => {
            let r = handler.start_element(name.as_slice(), attributes);
            match r {
                Ok(()) => if *closed {
                    handler.end_element(name.as_slice())
                } else {
                    Ok(())
                },
                Err(e) => Err(e),
            }
        },
        XmlEvent::Close(name) => handler.end_element(name.as_slice()),
    }
}

/// Hands the events to the handler in order, stopping at the first error.
pub fn feed_events<C: ContentHandler>(handler: &mut C, events: &Vec<XmlEvent>) -> (r: Result<(), C::Error>)
    requires
        old(handler).inv(),
    ensures
        match handle_events::<C>(old(handler).model(), events@) {
            Ok(m) => r is Ok && final(handler).inv() && final(handler).model() == m,
            Err(e) => r is Err && r->Err_0@ == e,
        },
{
    let mut i: usize = 0;
    while i < events.len()
        invariant
            0 <= i <= events@.len(),
            handler.inv(),
            handle_events::<C>(old(handler).model(), events@.subrange(0, i as int)) == Ok::<
                C::Model,
                <C::Error as View>::V,
            >(handler.model()),
        decreases events@.len() - i,
    {
        assert(events@.subrange(0, i + 1).drop_last() == events@.subrange(0, i as int));
        let r = dispatch(handler, &events[i]);
        match r {
            Ok(()) => {},
            Err(e) => {
                proof {
                    lemma_error_persists::<C>(old(handler).model(), events@, i + 1);
                }
                return Err(e);
            },
        }
        i = i + 1;
    }
    assert(events@.subrange(0, events@.len() as int) == events@);
    Ok(())
}

/// The element events of a document, in order: an open event for each start
/// tag and each self-closing tag, a close event for each end tag; `None` when
/// the markup is not well-formed.
pub uninterp spec fn xml_events_of(b: Seq<u8>) -> Option<Seq<XmlEvent>>;

#[verifier::external_type_specification]
#[verifier::external_body]
pub struct ExXmlError(quick_xml::Error);

/// Relies on quick_xml::NsReader::read_event, read to the end of `bytes`: the
/// start, self-closing and end tags in document order, attributes in
/// document order with repeated names kept; an error at the first malformed
/// markup or attribute.
#[verifier::external_body]
fn read_events(bytes: &[u8]) -> (r: Result<Vec<XmlEvent>, quick_xml::Error>)
    ensures
        r is Ok <==> xml_events_of(bytes@) is Some,
        r is Ok ==> r->Ok_0@ == xml_events_of(bytes@)->0,
{
    let mut reader = NsReader::from_reader(bytes);
    let mut events = Vec::new();
    loop {
        let (e, closed) = match reader.read_event()? {
            Start(e) => (e, false),
            Empty(e) => (e, true),
            End(e) => { events.push(XmlEvent::Close(e.name().0.into())); continue }
            Eof => return Ok(events),
            _ => continue,
        };
        let mut attributes = Vec::new();
        for a in e.attributes().with_checks(false) { let a = a?; attributes.push(RawAttribute(a.key.0.into(), a.value.as_bytes().into())) }
        events.push(XmlEvent::Open(e.name().0.into(), AttributeMap { attributes }, closed))
    }
}

/// Why reading a document stopped.
#[derive(Debug, Clone)]
pub enum ReadError<E> {
    /// The markup is not well-formed.
    Markup,
    /// The handler refused an event.
    Handler(E),
}

/// Reads a document and hands its element events to a content handler.
pub struct XmlReader<'a, C> {
    document: &'a [u8],
    content_handler: C,
}

impl<'a, C: ContentHandler> XmlReader<'a, C> {
    /// The handler, as it stands.
    pub closed spec fn handler(&self) -> C {
        self.content_handler
    }

    /// The bytes of the document.
    pub closed spec fn document(&self) -> Seq<u8> {
        self.document@
    }

    pub fn new(bytes: &'a [u8], content_handler: C) -> (r: Self)
        ensures
            r.handler() == content_handler,
            r.document() == bytes@,
    {
        XmlReader { document: bytes, content_handler }
    }

    pub fn into_inner(self) -> (r: C)
        ensures
            r == self.handler(),
    {
        self.content_handler
    }

    /// Reads the document to its end and hands each of its element events to
    /// the handler, in order; a self-closing element opens and then closes.
    /// Fails on markup that is not well-formed, before any event is handed
    /// on, and at the first event that the handler refuses.
    pub fn parse(&mut self) -> (r: Result<(), ReadError<C::Error>>)
        requires
            old(self).handler().inv(),
        ensures
            final(self).document() == old(self).document(),
            match xml_events_of(old(self).document()) {
                None => r matches Err(ReadError::Markup),
                Some(evs) => match handle_events::<C>(old(self).handler().model(), evs) {
                    Ok(m) => r is Ok && final(self).handler().inv() && final(self).handler().model() == m,
                    Err(e) => r matches Err(ReadError::Handler(x)) && x@ == e,
                },
            },
    {
        match read_events(self.document) {
            Err(_) => Err(ReadError::Markup),
            Ok(events) => match feed_events(&mut self.content_handler, &events) {
                Ok(()) => Ok(()),
                Err(e) => Err(ReadError::Handler(e)),
            },
        }
    }
}

} // verus!
