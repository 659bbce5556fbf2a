//! Metalink documents: the files they describe and the mirrors of each file.
use vstd::prelude::*;
use crate::Error;
use quick_xml::events::Event;
use crate::text::{parse_u64, parse_u64_of, push_str, str_to_string, text_eq};

verus! {

/// A download source of a Metalink file.
#[derive(Debug)]
pub struct MetalinkResource {
    pub uri: String,
    pub priority: u32,
    pub protocol: String,
}

/// A file described by a Metalink document.
#[derive(Debug)]
pub struct MetalinkFile {
    pub name: String,
    pub size: Option<u64>,
    pub hash: Option<String>,
    pub resources: Vec<MetalinkResource>,
}

/// A Metalink document.
#[derive(Debug)]
pub struct Metalink {
    pub files: Vec<MetalinkFile>,
}

pub struct ResourceView {
    pub uri: Seq<char>,
    pub priority: u32,
    pub protocol: Seq<char>,
}

pub struct MetalinkFileView {
    pub name: Seq<char>,
    pub size: Option<u64>,
    pub hash: Option<Seq<char>>,
    pub resources: Seq<ResourceView>,
}

/// The text of an optional string.
pub open spec fn opt_text(o: Option<String>) -> Option<Seq<char>> {
    match o {
        Some(s) => Some(s@),
        None => None,
    }
}

impl View for MetalinkResource {
    type V = ResourceView;

    open spec fn view(&self) -> ResourceView {
        ResourceView { uri: self.uri@, priority: self.priority, protocol: self.protocol@ }
    }
}

impl View for MetalinkFile {
    type V = MetalinkFileView;

    open spec fn view(&self) -> MetalinkFileView {
        MetalinkFileView {
            name: self.name@,
            size: self.size,
            hash: opt_text(self.hash),
            resources: self.resources@.map_values(|r: MetalinkResource| r@),
        }
    }
}

/// The views of a list of Metalink files.
pub open spec fn file_list(s: Seq<MetalinkFile>) -> Seq<MetalinkFileView> {
    s.map_values(|f: MetalinkFile| f@)
}

/// An event of an XML reader, with names and text as strings: the start of an
/// element with its attributes (`None` for one that could not be read), text,
/// the end of an element, or anything else.
#[derive(Debug)]
pub enum XmlEvent {
    Start(String, Vec<Option<(String, String)>>),
    Text(String),
    End(String),
    Other,
}

pub enum XmlEventView {
    Start(Seq<char>, Seq<Option<(Seq<char>, Seq<char>)>>),
    Text(Seq<char>),
    End(Seq<char>),
    Other,
}

/// The text of a list of attributes.
pub open spec fn attr_views(a: Seq<Option<(String, String)>>) -> Seq<Option<(Seq<char>, Seq<char>)>> {
    a.map_values(
        |x: Option<(String, String)>|
            match x {
                Some((k, v)) => Some((k@, v@)),
                None => None,
            },
    )
}

impl View for XmlEvent {
    type V = XmlEventView;

    open spec fn view(&self) -> XmlEventView {
        match self {
            XmlEvent::Start(n, a) => XmlEventView::Start(n@, attr_views(a@)),
            XmlEvent::Text(t) => XmlEventView::Text(t@),
            XmlEvent::End(n) => XmlEventView::End(n@),
            XmlEvent::Other => XmlEventView::Other,
        }
    }
}

/// The views of a list of events.
pub open spec fn event_views(s: Seq<XmlEvent>) -> Seq<XmlEventView> {
    s.map_values(|e: XmlEvent| e@)
}

/// What `quick_xml` reads in a document, with text trimmed: the events up to
/// the end of the input or the first error, and the error's message if one
/// stopped it.
pub uninterp spec fn xml_parse(data: Seq<u8>) -> (Seq<XmlEventView>, Option<Seq<char>>);

#[verifier::external_type_specification]
#[verifier::external_body]
#[verifier::reject_recursive_types(R)]
pub struct ExXmlReader<R>(quick_xml::Reader<R>);

/// A `quick_xml` reader over a document, with the document and the number of
/// events read so far.
pub struct XmlCursor<'a> {
    reader: quick_xml::Reader<&'a [u8]>,
    input: Ghost<Seq<u8>>,
    read: Ghost<nat>,
}

impl<'a> XmlCursor<'a> {
    /// The document read.
    pub closed spec fn input(&self) -> Seq<u8> {
        self.input@
    }

    /// How many events were read.
    pub closed spec fn read(&self) -> nat {
        self.read@
    }
}

/// Opens a `quick_xml::Reader` on `data` (`Reader::from_reader`) with
/// `trim_text(true)`; no event is read yet.
#[verifier::external_body]
fn xml_cursor<'a>(data: &'a [u8]) -> (c: XmlCursor<'a>)
    ensures
        c.input() == data@,
        c.read() == 0,
{
    let mut reader = quick_xml::Reader::from_reader(data);
    reader.config_mut().trim_text(true);
    XmlCursor { reader, input: Ghost(data@), read: Ghost(0) }
}

/// Reads the next event with `Reader::read_event`: a start element (name and
/// attributes, each `None` when malformed), text, an end element, another
/// event, `None` at the end of the input, or the error's message. The events
/// come in the order of `xml_parse`, the end or the error after the last.
#[verifier::external_body]
fn next_xml_event(c: &mut XmlCursor) -> (r: Result<Option<XmlEvent>, String>)
    requires
        old(c).read() <= xml_parse(old(c).input()).0.len(),
    ensures
        final(c).input() == old(c).input(),
        old(c).read() < xml_parse(old(c).input()).0.len() ==> (r matches Ok(Some(e))
            && e@ == xml_parse(old(c).input()).0[old(c).read() as int]
            && final(c).read() == old(c).read() + 1),
        old(c).read() == xml_parse(old(c).input()).0.len() ==> match xml_parse(old(c).input()).1 {
            None => r matches Ok(None),
            Some(m) => r matches Err(s) && s@ == m,
        },
{
    match c.reader.read_event() {
        Ok(Event::Start(s)) => Ok(Some(XmlEvent::Start(s.name().0.to_string(), s.attributes().map(|a| a.ok().map(|a| (a.key.0.to_string(), a.value.to_string()))).collect()))),
        Ok(Event::Text(t)) => Ok(Some(XmlEvent::Text(t.to_string()))),
        Ok(Event::End(e)) => Ok(Some(XmlEvent::End(e.name().0.to_string()))),
        Ok(Event::Eof) => Ok(None),
        Ok(_) => Ok(Some(XmlEvent::Other)),
        Err(e) => Err(e.to_string()),
    }
}

/// The events of a document and the error that stopped the reading, if any.
fn xml_events(data: &[u8]) -> (r: (Vec<XmlEvent>, Option<String>))
    ensures
        event_views(r.0@) == xml_parse(data@).0,
        opt_text(r.1) == xml_parse(data@).1,
{
    let ghost evs = xml_parse(data@).0;
    let mut c = xml_cursor(data);
    let mut events: Vec<XmlEvent> = Vec::new();
    assert(event_views(events@) =~= evs.take(0));
    loop
        invariant
            c.input() == data@,
            evs == xml_parse(data@).0,
            c.read() <= evs.len(),
            events@.len() == c.read(),
            event_views(events@) == evs.take(c.read() as int),
        decreases evs.len() - c.read(),
    {
        let ghost n = c.read();
        match next_xml_event(&mut c) {
            Ok(Some(e)) => {
                events.push(e);
                assert(event_views(events@) =~= evs.take(c.read() as int));
            },
            Ok(None) => {
                assert(evs.take(n as int) =~= evs);
                return (events, None);
            },
            Err(m) => {
                assert(evs.take(n as int) =~= evs);
                return (events, Some(m));
            },
        }
    }
}

/// The state of the reading of a Metalink document: the files read, the file
/// being read and the name of the last element opened.
pub struct ReadState {
    pub files: Seq<MetalinkFileView>,
    pub current: Option<MetalinkFileView>,
    pub tag: Seq<char>,
}

/// The `name` attribute of an element (the last one given), or empty text.
pub open spec fn name_attr(attrs: Seq<Option<(Seq<char>, Seq<char>)>>) -> Seq<char>
    decreases attrs.len(),
{
    if attrs.len() == 0 {
        Seq::empty()
    } else if attrs.last() matches Some((k, v)) && k == "name"@ {
        attrs.last()->Some_0.1
    } else {
        name_attr(attrs.drop_last())
    }
}

/// What text inside the last element opened does to the file being read.
pub open spec fn with_text(f: MetalinkFileView, tag: Seq<char>, text: Seq<char>) -> MetalinkFileView {
    if tag == "size"@ {
        MetalinkFileView { size: parse_u64(text), ..f }
    } else if tag == "hash"@ {
        MetalinkFileView { hash: Some(text), ..f }
    } else if tag == "url"@ {
        MetalinkFileView {
            resources: f.resources.push(ResourceView { uri: text, priority: 0, protocol: "http"@ }),
            ..f
        }
    } else {
        f
    }
}

/// One event applied to the reading state.
pub open spec fn read_step(st: ReadState, e: XmlEventView) -> ReadState {
    match e {
        XmlEventView::Start(n, attrs) => ReadState {
            tag: n,
            current: if n == "file"@ {
                Some(
                    MetalinkFileView {
                        name: name_attr(attrs),
                        size: None,
                        hash: None,
                        resources: Seq::empty(),
                    },
                )
            } else {
                st.current
            },
            files: st.files,
        },
        XmlEventView::Text(t) => ReadState {
            current: match st.current {
                Some(f) => Some(with_text(f, st.tag, t)),
                None => None,
            },
            ..st
        },
        XmlEventView::End(n) => if n == "file"@ {
            ReadState {
                files: match st.current {
                    Some(f) => st.files.push(f),
                    None => st.files,
                },
                current: None,
                tag: st.tag,
            }
        } else {
            st
        },
        XmlEventView::Other => st,
    }
}

/// The reading state after a list of events.
pub open spec fn read_events(events: Seq<XmlEventView>) -> ReadState
    decreases events.len(),
{
    if events.len() == 0 {
        ReadState { files: Seq::empty(), current: None, tag: Seq::empty() }
    } else {
        read_step(read_events(events.drop_last()), events.last())
    }
}

/// The files of a document given its events and the reader's error, or the
/// message of the error.
pub open spec fn metalink_of(events: Seq<XmlEventView>, error: Option<Seq<char>>) -> Result<
    Seq<MetalinkFileView>,
    Seq<char>,
> {
    match error {
        Some(m) => Err("Metalink XML error: "@ + m),
        None => Ok(read_events(events).files),
    }
}

fn name_attr_of(attrs: &Vec<Option<(String, String)>>) -> (r: String)
    ensures
        r@ == name_attr(attr_views(attrs@)),
{
    let ghost av = attr_views(attrs@);
    let mut name = String::new();
    let mut i: usize = 0;
    assert(av.take(0) =~= Seq::<Option<(Seq<char>, Seq<char>)>>::empty());
    while i < attrs.len()
        invariant
            i <= attrs@.len(),
            av == attr_views(attrs@),
            name@ == name_attr(av.take(i as int)),
        decreases attrs@.len() - i,
    {
        assert(av.take(i + 1).drop_last() =~= av.take(i as int));
        if let Some((k, v)) = &attrs[i] {
            if text_eq(k.as_str(), "name") {
                name = v.clone();
            }
        }
        i = i + 1;
    }
    assert(av.take(i as int) =~= av);
    name
}

impl Metalink {
    /// The files that a document's events describe: a `file` element starts a
    /// file named by its `name` attribute, text in `size`, `hash` and `url`
    /// elements fills it in (a size that is no number is none), its end adds
    /// it to the list. An error of the reader fails the whole document.
    pub fn from_events(events: &Vec<XmlEvent>, error: &Option<String>) -> (r: Result<
        Metalink,
        Error,
    >)
        ensures
            match metalink_of(event_views(events@), opt_text(*error)) {
                Ok(files) => r matches Ok(m) && file_list(m.files@) == files,
                Err(msg) => r matches Err(Error::Protocol(e)) && e@ == msg,
            },
    {
        if let Some(msg) = error {
            let mut e = str_to_string("Metalink XML error: ");
            push_str(&mut e, msg.as_str());
            return Err(Error::Protocol(e));
        }
        let ghost ev = event_views(events@);
        let mut files: Vec<MetalinkFile> = Vec::new();
        let mut current: Option<MetalinkFile> = None;
        let mut tag = String::new();
        let mut i: usize = 0;
        assert(ev.take(0) =~= Seq::<XmlEventView>::empty());
        while i < events.len()
            invariant
                i <= events@.len(),
                ev == event_views(events@),
                file_list(files@) == read_events(ev.take(i as int)).files,
                (match current {
                    Some(f) => read_events(ev.take(i as int)).current == Some(f@),
                    None => read_events(ev.take(i as int)).current is None,
                }),
                tag@ == read_events(ev.take(i as int)).tag,
            decreases events@.len() - i,
        {
            assert(ev.take(i + 1).drop_last() =~= ev.take(i as int));
            match &events[i] {
                XmlEvent::Start(name, attrs) => {
                    tag = name.clone();
                    if text_eq(name.as_str(), "file") {
                        let n = name_attr_of(attrs);
                        let f = MetalinkFile { name: n, size: None, hash: None, resources: Vec::new() };
                        assert(f@.resources =~= Seq::<ResourceView>::empty());
                        current = Some(f);
                    }
                },
                XmlEvent::Text(text) => {
                    let cur = current;
                    current = match cur {
                        Some(f) => Some(fill_in(f, &tag, text)),
                        None => None,
                    };
                },
                XmlEvent::End(name) => {
                    if text_eq(name.as_str(), "file") {
                        let cur = current;
                        current = None;
                        if let Some(f) = cur {
                            let ghost before = files@;
                            files.push(f);
                            assert(file_list(files@) =~= file_list(before).push(files@.last()@));
                        }
                    }
                },
                XmlEvent::Other => {},
            }
            i = i + 1;
        }
        assert(ev.take(i as int) =~= ev);
        Ok(Metalink { files })
    }

    /// Parses a Metalink (v3 or v4) document.
    pub fn parse(data: &[u8]) -> (r: Result<Metalink, Error>)
        ensures
            match metalink_of(xml_parse(data@).0, xml_parse(data@).1) {
                Ok(files) => r matches Ok(m) && file_list(m.files@) == files,
                Err(msg) => r matches Err(Error::Protocol(e)) && e@ == msg,
            },
    {
        let (events, error) = xml_events(data);
        Metalink::from_events(&events, &error)
    }
}

/// The file being read once text comes inside the element `tag`.
fn fill_in(f: MetalinkFile, tag: &String, text: &String) -> (r: MetalinkFile)
    ensures
        r@ == with_text(f@, tag@, text@),
{
    let mut f = f;
    if text_eq(tag.as_str(), "size") {
        f.size = parse_u64_of(text.as_str());
    } else if text_eq(tag.as_str(), "hash") {
        f.hash = Some(text.clone());
    } else if text_eq(tag.as_str(), "url") {
        let ghost before = f.resources@;
        f.resources.push(
            MetalinkResource { uri: text.clone(), priority: 0, protocol: str_to_string("http") },
        );
        assert(f.resources@.map_values(|r: MetalinkResource| r@) =~= before.map_values(
            |r: MetalinkResource| r@,
        ).push(ResourceView { uri: text@, priority: 0, protocol: "http"@ }));
    }
    f
}

} // verus!
