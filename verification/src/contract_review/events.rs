//! The events of an XML reader, and the text of a run read from them.
use vstd::prelude::*;
use vstd::utf8::*;
use quick_xml::events::Event;
use quick_xml::reader::Reader;
use crate::bytes::bytes_are;
use crate::text::same_text;

verus! {

/// The streaming reader of quick_xml.
#[verifier::external_type_specification]
#[verifier::external_body]
#[verifier::reject_recursive_types(R)]
pub struct ExReader<R>(Reader<R>);

/// One event of an XML document. Tags carry their name without its prefix.
pub enum RunEvent {
    Start(Vec<u8>),
    End(Vec<u8>),
    Empty(Vec<u8>),
    /// Character data, if it could be decoded.
    Text(Option<String>),
    /// A reference between `&` and `;`: the character of a numeric one, and
    /// the name.
    Reference(Option<char>, Option<String>),
    Other,
    /// The end of the document, or the first error in it.
    Stop,
}

/// What an event says.
pub enum EventModel {
    Start(Seq<u8>),
    End(Seq<u8>),
    Empty(Seq<u8>),
    Text(Option<Seq<char>>),
    Reference(Option<char>, Option<Seq<char>>),
    Other,
    Stop,
}

pub open spec fn opt_text(s: Option<String>) -> Option<Seq<char>> {
    match s {
        Some(t) => Some(t@),
        None => None,
    }
}

impl View for RunEvent {
    type V = EventModel;

    open spec fn view(&self) -> EventModel {
        match *self {
            RunEvent::Start(n) => EventModel::Start(n@),
            RunEvent::End(n) => EventModel::End(n@),
            RunEvent::Empty(n) => EventModel::Empty(n@),
            RunEvent::Text(t) => EventModel::Text(opt_text(t)),
            RunEvent::Reference(c, n) => EventModel::Reference(c, opt_text(n)),
            RunEvent::Other => EventModel::Other,
            RunEvent::Stop => EventModel::Stop,
        }
    }
}

/// The events that quick_xml reads from a document, up to and with the first
/// `Stop`.
pub uninterp spec fn xml_events(xml: Seq<char>) -> Seq<EventModel>;

/// The events that a reader has still to give, up to and with the first `Stop`.
pub uninterp spec fn pending_events(reader: &Reader<&[u8]>) -> Seq<EventModel>;

/// A sequence of events that ends with its only `Stop`.
pub open spec fn stops_at_end(events: Seq<EventModel>) -> bool {
    &&& events.len() > 0
    &&& events.last() is Stop
    &&& forall|i: int| 0 <= i < events.len() - 1 ==> !(#[trigger] events[i] is Stop)
}

/// `quick_xml::reader::Reader::from_str` makes a reader of a document. What it
/// will give depends on the document alone, and every event but the last takes
/// at least one byte, so the events come to an end.
#[verifier::external_body]
fn open_reader(xml: &str) -> (reader: Reader<&[u8]>)
    ensures
        pending_events(&reader) == xml_events(xml@),
        stops_at_end(pending_events(&reader)),
{
    Reader::from_str(xml)
}

/// `quick_xml::reader::Reader::read_event` hands out the next event. Text is
/// decoded by `BytesText::xml_content`, a numeric reference by
/// `BytesRef::resolve_char_ref`.
#[verifier::external_body]
fn next_event(reader: &mut Reader<&[u8]>) -> (event: RunEvent)
    requires
        pending_events(old(reader)).len() > 0,
    ensures
        event@ == pending_events(old(reader))[0],
        pending_events(final(reader)) == pending_events(old(reader)).drop_first(),
{
    match reader.read_event() {
        Ok(Event::Start(e)) => RunEvent::Start(e.local_name().as_ref().to_vec()),
        Ok(Event::End(e)) => RunEvent::End(e.local_name().as_ref().to_vec()),
        Ok(Event::Empty(e)) => RunEvent::Empty(e.local_name().as_ref().to_vec()),
        Ok(Event::Text(e)) => RunEvent::Text(e.xml_content().ok().map(Into::into)),
        Ok(Event::GeneralRef(e)) => RunEvent::Reference(
            e.resolve_char_ref().ok().flatten(),
            e.decode().ok().map(Into::into),
        ),
        Ok(Event::Eof) | Err(_) => RunEvent::Stop,
        Ok(_) => RunEvent::Other,
    }
}

/// The views of a sequence of events.
pub open spec fn event_models(v: Seq<RunEvent>) -> Seq<EventModel> {
    Seq::new(v.len(), |i: int| v[i]@)
}

/// All events of a document, in order.
pub fn read_events(xml: &str) -> (r: Vec<RunEvent>)
    ensures
        event_models(r@) == xml_events(xml@),
{
    let mut reader = open_reader(xml);
    let ghost all = pending_events(&reader);
    let mut r: Vec<RunEvent> = Vec::new();
    assert(event_models(r@) + pending_events(&reader) =~= all);
    loop
        invariant_except_break
            event_models(r@) + pending_events(&reader) == all,
            pending_events(&reader).len() > 0,
        invariant
            all == xml_events(xml@),
            stops_at_end(all),
        ensures
            event_models(r@) == all,
        decreases pending_events(&reader).len(),
    {
        let ghost before = pending_events(&reader);
        let ghost done = event_models(r@);
        let event = next_event(&mut reader);
        let stop = matches!(event, RunEvent::Stop);
        assert(all[done.len() as int] == before[0]);
        r.push(event);
        assert(event_models(r@) =~= done.push(before[0]));
        assert(event_models(r@) + pending_events(&reader) =~= all);
        if stop {
            assert(pending_events(&reader).len() == 0);
            assert(event_models(r@) =~= all);
            break;
        }
    }
    r
}

/// Where the reading of a run stands.
pub struct RunState {
    pub text: Seq<char>,
    /// Nothing but formatting, text, breaks and tabs was met.
    pub simple: bool,
    /// How many `rPr` elements are open.
    pub depth: int,
    /// Inside a `t` element.
    pub in_t: bool,
}

/// The character of one of the five entities that XML predefines.
pub open spec fn entity_char(name: Seq<char>) -> Option<char> {
    if name == "lt"@ {
        Some('<')
    } else if name == "gt"@ {
        Some('>')
    } else if name == "amp"@ {
        Some('&')
    } else if name == "apos"@ {
        Some('\'')
    } else if name == "quot"@ {
        Some('"')
    } else {
        None
    }
}

/// The character that a reference stands for.
pub open spec fn reference_char(code: Option<char>, name: Option<Seq<char>>) -> Option<char> {
    match code {
        Some(c) => Some(c),
        None => match name {
            Some(n) => entity_char(n),
            None => None,
        },
    }
}

/// What one event does to the state: formatting (`rPr`) is passed over, a
/// break is a line feed, a tab a tab, character data counts inside `t` only,
/// and any other element makes the run more than plain text.
pub open spec fn run_step(st: RunState, event: EventModel) -> RunState {
    match event {
        EventModel::Start(n) => if n == encode_utf8("rPr"@) {
            RunState { depth: st.depth + 1, ..st }
        } else if st.depth > 0 || n == encode_utf8("r"@) {
            st
        } else if n == encode_utf8("t"@) {
            RunState { in_t: true, ..st }
        } else {
            RunState { simple: false, ..st }
        },
        EventModel::End(n) => if n == encode_utf8("rPr"@) {
            RunState { depth: st.depth - 1, ..st }
        } else if n == encode_utf8("t"@) {
            RunState { in_t: false, ..st }
        } else {
            st
        },
        EventModel::Empty(n) => if st.depth > 0 {
            st
        } else if n == encode_utf8("br"@) {
            RunState { text: st.text.push('\n'), ..st }
        } else if n == encode_utf8("tab"@) {
            RunState { text: st.text.push('\t'), ..st }
        } else if n == encode_utf8("rPr"@) || n == encode_utf8("t"@) {
            st
        } else {
            RunState { simple: false, ..st }
        },
        EventModel::Text(Some(t)) => if st.in_t && st.depth == 0 {
            RunState { text: st.text + t, ..st }
        } else {
            st
        },
        EventModel::Reference(code, name) => if st.in_t && st.depth == 0 {
            match reference_char(code, name) {
                Some(c) => RunState { text: st.text.push(c), ..st },
                None => st,
            }
        } else {
            st
        },
        _ => st,
    }
}

/// The state after some events.
pub open spec fn run_state(events: Seq<EventModel>) -> RunState
    decreases events.len(),
{
    if events.len() == 0 {
        RunState { text: Seq::empty(), simple: true, depth: 0, in_t: false }
    } else {
        run_step(run_state(events.drop_last()), events.last())
    }
}

fn resolve_reference(code: &Option<char>, name: &Option<String>) -> (r: Option<char>)
    ensures
        r == reference_char(*code, opt_text(*name)),
{
    if let Some(c) = code {
        return Some(*c);
    }
    match name {
        Some(n) => if same_text(n.as_str(), "lt") {
            Some('<')
        } else if same_text(n.as_str(), "gt") {
            Some('>')
        } else if same_text(n.as_str(), "amp") {
            Some('&')
        } else if same_text(n.as_str(), "apos") {
            Some('\'')
        } else if same_text(n.as_str(), "quot") {
            Some('"')
        } else {
            None
        },
        None => None,
    }
}

/// The text that the events of a run make, and whether the run is plain text.
pub fn fold_run_events(events: &Vec<RunEvent>) -> (r: (String, bool))
    ensures
        r.0@ == run_state(event_models(events@)).text,
        r.1 == run_state(event_models(events@)).simple,
{
    let mut text = String::new();
    let mut simple = true;
    let mut depth: i128 = 0;
    let mut in_t = false;
    let n: usize = events.len();
    let mut i: usize = 0;
    assert(event_models(events@).subrange(0, 0) =~= Seq::<EventModel>::empty());
    while i < n
        invariant
            n == events@.len(),
            i <= n,
            -(i as int) <= depth <= i,
            run_state(event_models(events@).subrange(0, i as int)) == (RunState {
                text: text@,
                simple,
                depth: depth as int,
                in_t,
            }),
        decreases n - i,
    {
        let ghost next = event_models(events@).subrange(0, i + 1);
        assert(next.drop_last() =~= event_models(events@).subrange(0, i as int));
        assert(next.last() == events@[i as int]@);
        match &events[i] {
            RunEvent::Start(name) => {
                if bytes_are(name.as_slice(), "rPr") {
                    depth = depth + 1;
                } else if depth > 0 || bytes_are(name.as_slice(), "r") {
                } else if bytes_are(name.as_slice(), "t") {
                    in_t = true;
                } else {
                    simple = false;
                }
            },
            RunEvent::End(name) => {
                if bytes_are(name.as_slice(), "rPr") {
                    depth = depth - 1;
                } else if bytes_are(name.as_slice(), "t") {
                    in_t = false;
                }
            },
            RunEvent::Empty(name) => {
                if depth > 0 {
                } else if bytes_are(name.as_slice(), "br") {
                    text.push('\n');
                } else if bytes_are(name.as_slice(), "tab") {
                    text.push('\t');
                } else if bytes_are(name.as_slice(), "rPr") || bytes_are(name.as_slice(), "t") {
                } else {
                    simple = false;
                }
            },
            RunEvent::Text(data) => {
                if in_t && depth == 0 {
                    if let Some(t) = data {
                        text.append(t.as_str());
                    }
                }
            },
            RunEvent::Reference(code, name) => {
                if in_t && depth == 0 {
                    if let Some(c) = resolve_reference(code, name) {
                        text.push(c);
                    }
                }
            },
            RunEvent::Other | RunEvent::Stop => {},
        }
        i = i + 1;
    }
    assert(event_models(events@).subrange(0, n as int) =~= event_models(events@));
    (text, simple)
}

/// The text of a run only grows, and only by what stands in its text elements,
/// by breaks and by tabs. Nothing inside its formatting counts, and a run that
/// holds anything else is not plain.
pub proof fn only_words_and_breaks_are_text(st: RunState, event: EventModel)
    ensures
        ({
            let after = run_step(st, event);
            &&& st.text.is_prefix_of(after.text)
            &&& !st.simple ==> !after.simple
            &&& st.depth > 0 ==> after.text == st.text && after.simple == st.simple
            &&& st.depth == 0 ==> match event {
                EventModel::Text(Some(t)) => after.simple == st.simple && (st.in_t ==> after.text
                    == st.text + t) && (!st.in_t ==> after.text == st.text),
                EventModel::Empty(n) => (n == encode_utf8("br"@) ==> after.text == st.text.push(
                    '\n',
                ) && after.simple == st.simple) && (n != encode_utf8("br"@) && n == encode_utf8(
                    "tab"@,
                ) ==> after.text == st.text.push('\t') && after.simple == st.simple) && (n
                    != encode_utf8("br"@) && n != encode_utf8("tab"@) ==> after.text == st.text)
                    && (n != encode_utf8("br"@) && n != encode_utf8("tab"@) && n != encode_utf8(
                    "rPr"@,
                ) && n != encode_utf8("t"@) ==> !after.simple),
                EventModel::Start(n) => after.text == st.text && (n == encode_utf8("t"@) && n
                    != encode_utf8("rPr"@) && n != encode_utf8("r"@) ==> after.in_t && after.simple
                    == st.simple) && (n != encode_utf8("t"@) && n != encode_utf8("rPr"@) && n
                    != encode_utf8("r"@) ==> !after.simple),
                EventModel::End(_) => after.text == st.text && after.simple == st.simple,
                EventModel::Reference(code, name) => after.simple == st.simple && (st.in_t
                    && code is Some ==> after.text == st.text.push(code->0)) && (st.in_t
                    && code is None && name == Some("amp"@) ==> after.text == st.text.push('&'))
                    && (!st.in_t ==> after.text == st.text),
                _ => after.text == st.text && after.simple == st.simple,
            }
        }),
{
    let after = run_step(st, event);
    reveal_strlit("lt");
    reveal_strlit("gt");
    reveal_strlit("amp");
    assert("amp"@.len() == 3);
    assert(after.text.subrange(0, st.text.len() as int) =~= st.text);
}

/// A run is read event by event, from the beginning and with nothing left out.
pub proof fn runs_are_read_event_by_event(events: Seq<EventModel>, event: EventModel)
    ensures
        run_state(events.push(event)) == run_step(run_state(events), event),
        run_state(Seq::empty()).text.len() == 0,
        run_state(Seq::empty()).simple,
{
    assert(events.push(event).drop_last() =~= events);
}

/// The words of an ordinary run are its text, and such a run is plain.
pub proof fn ordinary_runs_hold_their_words(words: Seq<char>)
    ensures
        ({
            let st = run_state(
                seq![
                    EventModel::Start(encode_utf8("r"@)),
                    EventModel::Start(encode_utf8("t"@)),
                    EventModel::Text(Some(words)),
                    EventModel::End(encode_utf8("t"@)),
                    EventModel::End(encode_utf8("r"@)),
                ],
            );
            st.text == words && st.simple
        }),
{
    let r = EventModel::Start(encode_utf8("r"@));
    let t = EventModel::Start(encode_utf8("t"@));
    let w = EventModel::Text(Some(words));
    let u = EventModel::End(encode_utf8("t"@));
    let v = EventModel::End(encode_utf8("r"@));
    reveal_strlit("r");
    reveal_strlit("t");
    reveal_strlit("rPr");
    encode_utf8_decode_utf8("r"@);
    encode_utf8_decode_utf8("t"@);
    encode_utf8_decode_utf8("rPr"@);
    assert("r"@ != "t"@) by {
        assert("r"@[0] != "t"@[0]);
    }
    assert("rPr"@.len() != "r"@.len() && "rPr"@.len() != "t"@.len());
    let s0 = Seq::<EventModel>::empty();
    let s1 = s0.push(r);
    let s2 = s1.push(t);
    let s3 = s2.push(w);
    let s4 = s3.push(u);
    runs_are_read_event_by_event(s0, r);
    runs_are_read_event_by_event(s1, t);
    runs_are_read_event_by_event(s2, w);
    runs_are_read_event_by_event(s3, u);
    runs_are_read_event_by_event(s4, v);
    assert(s4.push(v) =~= seq![r, t, w, u, v]);
    assert(Seq::<char>::empty() + words =~= words);
}

/// A reference stands for the character of its code, or else for the one of its name,
/// of which there are five.
pub proof fn references_stand_for_their_characters(code: char, name: Seq<char>)
    ensures
        reference_char(Some(code), None) == Some(code),
        reference_char(Some(code), Some(name)) == Some(code),
        reference_char(None, None) is None,
        reference_char(None, Some("lt"@)) == Some('<'),
        reference_char(None, Some("gt"@)) == Some('>'),
        reference_char(None, Some("amp"@)) == Some('&'),
        reference_char(None, Some("apos"@)) == Some('\''),
        reference_char(None, Some("quot"@)) == Some('"'),
        name != "lt"@ && name != "gt"@ && name != "amp"@ && name != "apos"@ && name != "quot"@
            ==> reference_char(None, Some(name)) is None,
{
    reveal_strlit("lt");
    reveal_strlit("gt");
    reveal_strlit("amp");
    reveal_strlit("apos");
    reveal_strlit("quot");
    assert("lt"@[0] == 'l' && "gt"@[0] == 'g' && "apos"@[0] == 'a' && "quot"@[0] == 'q');
    assert("lt"@.len() == 2 && "gt"@.len() == 2 && "amp"@.len() == 3 && "apos"@.len() == 4
        && "quot"@.len() == 4);
}

} // verus!
