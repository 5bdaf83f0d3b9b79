//! The host side of an asynchronous-event plugin: the list of event names
//! the plugin declared, the queue of events it emitted, and the event most
//! recently handed out.
use vstd::prelude::*;
use std::collections::VecDeque;
use crate::envelope::{
    Event, EventMetadata, RawEvent, decode_payload, header_len, header_ok, opt_view,
};
use crate::registry::{EventKind, kind_layout};
use crate::value::{FieldVal, FieldValue};
use crate::wire::le_value;

verus! {

/// The call succeeded.
pub const PLUGIN_SUCCESS: i32 = 0;

/// The call failed.
pub const PLUGIN_FAILURE: i32 = 1;

/// No event is available yet.
pub const PLUGIN_TIMEOUT: i32 = -1;

/// The plugin does not offer the capability.
pub const PLUGIN_NOT_SUPPORTED: i32 = 3;

/// The names in a JSON array of strings, each as its UTF-8 bytes; `None`
/// where the bytes are not such an array.
pub uninterp spec fn json_string_list(b: Seq<u8>) -> Option<Seq<Seq<u8>>>;

/// Relies on `serde_json::from_slice::<Vec<String>>`: parses a JSON array of
/// strings; the outcome depends on the bytes alone.
#[verifier::external_body]
fn parse_string_list(b: &[u8]) -> (r: Option<Vec<Vec<u8>>>)
    ensures
        match r {
            Some(v) => json_string_list(b@) == Some(Seq::new(v@.len(), |i: int| v@[i]@)),
            None => json_string_list(b@) is None,
        },
{
    serde_json::from_slice::<Vec<String>>(b).ok().map(|v| v.into_iter().map(|s| s.into_bytes()).collect())
}

/// An asynchronous-event plugin as the host sees it.
#[derive(Debug)]
pub struct AsyncPlugin {
    /// The names of the events the plugin may emit.
    pub async_events: Vec<Vec<u8>>,
    /// The event most recently handed out by `next_event`.
    pub last_event: Option<Vec<u8>>,
    /// Events emitted and not yet handed out, oldest first.
    pub event_queue: VecDeque<Vec<u8>>,
}

pub open spec fn names_view(v: Seq<Vec<u8>>) -> Seq<Seq<u8>> {
    Seq::new(v.len(), |i: int| v[i]@)
}

/// The name carried by an asynchronous event, if `b` is one that decodes
/// and has a name.
pub open spec fn async_event_name(b: Seq<u8>) -> Option<Seq<u8>> {
    if !header_ok(b) || le_value(b.subrange(20, 22)) != 402 {
        None
    } else {
        match decode_payload(
            kind_layout(EventKind::AsyncEventE),
            b.subrange(24, header_len(b) as int),
            le_value(b.subrange(22, 24)),
            true,
        ) {
            Ok(ps) => match ps[1] {
                Some(FieldVal::CharBuf(name)) => Some(name),
                _ => None,
            },
            Err(_) => None,
        }
    }
}

/// The event `b` is accepted: an asynchronous event whose name is declared.
pub open spec fn accepts_event(names: Seq<Seq<u8>>, b: Seq<u8>) -> bool {
    match async_event_name(b) {
        Some(name) => names.contains(name),
        None => false,
    }
}

fn bytes_eq(a: &[u8], b: &[u8]) -> (r: bool)
    ensures
        r == (a@ == b@),
{
    if a.len() != b.len() {
        return false;
    }
    let mut i: usize = 0;
    while i < a.len()
        invariant
            a@.len() == b@.len(),
            i <= a@.len(),
            a@.take(i as int) == b@.take(i as int),
        decreases a@.len() - i,
    {
        if a[i] != b[i] {
            assert(a@[i as int] != b@[i as int]);
            return false;
        }
        assert(a@.take(i + 1) =~= a@.take(i as int).push(a@[i as int]));
        assert(b@.take(i + 1) =~= b@.take(i as int).push(b@[i as int]));
        i = i + 1;
    }
    assert(a@ =~= a@.take(i as int));
    assert(b@ =~= b@.take(i as int));
    true
}

/// Copies a slice into a vector.
fn to_vec(s: &[u8]) -> (r: Vec<u8>)
    ensures
        r@ == s@,
{
    let mut v: Vec<u8> = Vec::new();
    crate::wire::write_bytes(s, &mut v);
    v
}

impl AsyncPlugin {
    /// A plugin whose declared names are the JSON array of strings that it
    /// reported, if any; no names where it reported none or an unreadable
    /// list.
    pub fn new(async_events_json: Option<&[u8]>) -> (r: Self)
        ensures
            r.last_event is None,
            r.event_queue@.len() == 0,
            names_view(r.async_events@) == match async_events_json {
                Some(b) => match json_string_list(b@) {
                    Some(names) => names,
                    None => Seq::empty(),
                },
                None => Seq::empty(),
            },
    {
        let async_events = match async_events_json {
            Some(b) => match parse_string_list(b) {
                Some(v) => v,
                None => Vec::new(),
            },
            None => Vec::new(),
        };
        proof {
            assert(names_view(async_events@) =~= match async_events_json {
                Some(b) => match json_string_list(b@) {
                    Some(names) => names,
                    None => Seq::empty(),
                },
                None => Seq::<Seq<u8>>::empty(),
            });
        }
        AsyncPlugin { async_events, last_event: None, event_queue: VecDeque::new() }
    }

    /// Takes an event emitted by the plugin: queues it when it is an
    /// asynchronous event with a declared name, and reports success; reports
    /// failure and leaves the plugin as it was otherwise.
    pub fn handle_async_event(&mut self, event: &[u8]) -> (rc: i32)
        ensures
            accepts_event(names_view(old(self).async_events@), event@) ==> {
                &&& rc == PLUGIN_SUCCESS
                &&& final(self).event_queue@.len() == old(self).event_queue@.len() + 1
                &&& final(self).event_queue@.drop_last() == old(self).event_queue@
                &&& final(self).event_queue@.last()@ == event@
                &&& final(self).async_events == old(self).async_events
                &&& final(self).last_event == old(self).last_event
            },
            !accepts_event(names_view(old(self).async_events@), event@) ==> {
                &&& rc == PLUGIN_FAILURE
                &&& *final(self) == *old(self)
            },
    {
        let name = match event_name(event) {
            Some(n) => n,
            None => return PLUGIN_FAILURE,
        };
        let mut i: usize = 0;
        let mut found = false;
        while i < self.async_events.len()
            invariant
                i <= self.async_events@.len(),
                found == exists|j: int| 0 <= j < i && self.async_events@[j]@ == name@,
            decreases self.async_events@.len() - i,
        {
            if bytes_eq(self.async_events[i].as_slice(), name) {
                found = true;
            }
            i = i + 1;
        }
        proof {
            let names = names_view(self.async_events@);
            if found {
                let j = choose|j: int| 0 <= j < i && self.async_events@[j]@ == name@;
                assert(names[j] == name@);
            } else {
                assert forall|j: int| 0 <= j < names.len() implies names[j] != name@ by {
                    assert(names[j] == self.async_events@[j]@);
                }
            }
        }
        if !found {
            return PLUGIN_FAILURE;
        }
        let copy = to_vec(event);
        self.event_queue.push_back(copy);
        proof {
            assert(self.event_queue@.drop_last() =~= old(self).event_queue@);
        }
        PLUGIN_SUCCESS
    }

    /// Hands out the oldest queued event, which stays held as the last
    /// event; reports a timeout when the queue is empty.
    pub fn next_event(&mut self) -> (r: Result<Vec<u8>, i32>)
        ensures
            old(self).event_queue@.len() == 0 ==> {
                &&& r == Err::<Vec<u8>, i32>(PLUGIN_TIMEOUT)
                &&& final(self).last_event is None
                &&& final(self).event_queue@ == old(self).event_queue@
            },
            old(self).event_queue@.len() > 0 ==> {
                &&& r matches Ok(e) && e@ == old(self).event_queue@[0]@
                &&& final(self).last_event == Some(old(self).event_queue@[0])
                &&& final(self).event_queue@ == old(self).event_queue@.drop_first()
            },
            final(self).async_events == old(self).async_events,
    {
        self.last_event = self.event_queue.pop_front();
        proof {
            assert(old(self).event_queue@.len() > 0 ==> self.event_queue@
                =~= old(self).event_queue@.drop_first());
        }
        match &self.last_event {
            Some(evt) => Ok(to_vec(evt.as_slice())),
            None => Err(PLUGIN_TIMEOUT),
        }
    }
}

/// The name carried by the asynchronous event in `b`.
fn event_name(b: &[u8]) -> (r: Option<&[u8]>)
    ensures
        match async_event_name(b@) {
            Some(name) => r matches Some(n) && n@ == name,
            None => r is None,
        },
{
    let raw = match RawEvent::from(b) {
        Ok(raw) => raw,
        Err(_) => return None,
    };
    let ev = match raw.load(EventKind::AsyncEventE) {
        Ok(ev) => ev,
        Err(_) => return None,
    };
    proof {
        assert(kind_layout(EventKind::AsyncEventE).len() == 3);
        crate::envelope::lemma_decode_payload_len(
            kind_layout(EventKind::AsyncEventE),
            raw.payload@,
            raw.nparams as nat,
            true,
        );
    }
    let ghost ps = opt_view(ev.params@);
    assert(ev.params@.len() == ps.len());
    if ev.params.len() < 2 {
        return None;
    }
    match &ev.params[1] {
        Some(FieldValue::CharBuf(n)) => Some(*n),
        _ => None,
    }
}

/// An asynchronous event as a plugin creates it: no plugin id yet (the host
/// fills it in), zero metadata, the given name and data.
pub fn async_event<'a>(name: &'a [u8], data: &'a [u8]) -> (e: Event<'a>)
    ensures
        e.kind == EventKind::AsyncEventE,
        e.metadata == (EventMetadata { ts: 0, tid: 0 }),
        opt_view(e.params@) == seq![
            Some(FieldVal::U32(0)),
            Some(FieldVal::CharBuf(name@)),
            Some(FieldVal::ByteBuf(data@)),
        ],
{
    let mut params: Vec<Option<FieldValue<'a>>> = Vec::new();
    params.push(Some(FieldValue::U32(0)));
    params.push(Some(FieldValue::CharBuf(name)));
    params.push(Some(FieldValue::ByteBuf(data)));
    let e = Event {
        metadata: EventMetadata { ts: 0, tid: 0 },
        kind: EventKind::AsyncEventE,
        params,
    };
    assert(opt_view(e.params@) =~= seq![
        Some(FieldVal::U32(0)),
        Some(FieldVal::CharBuf(name@)),
        Some(FieldVal::ByteBuf(data@)),
    ]);
    e
}

/// The outcome of installing or removing the plugin's event handler:
/// `rc` is the plugin's return code, or `None` where it offers no handler
/// entry point at all.
pub fn handler_outcome(rc: Option<i32>) -> (r: Result<(), i32>)
    ensures
        rc is None ==> r == Err::<(), i32>(PLUGIN_NOT_SUPPORTED),
        rc == Some(PLUGIN_SUCCESS) ==> r == Ok::<(), i32>(()),
        rc matches Some(c) ==> (c != PLUGIN_SUCCESS ==> r == Err::<(), i32>(c)),
{
    match rc {
        None => Err(PLUGIN_NOT_SUPPORTED),
        Some(c) => if c == PLUGIN_SUCCESS {
            Ok(())
        } else {
            Err(c)
        },
    }
}

} // verus!
