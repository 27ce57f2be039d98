use vstd::prelude::*;

use vstd::string::StringExecFns;

use crate::cursor::Cursor;
use crate::error::Error;
use crate::types::{spec_inet_from, spec_string_from, CInet, CString};
use crate::FromCursor;

verus! {

/// The three event types a server may push after REGISTER.
#[derive(Clone, Copy, Debug, PartialEq, Eq, Structural)]
pub enum EventType {
    TopologyChange,
    StatusChange,
    SchemaChange,
}

/// The event type an event-type name denotes, if any.
pub open spec fn spec_event_type_of(s: Seq<char>) -> Option<EventType> {
    if s == "TOPOLOGY_CHANGE"@ {
        Some(EventType::TopologyChange)
    } else if s == "STATUS_CHANGE"@ {
        Some(EventType::StatusChange)
    } else if s == "SCHEMA_CHANGE"@ {
        Some(EventType::SchemaChange)
    } else {
        None
    }
}

/// Maps an event-type name to its event type.
pub fn event_type_of(name: &CString) -> (r: Option<EventType>)
    ensures
        r == spec_event_type_of(name@),
{
    let n = name.as_plain();
    if n == String::from_str("TOPOLOGY_CHANGE") {
        Some(EventType::TopologyChange)
    } else if n == String::from_str("STATUS_CHANGE") {
        Some(EventType::StatusChange)
    } else if n == String::from_str("SCHEMA_CHANGE") {
        Some(EventType::SchemaChange)
    } else {
        None
    }
}

/// A server-pushed event: a node change with the affected address, or a
/// schema change naming the keyspace and, below keyspace level, the object.
#[derive(Debug, Clone, PartialEq)]
pub enum ServerEvent {
    TopologyChange { change: CString, node: CInet },
    StatusChange { change: CString, node: CInet },
    SchemaChange { change: CString, target: CString, keyspace: CString, name: Option<CString> },
}

/// A decoded event as a mathematical value.
pub enum ServerEventVal {
    TopologyChange { change: Seq<char>, node: (Seq<u8>, int) },
    StatusChange { change: Seq<char>, node: (Seq<u8>, int) },
    SchemaChange {
        change: Seq<char>,
        target: Seq<char>,
        keyspace: Seq<char>,
        name: Option<Seq<char>>,
    },
}

impl View for ServerEvent {
    type V = ServerEventVal;

    open spec fn view(&self) -> ServerEventVal {
        match self {
            ServerEvent::TopologyChange { change, node } => ServerEventVal::TopologyChange {
                change: change@,
                node: node@,
            },
            ServerEvent::StatusChange { change, node } => ServerEventVal::StatusChange {
                change: change@,
                node: node@,
            },
            ServerEvent::SchemaChange { change, target, keyspace, name } => {
                ServerEventVal::SchemaChange {
                    change: change@,
                    target: target@,
                    keyspace: keyspace@,
                    name: match name {
                        Some(n) => Some(n@),
                        None => None,
                    },
                }
            },
        }
    }
}

/// What decoding an EVENT body off the front of `s` yields: the event-type
/// name, then fields by type — a change string and the affected `[inet]`
/// for node events; change, target and names for schema events, where a
/// keyspace-level target carries no object name.  An unknown event type is
/// a protocol violation.
pub open spec fn spec_event_from(s: Seq<u8>) -> Result<(ServerEventVal, int), Error> {
    match spec_string_from(s) {
        Err(e) => Err(e),
        Ok((et, a)) => match spec_event_type_of(et) {
            None => Err(Error::Protocol),
            Some(EventType::TopologyChange) => match spec_string_from(s.skip(a)) {
                Err(e) => Err(e),
                Ok((chg, b)) => match spec_inet_from(s.skip(a + b)) {
                    Err(e) => Err(e),
                    Ok((node, c)) => Ok(
                        (ServerEventVal::TopologyChange { change: chg, node }, a + b + c),
                    ),
                },
            },
            Some(EventType::StatusChange) => match spec_string_from(s.skip(a)) {
                Err(e) => Err(e),
                Ok((chg, b)) => match spec_inet_from(s.skip(a + b)) {
                    Err(e) => Err(e),
                    Ok((node, c)) => Ok(
                        (ServerEventVal::StatusChange { change: chg, node }, a + b + c),
                    ),
                },
            },
            Some(EventType::SchemaChange) => match spec_string_from(s.skip(a)) {
                Err(e) => Err(e),
                Ok((chg, b)) => match spec_string_from(s.skip(a + b)) {
                    Err(e) => Err(e),
                    Ok((target, c)) => match spec_string_from(s.skip(a + b + c)) {
                        Err(e) => Err(e),
                        Ok((keyspace, d)) => {
                            if target == "KEYSPACE"@ {
                                Ok(
                                    (
                                        ServerEventVal::SchemaChange {
                                            change: chg,
                                            target,
                                            keyspace,
                                            name: None,
                                        },
                                        a + b + c + d,
                                    ),
                                )
                            } else {
                                match spec_string_from(s.skip(a + b + c + d)) {
                                    Err(e) => Err(e),
                                    Ok((nm, e)) => Ok(
                                        (
                                            ServerEventVal::SchemaChange {
                                                change: chg,
                                                target,
                                                keyspace,
                                                name: Some(nm),
                                            },
                                            a + b + c + d + e,
                                        ),
                                    ),
                                }
                            }
                        },
                    },
                },
            },
        },
    }
}

/// Decodes the body of an EVENT frame.
pub fn decode_event_body(cursor: &mut Cursor) -> (r: Result<ServerEvent, Error>)
    requires
        old(cursor).wf(),
    ensures
        final(cursor).wf(),
        final(cursor)@ == old(cursor)@,
        match spec_event_from(old(cursor).remaining()) {
            Ok(p) => r is Ok && r->Ok_0@ == p.0 && final(cursor).spec_pos() == old(
                cursor,
            ).spec_pos() + p.1,
            Err(e) => r is Err && r->Err_0 == e,
        },
{
    let ghost s = old(cursor).remaining();
    let et = match CString::from_cursor(cursor) {
        Ok(v) => v,
        Err(e) => {
            return Err(e);
        },
    };
    let ghost a = spec_string_from(s)->Ok_0.1;
    proof {
        assert(cursor.remaining() =~= s.skip(a));
    }
    let kind = match event_type_of(&et) {
        Some(k) => k,
        None => {
            return Err(Error::Protocol);
        },
    };
    match kind {
        EventType::TopologyChange | EventType::StatusChange => {
            let change = match CString::from_cursor(cursor) {
                Ok(v) => v,
                Err(e) => {
                    return Err(e);
                },
            };
            let ghost b = spec_string_from(s.skip(a))->Ok_0.1;
            proof {
                assert(cursor.remaining() =~= s.skip(a + b));
            }
            let node = match CInet::from_cursor(cursor) {
                Ok(v) => v,
                Err(e) => {
                    return Err(e);
                },
            };
            match kind {
                EventType::TopologyChange => Ok(ServerEvent::TopologyChange { change, node }),
                _ => Ok(ServerEvent::StatusChange { change, node }),
            }
        },
        EventType::SchemaChange => {
            let change = match CString::from_cursor(cursor) {
                Ok(v) => v,
                Err(e) => {
                    return Err(e);
                },
            };
            let ghost b = spec_string_from(s.skip(a))->Ok_0.1;
            proof {
                assert(cursor.remaining() =~= s.skip(a + b));
            }
            let target = match CString::from_cursor(cursor) {
                Ok(v) => v,
                Err(e) => {
                    return Err(e);
                },
            };
            let ghost c = spec_string_from(s.skip(a + b))->Ok_0.1;
            proof {
                assert(cursor.remaining() =~= s.skip(a + b + c));
            }
            let keyspace = match CString::from_cursor(cursor) {
                Ok(v) => v,
                Err(e) => {
                    return Err(e);
                },
            };
            let ghost d = spec_string_from(s.skip(a + b + c))->Ok_0.1;
            proof {
                assert(cursor.remaining() =~= s.skip(a + b + c + d));
            }
            let keyspace_level = target.as_plain() == String::from_str("KEYSPACE");
            if keyspace_level {
                Ok(ServerEvent::SchemaChange { change, target, keyspace, name: None })
            } else {
                let name = match CString::from_cursor(cursor) {
                    Ok(v) => v,
                    Err(e) => {
                        return Err(e);
                    },
                };
                Ok(ServerEvent::SchemaChange { change, target, keyspace, name: Some(name) })
            }
        },
    }
}

} // verus!
