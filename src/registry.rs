//! The registry of known event kinds: for each numeric event-type code, its
//! name, the width of its length table and its ordered field declarations.
use vstd::prelude::*;
use crate::value::FieldType;

verus! {

/// One declared field of an event kind.
#[derive(Clone, Copy, Debug, PartialEq, Eq)]
pub struct FieldDecl {
    pub name: &'static str,
    pub ty: FieldType,
    /// For a relative path: the index of the field that holds the directory
    /// descriptor it is relative to.
    pub dirfd: Option<usize>,
}

/// The event kinds known to the registry.
#[derive(Clone, Copy, Debug, PartialEq, Eq, Structural)]
pub enum EventKind {
    GenericE,
    GenericX,
    OpenE,
    OpenX,
    CloseE,
    CloseX,
    ReadE,
    ReadX,
    ConnectE,
    OpenatX,
    PluginEventE,
    AsyncEventE,
}

pub open spec fn decl(name: &'static str, ty: FieldType) -> FieldDecl {
    FieldDecl { name, ty, dirfd: None }
}

/// The numeric event-type code of each kind.
pub open spec fn kind_code(k: EventKind) -> u16 {
    match k {
        EventKind::GenericE => 0,
        EventKind::GenericX => 1,
        EventKind::OpenE => 2,
        EventKind::OpenX => 3,
        EventKind::CloseE => 4,
        EventKind::CloseX => 5,
        EventKind::ReadE => 6,
        EventKind::ReadX => 7,
        EventKind::ConnectE => 22,
        EventKind::OpenatX => 307,
        EventKind::PluginEventE => 322,
        EventKind::AsyncEventE => 402,
    }
}

/// Kinds flagged "large payload" have 4-byte length-table entries.
pub open spec fn kind_large(k: EventKind) -> bool {
    k == EventKind::PluginEventE || k == EventKind::AsyncEventE
}

/// The ordered field declarations of each kind.
pub open spec fn kind_layout(k: EventKind) -> Seq<FieldDecl> {
    match k {
        EventKind::GenericE => seq![decl("id", FieldType::U16), decl("native_id", FieldType::U16)],
        EventKind::GenericX => seq![decl("id", FieldType::U16)],
        EventKind::OpenE => seq![
            decl("name", FieldType::FsPath),
            decl("flags", FieldType::U32),
            decl("mode", FieldType::U32),
        ],
        EventKind::OpenX => seq![
            decl("fd", FieldType::I64),
            decl("name", FieldType::FsPath),
            decl("flags", FieldType::U32),
            decl("mode", FieldType::U32),
            decl("dev", FieldType::U32),
            decl("ino", FieldType::U64),
        ],
        EventKind::CloseE => seq![decl("fd", FieldType::I64)],
        EventKind::CloseX => seq![decl("res", FieldType::I64)],
        EventKind::ReadE => seq![decl("fd", FieldType::I64), decl("size", FieldType::U32)],
        EventKind::ReadX => seq![decl("res", FieldType::I64), decl("data", FieldType::ByteBuf)],
        EventKind::ConnectE => seq![decl("fd", FieldType::I64), decl("addr", FieldType::SockAddr)],
        EventKind::OpenatX => seq![
            decl("fd", FieldType::I64),
            decl("dirfd", FieldType::I64),
            FieldDecl { name: "name", ty: FieldType::FsRelPath, dirfd: Some(1) },
            decl("flags", FieldType::U32),
            decl("mode", FieldType::U32),
            decl("dev", FieldType::U32),
            decl("ino", FieldType::U64),
        ],
        EventKind::PluginEventE => seq![
            decl("plugin_id", FieldType::U32),
            decl("event_data", FieldType::ByteBuf),
        ],
        EventKind::AsyncEventE => seq![
            decl("plugin_id", FieldType::U32),
            decl("name", FieldType::CharBuf),
            decl("data", FieldType::ByteBuf),
        ],
    }
}

/// The human-readable name of each kind.
pub open spec fn kind_name(k: EventKind) -> Seq<char> {
    match k {
        EventKind::GenericE | EventKind::GenericX => "syscall"@,
        EventKind::OpenE | EventKind::OpenX => "open"@,
        EventKind::CloseE | EventKind::CloseX => "close"@,
        EventKind::ReadE | EventKind::ReadX => "read"@,
        EventKind::ConnectE => "connect"@,
        EventKind::OpenatX => "openat"@,
        EventKind::PluginEventE => "pluginevent"@,
        EventKind::AsyncEventE => "asyncevent"@,
    }
}

fn mk(name: &'static str, ty: FieldType) -> (r: FieldDecl)
    ensures
        r == decl(name, ty),
{
    FieldDecl { name, ty, dirfd: None }
}

impl EventKind {
    /// The numeric event-type code.
    pub fn code(self) -> (r: u16)
        ensures
            r == kind_code(self),
    {
        match self {
            EventKind::GenericE => 0,
            EventKind::GenericX => 1,
            EventKind::OpenE => 2,
            EventKind::OpenX => 3,
            EventKind::CloseE => 4,
            EventKind::CloseX => 5,
            EventKind::ReadE => 6,
            EventKind::ReadX => 7,
            EventKind::ConnectE => 22,
            EventKind::OpenatX => 307,
            EventKind::PluginEventE => 322,
            EventKind::AsyncEventE => 402,
        }
    }

    /// Whether the kind's length table has 4-byte entries.
    pub fn is_large(self) -> (r: bool)
        ensures
            r == kind_large(self),
    {
        match self {
            EventKind::PluginEventE | EventKind::AsyncEventE => true,
            _ => false,
        }
    }

    /// The human-readable name of the kind.
    pub fn name(self) -> (r: &'static str)
        ensures
            r@ == kind_name(self),
    {
        match self {
            EventKind::GenericE | EventKind::GenericX => "syscall",
            EventKind::OpenE | EventKind::OpenX => "open",
            EventKind::CloseE | EventKind::CloseX => "close",
            EventKind::ReadE | EventKind::ReadX => "read",
            EventKind::ConnectE => "connect",
            EventKind::OpenatX => "openat",
            EventKind::PluginEventE => "pluginevent",
            EventKind::AsyncEventE => "asyncevent",
        }
    }

    /// Whether the kind is the entry half of a pair (rendered `>`), as
    /// opposed to the exit half (`<`).
    pub fn is_entry(self) -> (r: bool)
        ensures
            r == (kind_code(self) % 2 == 0),
    {
        self.code() % 2 == 0
    }

    /// The ordered field declarations of the kind.
    pub fn layout(self) -> (r: Vec<FieldDecl>)
        ensures
            r@ == kind_layout(self),
    {
        let mut v: Vec<FieldDecl> = Vec::new();
        match self {
            EventKind::GenericE => {
                v.push(mk("id", FieldType::U16));
                v.push(mk("native_id", FieldType::U16));
            },
            EventKind::GenericX => {
                v.push(mk("id", FieldType::U16));
            },
            EventKind::OpenE => {
                v.push(mk("name", FieldType::FsPath));
                v.push(mk("flags", FieldType::U32));
                v.push(mk("mode", FieldType::U32));
            },
            EventKind::OpenX => {
                v.push(mk("fd", FieldType::I64));
                v.push(mk("name", FieldType::FsPath));
                v.push(mk("flags", FieldType::U32));
                v.push(mk("mode", FieldType::U32));
                v.push(mk("dev", FieldType::U32));
                v.push(mk("ino", FieldType::U64));
            },
            EventKind::CloseE => {
                v.push(mk("fd", FieldType::I64));
            },
            EventKind::CloseX => {
                v.push(mk("res", FieldType::I64));
            },
            EventKind::ReadE => {
                v.push(mk("fd", FieldType::I64));
                v.push(mk("size", FieldType::U32));
            },
            EventKind::ReadX => {
                v.push(mk("res", FieldType::I64));
                v.push(mk("data", FieldType::ByteBuf));
            },
            EventKind::ConnectE => {
                v.push(mk("fd", FieldType::I64));
                v.push(mk("addr", FieldType::SockAddr));
            },
            EventKind::OpenatX => {
                v.push(mk("fd", FieldType::I64));
                v.push(mk("dirfd", FieldType::I64));
                v.push(FieldDecl { name: "name", ty: FieldType::FsRelPath, dirfd: Some(1) });
                v.push(mk("flags", FieldType::U32));
                v.push(mk("mode", FieldType::U32));
                v.push(mk("dev", FieldType::U32));
                v.push(mk("ino", FieldType::U64));
            },
            EventKind::PluginEventE => {
                v.push(mk("plugin_id", FieldType::U32));
                v.push(mk("event_data", FieldType::ByteBuf));
            },
            EventKind::AsyncEventE => {
                v.push(mk("plugin_id", FieldType::U32));
                v.push(mk("name", FieldType::CharBuf));
                v.push(mk("data", FieldType::ByteBuf));
            },
        }
        assert(v@ =~= kind_layout(self));
        v
    }

    /// The kind registered under `code`, if any.
    pub fn from_code(code: u16) -> (r: Option<EventKind>)
        ensures
            match r {
                Some(k) => kind_code(k) == code,
                None => forall|k: EventKind| kind_code(k) != code,
            },
    {
        match code {
            0 => Some(EventKind::GenericE),
            1 => Some(EventKind::GenericX),
            2 => Some(EventKind::OpenE),
            3 => Some(EventKind::OpenX),
            4 => Some(EventKind::CloseE),
            5 => Some(EventKind::CloseX),
            6 => Some(EventKind::ReadE),
            7 => Some(EventKind::ReadX),
            22 => Some(EventKind::ConnectE),
            307 => Some(EventKind::OpenatX),
            322 => Some(EventKind::PluginEventE),
            402 => Some(EventKind::AsyncEventE),
            _ => None,
        }
    }
}

} // verus!
