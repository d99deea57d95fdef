//! The value records the codec produces and consumes: permission entries,
//! node metadata, operation codes, creation modes, watch-event
//! enumerations and the service-error carrier.
//!
//! All of them are immutable plain values owned by the caller. The
//! enumerations of this protocol have fixed integer codes on the wire;
//! each has a spec-level code function and, where replies carry it, a
//! spec-level partial inverse, with executable versions proved against
//! them.

use vstd::prelude::*;

verus! {

/// Named permission bits of an ACL entry. The policy behind the bits
/// belongs to the caller; the codec carries the bitmask as-is.
pub const PERM_READ: u32 = 1;

pub const PERM_WRITE: u32 = 2;

pub const PERM_CREATE: u32 = 4;

pub const PERM_DELETE: u32 = 8;

pub const PERM_ADMIN: u32 = 16;

pub const PERM_ALL: u32 = 31;

/// A permission bitmask, decoded from and encoded as an unsigned 32-bit
/// field.
#[derive(Clone, Copy, Debug, PartialEq, Eq, Structural)]
pub struct Permission {
    pub bits: u32,
}

impl Permission {
    /// Wraps a raw wire bitmask.
    pub fn from_raw(raw: u32) -> (r: Permission)
        ensures
            r.bits == raw,
    {
        Permission { bits: raw }
    }

    /// The raw wire bitmask.
    pub fn code(&self) -> (r: u32)
        ensures
            r == self.bits,
    {
        self.bits
    }

    /// Every named permission at once.
    pub fn all() -> (r: Permission)
        ensures
            r.bits == PERM_ALL,
    {
        Permission { bits: PERM_ALL }
    }
}

/// One ACL entry: a permission bitmask, an authentication scheme and an
/// identity under that scheme.
#[derive(Clone, Debug, PartialEq, Eq)]
pub struct Acl {
    pub perms: Permission,
    pub scheme: String,
    pub id: String,
}

/// The mathematical content of an [`Acl`].
pub struct AclV {
    pub perms: u32,
    pub scheme: Seq<char>,
    pub id: Seq<char>,
}

impl View for Acl {
    type V = AclV;

    open spec fn view(&self) -> AclV {
        AclV { perms: self.perms.bits, scheme: self.scheme@, id: self.id@ }
    }
}

impl DeepView for Acl {
    type V = AclV;

    open spec fn deep_view(&self) -> AclV {
        self@
    }
}

impl Acl {
    /// The well-known fully-open preset: every permission for anyone in
    /// the `world` scheme. Unsafe in the policy sense, not the memory
    /// sense: any client may do anything to the node.
    pub fn open_unsafe() -> (r: Vec<Acl>)
        ensures
            r.deep_view() =~= seq![
                AclV { perms: PERM_ALL, scheme: "world"@, id: "anyone"@ },
            ],
    {
        let mut v: Vec<Acl> = Vec::new();
        v.push(Acl { perms: Permission::all(), scheme: "world".to_owned(), id: "anyone".to_owned() });
        v
    }
}

/// Node metadata (the service's `Stat` record): eleven fixed-width
/// integer fields, encoded in declaration order with no padding.
#[derive(Clone, Copy, Debug, PartialEq, Eq, Structural)]
pub struct Stat {
    pub czxid: i64,
    pub mzxid: i64,
    pub ctime: i64,
    pub mtime: i64,
    pub version: i32,
    pub cversion: i32,
    pub aversion: i32,
    pub ephemeral_owner: i64,
    pub data_length: i32,
    pub num_children: i32,
    pub pzxid: i64,
}

/// How a node is created. `-Sequential` modes let the service append a
/// monotonically increasing counter to the path.
#[derive(Clone, Copy, Debug, PartialEq, Eq, Structural)]
pub enum CreateMode {
    Persistent,
    Ephemeral,
    PersistentSequential,
    EphemeralSequential,
}

/// The fixed wire code of a creation mode.
pub open spec fn create_mode_code(m: CreateMode) -> i32 {
    match m {
        CreateMode::Persistent => 0,
        CreateMode::Ephemeral => 1,
        CreateMode::PersistentSequential => 2,
        CreateMode::EphemeralSequential => 3,
    }
}

impl CreateMode {
    /// The fixed wire code of this mode.
    pub fn code(self) -> (r: i32)
        ensures
            r == create_mode_code(self),
    {
        match self {
            CreateMode::Persistent => 0,
            CreateMode::Ephemeral => 1,
            CreateMode::PersistentSequential => 2,
            CreateMode::EphemeralSequential => 3,
        }
    }
}

/// Operation code of a request. See `RequestHeader`.
#[derive(Clone, Copy, Debug, PartialEq, Eq, Structural)]
pub enum OpCode {
    Auth,
    Create,
    Delete,
    Exists,
    GetAcl,
    SetAcl,
    GetChildren,
    GetData,
    SetData,
    Ping,
    Check,
    Transaction,
    CloseSession,
}

/// The fixed wire code of an operation. Session close is the one
/// negative code.
pub open spec fn opcode_code(c: OpCode) -> i32 {
    match c {
        OpCode::Auth => 100,
        OpCode::Create => 1,
        OpCode::Delete => 2,
        OpCode::Exists => 3,
        OpCode::GetAcl => 6,
        OpCode::SetAcl => 7,
        OpCode::GetChildren => 8,
        OpCode::GetData => 4,
        OpCode::SetData => 5,
        OpCode::Ping => 11,
        OpCode::Check => 13,
        OpCode::Transaction => 14,
        OpCode::CloseSession => -11i32,
    }
}

impl OpCode {
    /// The fixed wire code of this operation.
    pub fn code(self) -> (r: i32)
        ensures
            r == opcode_code(self),
    {
        match self {
            OpCode::Auth => 100,
            OpCode::Create => 1,
            OpCode::Delete => 2,
            OpCode::Exists => 3,
            OpCode::GetAcl => 6,
            OpCode::SetAcl => 7,
            OpCode::GetChildren => 8,
            OpCode::GetData => 4,
            OpCode::SetData => 5,
            OpCode::Ping => 11,
            OpCode::Check => 13,
            OpCode::Transaction => 14,
            OpCode::CloseSession => -11i32,
        }
    }
}

/// The operation a wire code stands for, if any.
pub open spec fn opcode_from(c: i32) -> Option<OpCode> {
    if c == 100 {
        Some(OpCode::Auth)
    } else if c == 1 {
        Some(OpCode::Create)
    } else if c == 2 {
        Some(OpCode::Delete)
    } else if c == 3 {
        Some(OpCode::Exists)
    } else if c == 6 {
        Some(OpCode::GetAcl)
    } else if c == 7 {
        Some(OpCode::SetAcl)
    } else if c == 8 {
        Some(OpCode::GetChildren)
    } else if c == 4 {
        Some(OpCode::GetData)
    } else if c == 5 {
        Some(OpCode::SetData)
    } else if c == 11 {
        Some(OpCode::Ping)
    } else if c == 13 {
        Some(OpCode::Check)
    } else if c == 14 {
        Some(OpCode::Transaction)
    } else if c == -11 {
        Some(OpCode::CloseSession)
    } else {
        None
    }
}

/// A service error, as the result code of a reply header or the `err`
/// field of a transaction reply entry carries it. It is a successfully
/// decoded value, not a codec failure; mapping the code to an error kind
/// belongs to the caller's enumeration module.
#[derive(Clone, Copy, Debug, PartialEq, Eq, Structural)]
pub struct ZkError {
    pub code: i32,
}

/// Result of one logical operation: its payload, or the service error
/// reported for it.
pub type ZkResult<T> = Result<T, ZkError>;

/// Connection state reported inside a watch event.
#[derive(Clone, Copy, Debug, PartialEq, Eq, Structural)]
pub enum KeeperState {
    Disconnected,
    SyncConnected,
    AuthFailed,
    ConnectedReadOnly,
    SaslAuthenticated,
    Expired,
}

/// The fixed wire code of a connection state.
pub open spec fn keeper_state_code(s: KeeperState) -> i32 {
    match s {
        KeeperState::Disconnected => 0,
        KeeperState::SyncConnected => 3,
        KeeperState::AuthFailed => 4,
        KeeperState::ConnectedReadOnly => 5,
        KeeperState::SaslAuthenticated => 6,
        KeeperState::Expired => -112i32,
    }
}

/// The connection state a wire code stands for, if any.
pub open spec fn keeper_state_from(c: i32) -> Option<KeeperState> {
    if c == 0 {
        Some(KeeperState::Disconnected)
    } else if c == 3 {
        Some(KeeperState::SyncConnected)
    } else if c == 4 {
        Some(KeeperState::AuthFailed)
    } else if c == 5 {
        Some(KeeperState::ConnectedReadOnly)
    } else if c == 6 {
        Some(KeeperState::SaslAuthenticated)
    } else if c == -112 {
        Some(KeeperState::Expired)
    } else {
        None
    }
}

impl KeeperState {
    /// The connection state a wire code stands for, if any.
    pub fn from_code(c: i32) -> (r: Option<KeeperState>)
        ensures
            r == keeper_state_from(c),
    {
        if c == 0 {
            Some(KeeperState::Disconnected)
        } else if c == 3 {
            Some(KeeperState::SyncConnected)
        } else if c == 4 {
            Some(KeeperState::AuthFailed)
        } else if c == 5 {
            Some(KeeperState::ConnectedReadOnly)
        } else if c == 6 {
            Some(KeeperState::SaslAuthenticated)
        } else if c == -112 {
            Some(KeeperState::Expired)
        } else {
            None
        }
    }
}

/// What changed at the node a watch was left on. `NoEvent` is the code
/// the service sends for a pure state-change notification.
#[derive(Clone, Copy, Debug, PartialEq, Eq, Structural)]
pub enum WatchedEventType {
    NoEvent,
    NodeCreated,
    NodeDeleted,
    NodeDataChanged,
    NodeChildrenChanged,
}

/// The fixed wire code of an event type.
pub open spec fn event_type_code(t: WatchedEventType) -> i32 {
    match t {
        WatchedEventType::NoEvent => -1i32,
        WatchedEventType::NodeCreated => 1,
        WatchedEventType::NodeDeleted => 2,
        WatchedEventType::NodeDataChanged => 3,
        WatchedEventType::NodeChildrenChanged => 4,
    }
}

/// The event type a wire code stands for, if any.
pub open spec fn event_type_from(c: i32) -> Option<WatchedEventType> {
    if c == -1 {
        Some(WatchedEventType::NoEvent)
    } else if c == 1 {
        Some(WatchedEventType::NodeCreated)
    } else if c == 2 {
        Some(WatchedEventType::NodeDeleted)
    } else if c == 3 {
        Some(WatchedEventType::NodeDataChanged)
    } else if c == 4 {
        Some(WatchedEventType::NodeChildrenChanged)
    } else {
        None
    }
}

impl WatchedEventType {
    /// The event type a wire code stands for, if any.
    pub fn from_code(c: i32) -> (r: Option<WatchedEventType>)
        ensures
            r == event_type_from(c),
    {
        if c == -1 {
            Some(WatchedEventType::NoEvent)
        } else if c == 1 {
            Some(WatchedEventType::NodeCreated)
        } else if c == 2 {
            Some(WatchedEventType::NodeDeleted)
        } else if c == 3 {
            Some(WatchedEventType::NodeDataChanged)
        } else if c == 4 {
            Some(WatchedEventType::NodeChildrenChanged)
        } else {
            None
        }
    }
}

/// An asynchronous change notification, delivered outside the
/// request/reply pairing.
#[derive(Clone, Debug, PartialEq, Eq)]
pub struct WatchedEvent {
    pub event_type: WatchedEventType,
    pub keeper_state: KeeperState,
    pub path: Option<String>,
}

} // verus!
