//! The client's side of the lock server: where it sends its requests, and
//! what it decides on each reply. The requests themselves are sent by the
//! caller, which hands back the HTTP status that came.

use vstd::prelude::*;
use vstd::string::StringExecFns;

verus! {

/// The HTTP status of a granted request.
pub const STATUS_OK: u16 = 200;

/// The HTTP status of a request refused because of the lock's state.
pub const STATUS_CONFLICT: u16 = 409;

/// A client of one lock server, acting for one owner.
pub struct LockserverClient {
    addr: String,
    owner: String,
}

/// Lock acquisition mode: blocking or non-blocking.
#[derive(Debug, Clone, Copy, PartialEq, Eq, Structural)]
pub enum LockMode {
    /// Wait until the lock is acquired.
    Blocking,
    /// Return immediately if the lock is held by another worker.
    NonBlocking,
}

/// What the client does after one reply to an acquire request.
#[derive(Debug, Clone, Copy, PartialEq, Eq, Structural)]
pub enum AcquireStep {
    /// The lock is held: stop.
    Acquired,
    /// The lock is busy: wait for the retry interval and ask again.
    Retry,
    /// The lock is busy and the caller does not wait: fail as "would block".
    WouldBlock,
    /// The server answered with another status: fail with it.
    Failed(u16),
    /// No reply came: fail as a request error.
    Unreachable,
}

/// The milliseconds a blocking acquire waits between two requests.
pub const RETRY_INTERVAL_MS: u64 = 200;

/// The path of the acquire request on the server.
pub open spec fn acquire_url_of(addr: Seq<char>) -> Seq<char> {
    "http://"@ + addr + "/acquire"@
}

/// The path of the release request on the server.
pub open spec fn release_url_of(addr: Seq<char>) -> Seq<char> {
    "http://"@ + addr + "/release"@
}

/// The step that follows a reply with `status` (none when the request
/// failed) to an acquire request in `mode`.
pub open spec fn acquire_step_of(mode: LockMode, status: Option<u16>) -> AcquireStep {
    match status {
        None => AcquireStep::Unreachable,
        Some(s) => if s == STATUS_OK {
            AcquireStep::Acquired
        } else if s == STATUS_CONFLICT {
            if mode == LockMode::NonBlocking {
                AcquireStep::WouldBlock
            } else {
                AcquireStep::Retry
            }
        } else {
            AcquireStep::Failed(s)
        },
    }
}

fn url(addr: &String, path: &str) -> (r: String)
    ensures
        r@ == "http://"@ + addr@ + path@,
{
    let mut r = "http://".to_owned();
    r.append(addr.as_str());
    r.append(path);
    r
}

impl LockserverClient {
    /// The server address, as `host:port`.
    pub closed spec fn addr_spec(&self) -> Seq<char> {
        self.addr@
    }

    /// The owner that this client acquires and releases for.
    pub closed spec fn owner_spec(&self) -> Seq<char> {
        self.owner@
    }

    /// Create a new client for the given server address and owner ID.
    pub fn new(addr: &str, owner: &str) -> (r: Self)
        ensures
            r.addr_spec() == addr@,
            r.owner_spec() == owner@,
    {
        LockserverClient { addr: addr.to_owned(), owner: owner.to_owned() }
    }

    /// The server address.
    pub fn addr(&self) -> (r: &str)
        ensures
            r@ == self.addr_spec(),
    {
        self.addr.as_str()
    }

    /// The owner that this client acts for.
    pub fn owner(&self) -> (r: &str)
        ensures
            r@ == self.owner_spec(),
    {
        self.owner.as_str()
    }

    /// Where acquire requests go.
    pub fn acquire_url(&self) -> (r: String)
        ensures
            r@ == acquire_url_of(self.addr_spec()),
    {
        url(&self.addr, "/acquire")
    }

    /// Where release requests go.
    pub fn release_url(&self) -> (r: String)
        ensures
            r@ == release_url_of(self.addr_spec()),
    {
        url(&self.addr, "/release")
    }

    /// Decide what follows a reply with `status` (none when the request
    /// failed) to an acquire request in `mode`: a granted lock stops, a busy
    /// one is retried in blocking mode and refused at once otherwise, and any
    /// other outcome fails.
    pub fn acquire_step(mode: LockMode, status: Option<u16>) -> (r: AcquireStep)
        ensures
            r == acquire_step_of(mode, status),
    {
        match status {
            None => AcquireStep::Unreachable,
            Some(s) => if s == STATUS_OK {
                AcquireStep::Acquired
            } else if s == STATUS_CONFLICT {
                match mode {
                    LockMode::NonBlocking => AcquireStep::WouldBlock,
                    LockMode::Blocking => AcquireStep::Retry,
                }
            } else {
                AcquireStep::Failed(s)
            },
        }
    }

    /// Whether a reply with `status` to a release request means the lock was
    /// released.
    pub fn release_granted(status: u16) -> (r: bool)
        ensures
            r == (status == STATUS_OK),
    {
        status == STATUS_OK
    }
}

/// A lock taken through a client, to be released when the scope that holds
/// it ends.
pub struct LockGuard<'a> {
    client: &'a LockserverClient,
    resource: &'a str,
}

impl<'a> LockGuard<'a> {
    /// Create a new lock guard for a lock on `resource` held through `client`.
    pub fn new(client: &'a LockserverClient, resource: &'a str) -> (r: Self)
        ensures
            *r.client_spec() == *client,
            r.resource_spec() == resource@,
    {
        LockGuard { client, resource }
    }

    /// The client that holds the lock.
    pub closed spec fn client_spec(&self) -> &'a LockserverClient {
        self.client
    }

    /// The resource that is locked.
    pub closed spec fn resource_spec(&self) -> Seq<char> {
        self.resource@
    }

    /// The client that holds the lock.
    pub fn client(&self) -> (r: &'a LockserverClient)
        ensures
            *r == *self.client_spec(),
    {
        self.client
    }

    /// The resource that is locked.
    pub fn resource(&self) -> (r: &'a str)
        ensures
            r@ == self.resource_spec(),
    {
        self.resource
    }
}

} // verus!
