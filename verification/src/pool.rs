//! The per-node connection pool policy: a bounded set of connections
//! with idle and lifetime limits, the keyspace memo new connections
//! consult, and the connect procedure as a state machine.

use vstd::prelude::*;

verus! {

/// The grace, in milliseconds, granted beyond the idle and lifetime
/// limits before the reaper closes an entry.
pub const GRACE_MS: u64 = 30000;

/// The pool limits, as plain milliseconds and counts.
#[derive(Debug, Clone, PartialEq, Eq)]
pub struct PoolConfig {
    /// Upper bound of the pool size.
    pub max_size: u32,
    /// Idle connections to maintain, when set; at most `max_size`.
    pub min_idle: Option<u32>,
    /// Total age cap in milliseconds, when set.
    pub max_lifetime: Option<u64>,
    /// Idle age cap in milliseconds, when set.
    pub idle_timeout: Option<u64>,
    /// Lease/connect wait cap in milliseconds.
    pub connection_timeout: u64,
}

/// The bound respects itself: `min_idle` never exceeds `max_size`.
pub open spec fn pool_config_wf(c: PoolConfig) -> bool {
    c.min_idle matches Some(m) ==> m <= c.max_size
}

/// One pooled connection, as the policy sees it.
#[derive(Debug, Clone, Copy, PartialEq, Eq, Structural)]
pub struct PoolEntry {
    /// The connection's identity (a handle app code maps to a socket).
    pub id: u64,
    /// When the connection was opened, in milliseconds.
    pub created_at: u64,
    /// When the connection last became idle, in milliseconds.
    pub idle_since: u64,
}

/// An entry has outlived `max_lifetime` at time `now`.
pub open spec fn lifetime_exceeded(c: PoolConfig, e: PoolEntry, now: u64) -> bool {
    c.max_lifetime matches Some(limit) && now >= e.created_at && now - e.created_at > limit
}

/// An entry has sat idle past `idle_timeout` plus the grace at `now`.
pub open spec fn idle_expired(c: PoolConfig, e: PoolEntry, now: u64) -> bool {
    c.idle_timeout matches Some(limit) && now >= e.idle_since && now - e.idle_since > limit
        + GRACE_MS
}

/// An entry is past `max_lifetime` plus the grace at `now`.
pub open spec fn lifetime_expired(c: PoolConfig, e: PoolEntry, now: u64) -> bool {
    c.max_lifetime matches Some(limit) && now >= e.created_at && now - e.created_at > limit
        + GRACE_MS
}

/// What the pool decides when a lease is requested.
#[derive(Debug, PartialEq, Eq)]
pub enum LeaseDecision {
    /// Hand out this idle entry.
    Reuse(PoolEntry),
    /// Open a new connection; a slot is reserved for it.
    Open,
    /// The pool is full and nothing is idle: wait (up to the connection
    /// timeout) for a return.
    Wait,
}

/// The per-node pool: its limits, the idle entries, how many connections
/// are leased out or being opened, and the keyspace memo.
#[derive(Debug)]
pub struct NodePool {
    /// The pool's limits.
    pub config: PoolConfig,
    idle: Vec<PoolEntry>,
    leased: usize,
    memo: Option<String>,
}

impl NodePool {
    /// The pool never holds more than `max_size` connections, counting
    /// idle and leased together.
    pub closed spec fn inv(&self) -> bool {
        self.idle@.len() + self.leased <= self.config.max_size
    }

    /// The pool's limits.
    pub closed spec fn config_view(&self) -> PoolConfig {
        self.config
    }

    /// The idle entries, oldest first.
    pub closed spec fn idle_view(&self) -> Seq<PoolEntry> {
        self.idle@
    }

    /// How many connections are leased out or being opened.
    pub closed spec fn leased_count(&self) -> nat {
        self.leased as nat
    }

    /// The keyspace memo: the last `USE` observed on any connection of
    /// this pool.
    pub closed spec fn memo_view(&self) -> Option<Seq<char>> {
        match self.memo {
            Some(ref k) => Some(k@),
            None => None,
        }
    }

    /// A fresh pool under `config`.
    pub fn new(config: PoolConfig) -> (r: NodePool)
        ensures
            r.inv(),
            r.idle_view() == Seq::<PoolEntry>::empty(),
            r.leased_count() == 0,
            r.memo_view() is None,
            r.config_view() == config,
    {
        NodePool { config, idle: Vec::new(), leased: 0, memo: None }
    }

    /// Decides a lease request: an idle entry if one exists, a fresh slot
    /// if the pool is under its bound, else wait. The bound `max_size` is
    /// never exceeded.
    pub fn lease(&mut self) -> (r: LeaseDecision)
        requires
            old(self).inv(),
        ensures
            final(self).inv(),
            final(self).config_view() == old(self).config_view(),
            final(self).memo_view() == old(self).memo_view(),
            match r {
                LeaseDecision::Reuse(e) => {
                    &&& old(self).idle_view().len() > 0
                    &&& e == old(self).idle_view().last()
                    &&& final(self).idle_view() == old(self).idle_view().drop_last()
                    &&& final(self).leased_count() == old(self).leased_count() + 1
                },
                LeaseDecision::Open => {
                    &&& old(self).idle_view().len() == 0
                    &&& old(self).leased_count() < old(self).config_view().max_size
                    &&& final(self).idle_view() == old(self).idle_view()
                    &&& final(self).leased_count() == old(self).leased_count() + 1
                },
                LeaseDecision::Wait => {
                    &&& old(self).idle_view().len() == 0
                    &&& old(self).leased_count() >= old(self).config_view().max_size
                    &&& final(self).idle_view() == old(self).idle_view()
                    &&& final(self).leased_count() == old(self).leased_count()
                },
            },
            final(self).idle_view().len() + final(self).leased_count()
                <= final(self).config_view().max_size,
    {
        match self.idle.pop() {
            Some(e) => {
                self.leased = self.leased + 1;
                LeaseDecision::Reuse(e)
            },
            None => {
                if self.leased < self.config.max_size as usize {
                    self.leased = self.leased + 1;
                    LeaseDecision::Open
                } else {
                    LeaseDecision::Wait
                }
            },
        }
    }

    /// Returns a leased connection at time `now`. A broken entry, or one
    /// past its lifetime, is dropped and never re-issued; otherwise the
    /// entry is parked idle (stamped idle at `now`).
    pub fn give_back(&mut self, e: PoolEntry, now: u64, has_broken: bool) -> (kept: bool)
        requires
            old(self).inv(),
            old(self).leased_count() > 0,
        ensures
            final(self).inv(),
            final(self).config_view() == old(self).config_view(),
            final(self).memo_view() == old(self).memo_view(),
            final(self).leased_count() == old(self).leased_count() - 1,
            kept <==> (!has_broken && !lifetime_exceeded(old(self).config_view(), e, now)),
            kept ==> final(self).idle_view() == old(self).idle_view().push(
                PoolEntry { idle_since: now, ..e },
            ),
            !kept ==> final(self).idle_view() == old(self).idle_view(),
    {
        self.leased = self.leased - 1;
        if has_broken {
            return false;
        }
        let expired: bool = match self.config.max_lifetime {
            Some(limit) => now >= e.created_at && now - e.created_at > limit,
            None => false,
        };
        if expired {
            return false;
        }
        self.idle.push(PoolEntry { id: e.id, created_at: e.created_at, idle_since: now });
        true
    }

    /// Closes idle entries past their idle timeout or lifetime (each with
    /// the documented grace): afterwards no idle entry is expired, and
    /// every surviving entry was already there.
    pub fn reap(&mut self, now: u64) -> (closed: Vec<PoolEntry>)
        requires
            old(self).inv(),
        ensures
            final(self).inv(),
            final(self).config_view() == old(self).config_view(),
            final(self).memo_view() == old(self).memo_view(),
            final(self).leased_count() == old(self).leased_count(),
            forall|i: int|
                0 <= i < final(self).idle_view().len() ==> !idle_expired(
                    old(self).config_view(),
                    #[trigger] final(self).idle_view()[i],
                    now,
                ) && !lifetime_expired(old(self).config_view(), final(self).idle_view()[i], now),
            forall|i: int|
                0 <= i < final(self).idle_view().len() ==> old(self).idle_view().contains(
                    #[trigger] final(self).idle_view()[i],
                ),
            forall|i: int|
                0 <= i < closed@.len() ==> (idle_expired(old(self).config_view(), #[trigger] closed@[i], now)
                    || lifetime_expired(old(self).config_view(), closed@[i], now)) && old(
                    self,
                ).idle_view().contains(closed@[i]),
    {
        let n = self.idle.len();
        let mut keep: Vec<PoolEntry> = Vec::new();
        let mut closed: Vec<PoolEntry> = Vec::new();
        let mut i: usize = 0;
        while i < n
            invariant
                i <= n,
                n == self.idle@.len(),
                self.idle@ == old(self).idle_view(),
                keep@.len() + closed@.len() == i,
                forall|k: int|
                    0 <= k < keep@.len() ==> !idle_expired(self.config, #[trigger] keep@[k], now)
                        && !lifetime_expired(self.config, keep@[k], now) && self.idle@.contains(
                        keep@[k],
                    ),
                forall|k: int|
                    0 <= k < closed@.len() ==> (idle_expired(self.config, #[trigger] closed@[k], now)
                        || lifetime_expired(self.config, closed@[k], now)) && self.idle@.contains(
                        closed@[k],
                    ),
                self.config == old(self).config_view(),
                self.leased == old(self).leased_count(),
                self.memo == old(self).memo_view_raw(),
            decreases n - i,
        {
            let e = self.idle[i];
            proof {
                assert(self.idle@[i as int] == e);
                assert(self.idle@.contains(e));
            }
            let idle_gone: bool = match self.config.idle_timeout {
                Some(limit) => now >= e.idle_since && ((now - e.idle_since) as u128) > (
                limit as u128) + (GRACE_MS as u128),
                None => false,
            };
            let life_gone: bool = match self.config.max_lifetime {
                Some(limit) => now >= e.created_at && ((now - e.created_at) as u128) > (
                limit as u128) + (GRACE_MS as u128),
                None => false,
            };
            if idle_gone || life_gone {
                closed.push(e);
            } else {
                keep.push(e);
            }
            i = i + 1;
        }
        self.idle = keep;
        closed
    }

    /// The raw memo (for stating frame-level invariants).
    pub closed spec fn memo_view_raw(&self) -> Option<String> {
        self.memo
    }

    /// Records the last `USE`d keyspace for the pool, so that newly
    /// opened connections can catch up.
    pub fn set_keyspace(&mut self, keyspace: String)
        requires
            old(self).inv(),
        ensures
            final(self).inv(),
            final(self).config_view() == old(self).config_view(),
            final(self).idle_view() == old(self).idle_view(),
            final(self).leased_count() == old(self).leased_count(),
            final(self).memo_view() == Some(keyspace@),
    {
        self.memo = Some(keyspace);
    }

    /// The keyspace a newly opened connection must `USE`, if any.
    pub fn current_keyspace(&self) -> (r: Option<&String>)
        ensures
            r is Some <==> self.memo_view() is Some,
            r matches Some(k) ==> self.memo_view() == Some(k@),
    {
        match self.memo {
            Some(ref k) => Some(k),
            None => None,
        }
    }
}

/// Where the connect procedure of one new connection stands.
#[derive(Debug, Clone, Copy, PartialEq, Eq, Structural)]
pub enum ConnectState {
    /// Nothing sent yet.
    Start,
    /// `STARTUP` sent; awaiting `READY` or `AUTHENTICATE`.
    AwaitStartupReply,
    /// In the authentication exchange; awaiting a challenge or success.
    Challenging,
    /// `USE <keyspace>` sent to catch up with the memo.
    SettingKeyspace,
    /// The connection is fully initialized and may enter the pool.
    Connected,
    /// A step failed; the connect is aborted and nothing enters the pool.
    Failed,
}

/// What the connect driver must do next.
#[derive(Debug, Clone, PartialEq, Eq)]
pub enum ConnectAction {
    /// Send the `STARTUP` frame.
    SendStartup,
    /// Answer the authenticator's challenge with an `AUTH_RESPONSE`.
    SendAuthResponse,
    /// Send `USE <keyspace>` for the remembered keyspace.
    SendUseKeyspace(String),
    /// The connection is ready; hand it to the pool.
    Done,
    /// Abort: close the transport and report the failure.
    Abort,
}

/// What the server (or the transport) answered during connect.
#[derive(Debug, Clone, Copy, PartialEq, Eq, Structural)]
pub enum ConnectEvent {
    /// A `READY` frame.
    Ready,
    /// An `AUTHENTICATE` frame.
    Authenticate,
    /// An `AUTH_CHALLENGE` frame.
    AuthChallenge,
    /// An `AUTH_SUCCESS` frame.
    AuthSuccess,
    /// The `USE` query returned its set-keyspace result.
    SetKeyspaceOk,
    /// A server `ERROR` frame.
    ServerError,
    /// The transport failed.
    TransportError,
}

/// The broken-entry law: a connection returned broken (or expired) is
/// not parked idle, and a lease reuses only parked entries; so once the
/// idle list is without an entry, that entry cannot be the one a lease
/// hands out.
pub proof fn lemma_broken_not_reissued(idle: Seq<PoolEntry>, e: PoolEntry)
    requires
        !idle.contains(e),
    ensures
        idle.len() > 0 ==> idle.last() != e,
{
    if idle.len() > 0 {
        assert(idle.contains(idle.last())) by {
            assert(idle[idle.len() - 1] == idle.last());
        }
    }
}

/// Opens the connect procedure: send `STARTUP` and await the reply.
pub fn connect_begin() -> (r: (ConnectState, ConnectAction))
    ensures
        r.0 == ConnectState::AwaitStartupReply,
        r.1 == ConnectAction::SendStartup,
{
    (ConnectState::AwaitStartupReply, ConnectAction::SendStartup)
}

/// Whether the server's answer is one the connect procedure may receive
/// in this state; anything else aborts the connect.
pub open spec fn connect_event_expected(state: ConnectState, event: ConnectEvent) -> bool {
    match (state, event) {
        (ConnectState::AwaitStartupReply, ConnectEvent::Ready) => true,
        (ConnectState::AwaitStartupReply, ConnectEvent::Authenticate) => true,
        (ConnectState::Challenging, ConnectEvent::AuthChallenge) => true,
        (ConnectState::Challenging, ConnectEvent::AuthSuccess) => true,
        (ConnectState::SettingKeyspace, ConnectEvent::SetKeyspaceOk) => true,
        _ => false,
    }
}

/// One step of the connect procedure: from the current state and the
/// server's answer to the next state and the action to perform. The
/// keyspace memo decides whether a `USE` is owed before the connection
/// may enter the pool.
pub fn connect_step(state: ConnectState, event: ConnectEvent, memo: &Option<String>) -> (r: (
    ConnectState,
    ConnectAction,
))
    ensures
        event == ConnectEvent::ServerError || event == ConnectEvent::TransportError ==> r.0
            == ConnectState::Failed && r.1 == ConnectAction::Abort,
        r.0 == ConnectState::Connected ==> r.1 == ConnectAction::Done,
        r.0 == ConnectState::Connected && memo is Some ==> state == ConnectState::SettingKeyspace
            && event == ConnectEvent::SetKeyspaceOk,
        r.0 == ConnectState::Connected && memo is None ==> ((state
            == ConnectState::AwaitStartupReply && event == ConnectEvent::Ready) || (state
            == ConnectState::Challenging && event == ConnectEvent::AuthSuccess) || (state
            == ConnectState::SettingKeyspace && event == ConnectEvent::SetKeyspaceOk)),
        (memo matches Some(k) && ((state == ConnectState::AwaitStartupReply && event
            == ConnectEvent::Ready) || (state == ConnectState::Challenging && event
            == ConnectEvent::AuthSuccess))) ==> r.0 == ConnectState::SettingKeyspace && (
        r.1 matches ConnectAction::SendUseKeyspace(s) && s@ == memo->0@),
        (memo is None && ((state == ConnectState::AwaitStartupReply && event
            == ConnectEvent::Ready) || (state == ConnectState::Challenging && event
            == ConnectEvent::AuthSuccess))) ==> r.0 == ConnectState::Connected && r.1
            == ConnectAction::Done,
        state == ConnectState::SettingKeyspace && event == ConnectEvent::SetKeyspaceOk ==> r.0
            == ConnectState::Connected && r.1 == ConnectAction::Done,
        state == ConnectState::AwaitStartupReply && event == ConnectEvent::Authenticate ==> r.0
            == ConnectState::Challenging && r.1 == ConnectAction::SendAuthResponse,
        state == ConnectState::Challenging && event == ConnectEvent::AuthChallenge ==> r.0
            == ConnectState::Challenging && r.1 == ConnectAction::SendAuthResponse,
        state == ConnectState::Start && event != ConnectEvent::ServerError && event
            != ConnectEvent::TransportError ==> r.0 == ConnectState::AwaitStartupReply && r.1
            == ConnectAction::SendStartup,
        r.0 == ConnectState::Failed <==> r.1 == ConnectAction::Abort,
        r.0 == ConnectState::Failed ==> (event == ConnectEvent::ServerError || event
            == ConnectEvent::TransportError || !connect_event_expected(state, event)),
        !(event == ConnectEvent::ServerError || event == ConnectEvent::TransportError) && state
            != ConnectState::Start && !connect_event_expected(state, event) ==> r.0
            == ConnectState::Failed,
{
    match (state, event) {
        (_, ConnectEvent::ServerError) => (ConnectState::Failed, ConnectAction::Abort),
        (_, ConnectEvent::TransportError) => (ConnectState::Failed, ConnectAction::Abort),
        (ConnectState::Start, _) => (ConnectState::AwaitStartupReply, ConnectAction::SendStartup),
        (ConnectState::AwaitStartupReply, ConnectEvent::Ready) => match memo {
            Some(k) => (ConnectState::SettingKeyspace, ConnectAction::SendUseKeyspace(k.clone())),
            None => (ConnectState::Connected, ConnectAction::Done),
        },
        (ConnectState::AwaitStartupReply, ConnectEvent::Authenticate) => (
            ConnectState::Challenging,
            ConnectAction::SendAuthResponse,
        ),
        (ConnectState::Challenging, ConnectEvent::AuthChallenge) => (
            ConnectState::Challenging,
            ConnectAction::SendAuthResponse,
        ),
        (ConnectState::Challenging, ConnectEvent::AuthSuccess) => match memo {
            Some(k) => (ConnectState::SettingKeyspace, ConnectAction::SendUseKeyspace(k.clone())),
            None => (ConnectState::Connected, ConnectAction::Done),
        },
        (ConnectState::SettingKeyspace, ConnectEvent::SetKeyspaceOk) => (
            ConnectState::Connected,
            ConnectAction::Done,
        ),
        _ => (ConnectState::Failed, ConnectAction::Abort),
    }
}

} // verus!
