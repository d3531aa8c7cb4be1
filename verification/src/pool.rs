//! The outbound connection pool: per-host queues of idle connections,
//! handed out while fresh and dropped once expired.

use vstd::prelude::*;
use dashmap::DashMap;
use std::collections::VecDeque;
use crate::options::PeerAddr;

verus! {

/// A concurrent hash map.
#[verifier::external_type_specification]
#[verifier::external_body]
#[verifier::reject_recursive_types(K)]
#[verifier::reject_recursive_types(V)]
#[verifier::reject_recursive_types(S)]
pub struct ExDashMap<K, V, S>(dashmap::DashMap<K, V, S>);

/// A host as the pool knows it: whether the address is IPv6, the address
/// as a number, and the port.
pub type HostKey = (bool, u128, u16);

/// When a pooled connection was made and last used, in milliseconds of the
/// caller's clock, and how often it served.
#[derive(Clone, Copy, Debug, PartialEq, Eq, Structural)]
pub struct ConnectionMetadata {
    pub created_at: u64,
    pub last_used: u64,
    pub total_requests: u64,
}

/// An idle connection: the handle by which the caller knows the socket,
/// and its metadata.
#[derive(Clone, Copy, Debug, PartialEq, Eq, Structural)]
pub struct PooledConnection {
    pub stream: u64,
    pub metadata: ConnectionMetadata,
}

/// The queues of idle connections that a map holds, by host.
pub uninterp spec fn host_queues(
    map: DashMap<HostKey, VecDeque<PooledConnection>>,
) -> Map<HostKey, Seq<PooledConnection>>;

/// No queues at all.
pub open spec fn no_hosts() -> Map<HostKey, Seq<PooledConnection>> {
    Map::empty()
}

/// `DashMap::new`: a map that holds nothing.
#[verifier::external_body]
fn hosts_new() -> (r: DashMap<HostKey, VecDeque<PooledConnection>>)
    ensures
        host_queues(r) == no_hosts(),
{
    DashMap::new()
}

/// `DashMap::remove`: takes the queue of `key` out of the map, if it holds
/// one; the other hosts stay as they are.
#[verifier::external_body]
fn hosts_take(
    map: &mut DashMap<HostKey, VecDeque<PooledConnection>>,
    key: HostKey,
) -> (queue: Option<VecDeque<PooledConnection>>)
    ensures
        match queue {
            Some(q) => host_queues(*old(map)).contains_key(key) && q@ == host_queues(*old(map))[key],
            None => !host_queues(*old(map)).contains_key(key),
        },
        host_queues(*final(map)) == host_queues(*old(map)).remove(key),
    no_unwind
{
    map.remove(&key).map(|entry| entry.1)
}

/// `DashMap::insert`: puts `queue` into the map as the queue of `key`, in
/// place of the one that it held; the other hosts stay as they are.
#[verifier::external_body]
fn hosts_put(
    map: &mut DashMap<HostKey, VecDeque<PooledConnection>>,
    key: HostKey,
    queue: VecDeque<PooledConnection>,
)
    ensures
        host_queues(*final(map)) == host_queues(*old(map)).insert(key, queue@),
    no_unwind
{
    map.insert(key, queue);
}

/// `DashMap::iter`: the hosts of the map, each once, in the order in which
/// the map yields them.
#[verifier::external_body]
fn hosts_keys(map: &DashMap<HostKey, VecDeque<PooledConnection>>) -> (keys: Vec<
    HostKey,
>)
    ensures
        keys@.no_duplicates(),
        keys@.to_set() == host_queues(*map).dom(),
{
    map.iter().map(|entry| *entry.key()).collect()
}

/// `DashMap::get`: the length of the queue of `key`, if the map holds one.
#[verifier::external_body]
fn hosts_queue_len(map: &DashMap<HostKey, VecDeque<PooledConnection>>, key: HostKey) -> (len: Option<
    usize,
>)
    ensures
        match len {
            Some(n) => host_queues(*map).contains_key(key) && n == host_queues(*map)[key].len(),
            None => !host_queues(*map).contains_key(key),
        },
{
    map.get(&key).map(|queue| queue.len())
}

impl PeerAddr {
    /// The host as the pool knows it.
    pub open spec fn host_key(self) -> HostKey {
        (self.v6, self.ip, self.port)
    }

    /// The host as the pool knows it.
    pub fn key(&self) -> (r: HostKey)
        ensures
            r == self.host_key(),
    {
        (self.v6, self.ip, self.port)
    }
}

/// Counts of the pool, as read at one moment.
#[derive(Clone, Copy, Debug, PartialEq, Eq, Structural)]
pub struct ConnectionStats {
    pub total_connections: u64,
    pub active_connections: u64,
    pub pooled_connections: u64,
    pub reused_connections: u64,
    pub connection_hits: u64,
    pub connection_misses: u64,
}

impl ConnectionStats {
    /// The hit rate in thousandths, rounded down: hits among all lookups,
    /// and 0 where there was no lookup yet.
    pub open spec fn hit_rate(self) -> int {
        if self.connection_hits + self.connection_misses > 0 {
            (self.connection_hits * 1000) / ((self.connection_hits + self.connection_misses) as int)
        } else {
            0
        }
    }

    /// The hit rate in thousandths, rounded down.
    pub fn hit_rate_per_mille(&self) -> (r: u64)
        ensures
            r == self.hit_rate(),
            r <= 1000,
    {
        let hits: u128 = self.connection_hits as u128;
        let lookups: u128 = hits + self.connection_misses as u128;
        if lookups > 0 {
            let rate: u128 = hits * 1000 / lookups;
            assert(rate <= 1000) by (nonlinear_arith)
                requires
                    rate == (hits * 1000) / (lookups as int),
                    0 <= hits <= lookups,
                    lookups > 0,
            ;
            rate as u64
        } else {
            0
        }
    }
}

/// How long `now` is after `since`; nothing where it is not after it.
pub open spec fn elapsed(now: u64, since: u64) -> int {
    if now >= since {
        now - since
    } else {
        0
    }
}

/// The next count, held at the largest number.
pub open spec fn count_up(n: u64) -> u64 {
    if n < u64::MAX {
        (n + 1) as u64
    } else {
        n
    }
}

/// The previous count, held at zero.
pub open spec fn count_down(n: u64) -> u64 {
    if n > 0 {
        (n - 1) as u64
    } else {
        n
    }
}

fn up(n: u64) -> (r: u64)
    ensures
        r == count_up(n),
{
    if n < u64::MAX {
        n + 1
    } else {
        n
    }
}

fn down(n: u64) -> (r: u64)
    ensures
        r == count_down(n),
{
    if n > 0 {
        n - 1
    } else {
        n
    }
}

impl ConnectionMetadata {
    /// The metadata of a connection that is made at `now`.
    pub fn new(now: u64) -> (r: ConnectionMetadata)
        ensures
            r == (ConnectionMetadata { created_at: now, last_used: now, total_requests: 0 }),
    {
        ConnectionMetadata { created_at: now, last_used: now, total_requests: 0 }
    }

    /// Notes a use at `now`.
    pub fn update_last_used(&mut self, now: u64)
        ensures
            *final(self) == (ConnectionMetadata {
                created_at: old(self).created_at,
                last_used: now,
                total_requests: count_up(old(self).total_requests),
            }),
    {
        self.last_used = now;
        self.total_requests = up(self.total_requests);
    }

    /// Whether the connection is expired at `now`: idle for more than
    /// `max_idle_time` seconds, or older than `max_lifetime` seconds.
    pub open spec fn expired(self, now: u64, max_idle_time: u64, max_lifetime: u64) -> bool {
        elapsed(now, self.last_used) > max_idle_time * 1000 || elapsed(now, self.created_at)
            > max_lifetime * 1000
    }

    /// Whether the connection is expired at `now`.
    pub fn is_expired(&self, now: u64, max_idle_time: u64, max_lifetime: u64) -> (r: bool)
        ensures
            r == self.expired(now, max_idle_time, max_lifetime),
    {
        let idle: u128 = if now >= self.last_used {
            (now - self.last_used) as u128
        } else {
            0
        };
        let age: u128 = if now >= self.created_at {
            (now - self.created_at) as u128
        } else {
            0
        };
        idle > max_idle_time as u128 * 1000 || age > max_lifetime as u128 * 1000
    }
}

impl PooledConnection {
    /// A connection that enters the pool at `now`.
    pub fn new(stream: u64, now: u64) -> (r: PooledConnection)
        ensures
            r == PooledConnection::fresh(stream, now),
    {
        PooledConnection { stream, metadata: ConnectionMetadata::new(now) }
    }

    /// A connection that enters the pool at `now`.
    pub open spec fn fresh(stream: u64, now: u64) -> PooledConnection {
        PooledConnection {
            stream,
            metadata: ConnectionMetadata { created_at: now, last_used: now, total_requests: 0 },
        }
    }

    /// Notes a use at `now`.
    pub fn update_usage(&mut self, now: u64)
        ensures
            final(self).stream == old(self).stream,
            final(self).metadata == (ConnectionMetadata {
                created_at: old(self).metadata.created_at,
                last_used: now,
                total_requests: count_up(old(self).metadata.total_requests),
            }),
    {
        self.metadata.update_last_used(now);
    }

    /// Whether the connection is expired at `now` under `config`.
    pub open spec fn expired(self, now: u64, config: ConnectionPoolConfig) -> bool {
        self.metadata.expired(now, config.max_idle_time, config.max_lifetime)
    }

    /// Whether the connection is expired at `now`.
    pub fn is_expired(&self, now: u64, max_idle_time: u64, max_lifetime: u64) -> (r: bool)
        ensures
            r == self.metadata.expired(now, max_idle_time, max_lifetime),
    {
        self.metadata.is_expired(now, max_idle_time, max_lifetime)
    }
}

/// The configuration of a pool. Times are in seconds.
#[derive(Clone, Copy, Debug, PartialEq, Eq, Structural)]
pub struct ConnectionPoolConfig {
    pub max_connections_per_host: usize,
    pub max_idle_time: u64,
    pub max_lifetime: u64,
    pub cleanup_interval: u64,
    pub enable_keep_alive: bool,
}

impl Default for ConnectionPoolConfig {
    fn default() -> (r: ConnectionPoolConfig)
        ensures
            r == ConnectionPoolConfig::standard(),
    {
        ConnectionPoolConfig {
            max_connections_per_host: 32,
            max_idle_time: 75,
            max_lifetime: 600,
            cleanup_interval: 30,
            enable_keep_alive: true,
        }
    }
}

impl ConnectionPoolConfig {
    /// The standard configuration: 32 connections per host, 75 seconds
    /// idle, ten minutes of life, a sweep every 30 seconds.
    pub open spec fn standard() -> ConnectionPoolConfig {
        ConnectionPoolConfig {
            max_connections_per_host: 32,
            max_idle_time: 75,
            max_lifetime: 600,
            cleanup_interval: 30,
            enable_keep_alive: true,
        }
    }

    /// The standard configuration.
    pub fn new() -> (r: ConnectionPoolConfig)
        ensures
            r == ConnectionPoolConfig::standard(),
    {
        ConnectionPoolConfig {
            max_connections_per_host: 32,
            max_idle_time: 75,
            max_lifetime: 600,
            cleanup_interval: 30,
            enable_keep_alive: true,
        }
    }

    /// Sets the largest number of idle connections kept per host.
    pub fn max_connections_per_host(self, max_connections: usize) -> (r: ConnectionPoolConfig)
        ensures
            r == (ConnectionPoolConfig { max_connections_per_host: max_connections, ..self }),
    {
        ConnectionPoolConfig { max_connections_per_host: max_connections, ..self }
    }

    /// Sets the time, in seconds, that a connection may stay idle.
    pub fn idle_timeout(self, timeout_secs: u64) -> (r: ConnectionPoolConfig)
        ensures
            r == (ConnectionPoolConfig { max_idle_time: timeout_secs, ..self }),
    {
        ConnectionPoolConfig { max_idle_time: timeout_secs, ..self }
    }

    /// Sets the time, in seconds, that a connection may live.
    pub fn max_lifetime(self, lifetime_secs: u64) -> (r: ConnectionPoolConfig)
        ensures
            r == (ConnectionPoolConfig { max_lifetime: lifetime_secs, ..self }),
    {
        ConnectionPoolConfig { max_lifetime: lifetime_secs, ..self }
    }

    /// Sets the time, in seconds, between two sweeps.
    pub fn cleanup_interval(self, interval_secs: u64) -> (r: ConnectionPoolConfig)
        ensures
            r == (ConnectionPoolConfig { cleanup_interval: interval_secs, ..self }),
    {
        ConnectionPoolConfig { cleanup_interval: interval_secs, ..self }
    }

    /// Switches keep-alive, and with it pooling, on or off.
    pub fn keep_alive(self, enable: bool) -> (r: ConnectionPoolConfig)
        ensures
            r == (ConnectionPoolConfig { enable_keep_alive: enable, ..self }),
    {
        ConnectionPoolConfig { enable_keep_alive: enable, ..self }
    }

    /// Many connections, long times: 128 per host, five minutes idle,
    /// thirty minutes of life.
    pub fn high_performance() -> (r: ConnectionPoolConfig)
        ensures
            r == (ConnectionPoolConfig {
                max_connections_per_host: 128,
                max_idle_time: 300,
                max_lifetime: 1800,
                cleanup_interval: 60,
                enable_keep_alive: true,
            }),
    {
        ConnectionPoolConfig {
            max_connections_per_host: 128,
            max_idle_time: 300,
            max_lifetime: 1800,
            cleanup_interval: 60,
            enable_keep_alive: true,
        }
    }

    /// Few connections, short times: 16 per host, thirty seconds idle,
    /// five minutes of life.
    pub fn conservative() -> (r: ConnectionPoolConfig)
        ensures
            r == (ConnectionPoolConfig {
                max_connections_per_host: 16,
                max_idle_time: 30,
                max_lifetime: 300,
                cleanup_interval: 15,
                enable_keep_alive: true,
            }),
    {
        ConnectionPoolConfig {
            max_connections_per_host: 16,
            max_idle_time: 30,
            max_lifetime: 300,
            cleanup_interval: 15,
            enable_keep_alive: true,
        }
    }

    /// The standard configuration, under a name that says so.
    pub fn default_config() -> (r: ConnectionPoolConfig)
        ensures
            r == ConnectionPoolConfig::standard(),
    {
        ConnectionPoolConfig::new()
    }

    /// No pooling: no capacity, keep-alive off.
    pub fn disabled() -> (r: ConnectionPoolConfig)
        ensures
            r == (ConnectionPoolConfig {
                max_connections_per_host: 0,
                max_idle_time: 0,
                max_lifetime: 0,
                cleanup_interval: 30,
                enable_keep_alive: false,
            }),
    {
        ConnectionPoolConfig {
            max_connections_per_host: 0,
            max_idle_time: 0,
            max_lifetime: 0,
            cleanup_interval: 30,
            enable_keep_alive: false,
        }
    }
}

/// The index of the first connection in `q[from..]` that is not expired,
/// or the length of `q`.
pub open spec fn first_fresh(
    q: Seq<PooledConnection>,
    from: int,
    now: u64,
    config: ConnectionPoolConfig,
) -> int
    decreases q.len() - from,
{
    if from < 0 || from >= q.len() {
        q.len() as int
    } else if !q[from].expired(now, config) {
        from
    } else {
        first_fresh(q, from + 1, now, config)
    }
}

/// The connections of `q` that are not expired, order kept.
pub open spec fn fresh_only(q: Seq<PooledConnection>, now: u64, config: ConnectionPoolConfig) -> Seq<
    PooledConnection,
>
    decreases q.len(),
{
    if q.len() == 0 {
        q
    } else if q.last().expired(now, config) {
        fresh_only(q.drop_last(), now, config)
    } else {
        fresh_only(q.drop_last(), now, config).push(q.last())
    }
}

/// The handles of the connections of `q` that are expired, order kept.
pub open spec fn expired_streams(q: Seq<PooledConnection>, now: u64, config: ConnectionPoolConfig) -> Seq<
    u64,
>
    decreases q.len(),
{
    if q.len() == 0 {
        Seq::empty()
    } else if q.last().expired(now, config) {
        expired_streams(q.drop_last(), now, config).push(q.last().stream)
    } else {
        expired_streams(q.drop_last(), now, config)
    }
}

/// The handles of the connections of `q`.
pub open spec fn streams(q: Seq<PooledConnection>) -> Seq<u64> {
    Seq::new(q.len(), |i: int| q[i].stream)
}

/// `keys` names every host of `hosts` once.
pub open spec fn enumerates(keys: Seq<HostKey>, hosts: Map<HostKey, Seq<PooledConnection>>) -> bool {
    keys.no_duplicates() && keys.to_set() == hosts.dom()
}

/// The handles of the expired connections of the hosts `keys`, host by
/// host.
pub open spec fn expired_of(
    hosts: Map<HostKey, Seq<PooledConnection>>,
    keys: Seq<HostKey>,
    now: u64,
    config: ConnectionPoolConfig,
) -> Seq<u64>
    decreases keys.len(),
{
    if keys.len() == 0 {
        Seq::empty()
    } else {
        expired_of(hosts, keys.drop_last(), now, config) + expired_streams(
            hosts[keys.last()],
            now,
            config,
        )
    }
}

/// The handles of all connections of the hosts `keys`, host by host.
pub open spec fn streams_of(hosts: Map<HostKey, Seq<PooledConnection>>, keys: Seq<HostKey>) -> Seq<
    u64,
>
    decreases keys.len(),
{
    if keys.len() == 0 {
        Seq::empty()
    } else {
        streams_of(hosts, keys.drop_last()) + streams(hosts[keys.last()])
    }
}

/// The number of connections of the hosts `keys`.
pub open spec fn pooled_of(hosts: Map<HostKey, Seq<PooledConnection>>, keys: Seq<HostKey>) -> nat
    decreases keys.len(),
{
    if keys.len() == 0 {
        0
    } else {
        pooled_of(hosts, keys.drop_last()) + hosts[keys.last()].len()
    }
}

/// The hosts after a sweep at `now`: every queue keeps its connections
/// that are not expired, and a host whose queue is left empty is gone.
pub open spec fn swept(
    hosts: Map<HostKey, Seq<PooledConnection>>,
    now: u64,
    config: ConnectionPoolConfig,
) -> Map<HostKey, Seq<PooledConnection>> {
    Map::new(
        |k: HostKey| hosts.contains_key(k) && fresh_only(hosts[k], now, config).len() > 0,
        |k: HostKey| fresh_only(hosts[k], now, config),
    )
}

/// The pool, as a mathematical value.
pub struct PoolView {
    pub hosts: Map<HostKey, Seq<PooledConnection>>,
    pub config: ConnectionPoolConfig,
    pub total_connections: u64,
    pub active_connections: u64,
    pub reused_connections: u64,
    pub connection_hits: u64,
    pub connection_misses: u64,
}

impl PoolView {
    /// The queue of a host; empty where the pool knows none.
    pub open spec fn queue_of(self, key: HostKey) -> Seq<PooledConnection> {
        if self.hosts.contains_key(key) {
            self.hosts[key]
        } else {
            Seq::empty()
        }
    }

    /// No queue is longer than the configuration allows.
    pub open spec fn wf(self) -> bool {
        forall|k: HostKey| #[trigger]
            self.hosts.contains_key(k) ==> self.hosts[k].len()
                <= self.config.max_connections_per_host
    }

    /// The index in the queue of `key` of the connection that a lookup at
    /// `now` hands out: the first that is not expired.
    pub open spec fn hit_index(self, key: HostKey, now: u64) -> int {
        first_fresh(self.queue_of(key), 0, now, self.config)
    }

    /// Whether a lookup at `now` finds a connection for `key`.
    pub open spec fn is_hit(self, key: HostKey, now: u64) -> bool {
        self.hit_index(key, now) < self.queue_of(key).len()
    }

    /// The connection that a lookup at `now` hands out for `key`.
    pub open spec fn acquired(self, key: HostKey, now: u64) -> Option<u64> {
        if self.is_hit(key, now) {
            Some(self.queue_of(key)[self.hit_index(key, now)].stream)
        } else {
            None
        }
    }

    /// The pool after a lookup at `now` for `key`: the queue has lost the
    /// expired connections at its front and the one handed out; a hit counts
    /// as a hit and a reuse, a miss as a miss and a new, active connection.
    pub open spec fn after_acquire(self, key: HostKey, now: u64) -> PoolView {
        let q = self.queue_of(key);
        let hit = self.is_hit(key, now);
        PoolView {
            hosts: if self.hosts.contains_key(key) {
                self.hosts.insert(
                    key,
                    if hit {
                        q.subrange(self.hit_index(key, now) + 1, q.len() as int)
                    } else {
                        Seq::empty()
                    },
                )
            } else {
                self.hosts
            },
            connection_hits: if hit {
                count_up(self.connection_hits)
            } else {
                self.connection_hits
            },
            reused_connections: if hit {
                count_up(self.reused_connections)
            } else {
                self.reused_connections
            },
            connection_misses: if hit {
                self.connection_misses
            } else {
                count_up(self.connection_misses)
            },
            total_connections: if hit {
                self.total_connections
            } else {
                count_up(self.total_connections)
            },
            active_connections: if hit {
                self.active_connections
            } else {
                count_up(self.active_connections)
            },
            ..self
        }
    }

    /// Whether a connection that is returned for `key` is pooled: it is
    /// to be kept alive, pooling is on, and the queue is not full.
    pub open spec fn takes(self, key: HostKey, keep_alive: bool) -> bool {
        keep_alive && self.config.enable_keep_alive && self.queue_of(key).len()
            < self.config.max_connections_per_host
    }

    /// The pool after `stream` is returned for `key` at `now`: where it is
    /// pooled it stands at the back of the queue; a connection to be kept
    /// alive makes the host known even where the queue is full. Either way
    /// the connection is active no more.
    pub open spec fn after_return(self, key: HostKey, stream: u64, keep_alive: bool, now: u64) -> PoolView {
        PoolView {
            hosts: if !keep_alive || !self.config.enable_keep_alive {
                self.hosts
            } else if self.takes(key, keep_alive) {
                self.hosts.insert(key, self.queue_of(key).push(PooledConnection::fresh(stream, now)))
            } else {
                self.hosts.insert(key, self.queue_of(key))
            },
            active_connections: count_down(self.active_connections),
            ..self
        }
    }

    /// The pool after the connections `streams` are returned for `key` at
    /// `now`, one after the other, each to be kept alive.
    pub open spec fn after_returns(self, key: HostKey, streams: Seq<u64>, now: u64) -> PoolView
        decreases streams.len(),
    {
        if streams.len() == 0 {
            self
        } else {
            self.after_returns(key, streams.drop_last(), now).after_return(
                key,
                streams.last(),
                true,
                now,
            )
        }
    }
}

/// What a lookup brought: the connection to reuse, if any, and the
/// expired connections that left the queue and are to be closed.
#[derive(Debug)]
pub struct Acquired {
    pub connection: Option<u64>,
    pub expired: Vec<u64>,
}

/// The connection pool.
pub struct ConnectionPool {
    pools: DashMap<HostKey, VecDeque<PooledConnection>>,
    config: ConnectionPoolConfig,
    total_connections: u64,
    active_connections: u64,
    reused_connections: u64,
    connection_hits: u64,
    connection_misses: u64,
}

impl View for ConnectionPool {
    type V = PoolView;

    closed spec fn view(&self) -> PoolView {
        PoolView {
            hosts: host_queues(self.pools),
            config: self.config,
            total_connections: self.total_connections,
            active_connections: self.active_connections,
            reused_connections: self.reused_connections,
            connection_hits: self.connection_hits,
            connection_misses: self.connection_misses,
        }
    }
}

/// A queue without the connections at its front that are expired, which
/// are counted.
fn drop_expired_front(
    queue: &mut VecDeque<PooledConnection>,
    expired: &mut Vec<u64>,
    now: u64,
    config: &ConnectionPoolConfig,
) -> (hit: Option<u64>)
    ensures
        ({
            let q = old(queue)@;
            let i = first_fresh(q, 0, now, *config);
            &&& final(expired)@ == old(expired)@ + streams(q.subrange(0, i))
            &&& match hit {
                Some(stream) => i < q.len() && stream == q[i].stream && final(queue)@ == q.subrange(
                    i + 1,
                    q.len() as int,
                ),
                None => i == q.len() && final(queue)@.len() == 0,
            }
        }),
{
    let ghost q = queue@;
    let ghost i: int = 0;
    proof {
        assert(streams(q.subrange(0, 0)) =~= Seq::empty());
        assert(q.subrange(0, q.len() as int) =~= q);
        assert(expired@ + streams(q.subrange(0, 0)) =~= expired@);
    }
    loop
        invariant
            0 <= i <= q.len(),
            q == old(queue)@,
            queue@ == q.subrange(i, q.len() as int),
            expired@ == old(expired)@ + streams(q.subrange(0, i)),
            first_fresh(q, 0, now, *config) == first_fresh(q, i, now, *config),
        decreases q.len() - i,
    {
        match queue.pop_front() {
            Some(conn) => {
                assert(conn == q[i]);
                assert(queue@ =~= q.subrange(i + 1, q.len() as int));
                if !conn.is_expired(now, config.max_idle_time, config.max_lifetime) {
                    return Some(conn.stream);
                }
                let ghost before = expired@;
                expired.push(conn.stream);
                proof {
                    assert(streams(q.subrange(0, i + 1)) =~= streams(q.subrange(0, i)).push(
                        conn.stream,
                    ));
                    assert(expired@ =~= old(expired)@ + streams(q.subrange(0, i + 1)));
                    i = i + 1;
                }
            },
            None => {
                return None;
            },
        }
    }
}

/// A queue without its connections that are expired, which are counted.
fn drop_expired(
    queue: VecDeque<PooledConnection>,
    expired: &mut Vec<u64>,
    now: u64,
    config: &ConnectionPoolConfig,
) -> (kept: VecDeque<PooledConnection>)
    ensures
        kept@ == fresh_only(queue@, now, *config),
        final(expired)@ == old(expired)@ + expired_streams(queue@, now, *config),
        kept@.len() <= queue@.len(),
{
    let ghost q = queue@;
    let mut rest = queue;
    let mut kept: VecDeque<PooledConnection> = VecDeque::new();
    let ghost i: int = 0;
    proof {
        assert(q.subrange(0, 0) =~= Seq::empty());
        assert(q.subrange(0, q.len() as int) =~= q);
        assert(expired@ + expired_streams(q.subrange(0, 0), now, *config) =~= expired@);
    }
    loop
        invariant
            0 <= i <= q.len(),
            q == queue@,
            rest@ == q.subrange(i, q.len() as int),
            kept@ == fresh_only(q.subrange(0, i), now, *config),
            kept@.len() <= i,
            expired@ == old(expired)@ + expired_streams(q.subrange(0, i), now, *config),
        decreases q.len() - i,
    {
        match rest.pop_front() {
            Some(conn) => {
                proof {
                    assert(conn == q[i]);
                    assert(rest@ =~= q.subrange(i + 1, q.len() as int));
                    assert(q.subrange(0, i + 1).drop_last() =~= q.subrange(0, i));
                    assert(q.subrange(0, i + 1).last() == conn);
                }
                if conn.is_expired(now, config.max_idle_time, config.max_lifetime) {
                    let ghost before = expired@;
                    expired.push(conn.stream);
                    assert(expired@ =~= old(expired)@ + expired_streams(
                        q.subrange(0, i + 1),
                        now,
                        *config,
                    ));
                } else {
                    kept.push_back(conn);
                }
                proof {
                    i = i + 1;
                }
            },
            None => {
                assert(q.subrange(0, i) =~= q);
                return kept;
            },
        }
    }
}

/// What `first_fresh` finds: an index at or behind `from`; the connection
/// there is not expired, and all between `from` and it are.
pub proof fn lemma_first_fresh(
    q: Seq<PooledConnection>,
    from: int,
    now: u64,
    config: ConnectionPoolConfig,
)
    requires
        0 <= from <= q.len(),
    ensures
        ({
            let i = first_fresh(q, from, now, config);
            &&& from <= i <= q.len()
            &&& i < q.len() ==> !q[i].expired(now, config)
            &&& forall|j: int| from <= j < i ==> (#[trigger] q[j]).expired(now, config)
        }),
    decreases q.len() - from,
{
    if from < q.len() && q[from].expired(now, config) {
        lemma_first_fresh(q, from + 1, now, config);
    }
}

/// Pool expiry: the connection that a lookup hands out is not expired at
/// the time of the lookup, so it has not been idle for longer than the
/// configured time, whatever stands in the queue; and what stood before it in
/// the queue was expired.
pub proof fn lemma_pool_expiry(pool: PoolView, key: HostKey, now: u64)
    ensures
        ({
            let q = pool.queue_of(key);
            let i = pool.hit_index(key, now);
            &&& 0 <= i <= q.len()
            &&& forall|j: int| 0 <= j < i ==> (#[trigger] q[j]).expired(now, pool.config)
            &&& match pool.acquired(key, now) {
                Some(stream) => {
                    &&& i < q.len()
                    &&& stream == q[i].stream
                    &&& !q[i].expired(now, pool.config)
                    &&& elapsed(now, q[i].metadata.last_used) <= pool.config.max_idle_time * 1000
                    &&& elapsed(now, q[i].metadata.created_at) <= pool.config.max_lifetime * 1000
                },
                None => i == q.len(),
            }
        }),
{
    lemma_first_fresh(pool.queue_of(key), 0, now, pool.config);
}

/// Returns to one host, one after the other, fill its queue from the
/// back until it is full; what is returned to a full queue is not queued.
pub proof fn lemma_returns(pool: PoolView, key: HostKey, streams_in: Seq<u64>, now: u64)
    requires
        pool.config.enable_keep_alive,
        pool.queue_of(key).len() == 0,
    ensures
        ({
            let after = pool.after_returns(key, streams_in, now);
            let max = pool.config.max_connections_per_host as int;
            let kept = if streams_in.len() <= max {
                streams_in.len() as int
            } else {
                max
            };
            &&& after.config == pool.config
            &&& after.queue_of(key).len() == kept
            &&& streams(after.queue_of(key)) == streams_in.subrange(0, kept)
        }),
    decreases streams_in.len(),
{
    let after = pool.after_returns(key, streams_in, now);
    let max = pool.config.max_connections_per_host as int;
    if streams_in.len() == 0 {
        assert(streams(after.queue_of(key)) =~= streams_in.subrange(0, 0));
    } else {
        let before = pool.after_returns(key, streams_in.drop_last(), now);
        lemma_returns(pool, key, streams_in.drop_last(), now);
        let n = streams_in.len() - 1;
        let kept_before = if n <= max {
            n
        } else {
            max
        };
        assert(streams_in.drop_last().subrange(0, kept_before) =~= streams_in.subrange(
            0,
            kept_before,
        ));
        if before.takes(key, true) {
            assert(after.queue_of(key) == before.queue_of(key).push(
                PooledConnection::fresh(streams_in.last(), now),
            ));
            assert(streams(after.queue_of(key)) =~= streams_in.subrange(0, kept_before + 1));
        } else {
            assert(after.queue_of(key) == before.queue_of(key));
        }
    }
}

/// Pool capacity: one more connection than a host may hold, returned to
/// a host that holds none, leaves exactly as many pooled as the host may
/// hold: the first ones, in order. The extra one is not queued.
pub proof fn lemma_pool_capacity(pool: PoolView, key: HostKey, streams_in: Seq<u64>, now: u64)
    requires
        pool.config.enable_keep_alive,
        pool.queue_of(key).len() == 0,
        streams_in.len() == pool.config.max_connections_per_host + 1,
    ensures
        pool.after_returns(key, streams_in, now).queue_of(key).len()
            == pool.config.max_connections_per_host,
        streams(pool.after_returns(key, streams_in, now).queue_of(key)) == streams_in.drop_last(),
{
    lemma_returns(pool, key, streams_in, now);
    assert(streams_in.subrange(0, pool.config.max_connections_per_host as int)
        =~= streams_in.drop_last());
}

/// A pooled count, held at the largest number.
pub open spec fn clip(n: nat) -> u64 {
    if n <= u64::MAX {
        n as u64
    } else {
        u64::MAX
    }
}

/// The hosts with the hosts in `done` swept.
pub open spec fn swept_in(
    hosts: Map<HostKey, Seq<PooledConnection>>,
    done: Set<HostKey>,
    now: u64,
    config: ConnectionPoolConfig,
) -> Map<HostKey, Seq<PooledConnection>> {
    Map::new(
        |k: HostKey|
            hosts.contains_key(k) && (done.contains(k) ==> fresh_only(hosts[k], now, config).len()
                > 0),
        |k: HostKey|
            if done.contains(k) {
                fresh_only(hosts[k], now, config)
            } else {
                hosts[k]
            },
    )
}

/// The hosts without the hosts in `done`.
pub open spec fn without(hosts: Map<HostKey, Seq<PooledConnection>>, done: Set<HostKey>) -> Map<
    HostKey,
    Seq<PooledConnection>,
> {
    Map::new(|k: HostKey| hosts.contains_key(k) && !done.contains(k), |k: HostKey| hosts[k])
}

impl ConnectionPool {
    #[verifier::type_invariant]
    spec fn inv(self) -> bool {
        self@.wf()
    }

    /// A pool that holds no connection.
    pub fn new(config: ConnectionPoolConfig) -> (r: ConnectionPool)
        ensures
            r@ == (PoolView {
                hosts: no_hosts(),
                config,
                total_connections: 0,
                active_connections: 0,
                reused_connections: 0,
                connection_hits: 0,
                connection_misses: 0,
            }),
            r@.wf(),
    {
        ConnectionPool {
            pools: hosts_new(),
            config,
            total_connections: 0,
            active_connections: 0,
            reused_connections: 0,
            connection_hits: 0,
            connection_misses: 0,
        }
    }

    /// The configuration that the pool was made with.
    pub fn config(&self) -> (r: ConnectionPoolConfig)
        ensures
            r == self@.config,
            self@.wf(),
    {
        proof {
            use_type_invariant(self);
        }
        self.config
    }

    /// Looks for an idle connection to `addr` at `now`. Expired
    /// connections at the front of the queue leave it and are handed back to
    /// be closed; the first connection that is not expired is handed out. On
    /// a miss the caller opens a new connection, which the pool counts.
    pub fn get_connection(&mut self, addr: PeerAddr, now: u64) -> (r: Acquired)
        ensures
            final(self)@ == old(self)@.after_acquire(addr.host_key(), now),
            r.connection == old(self)@.acquired(addr.host_key(), now),
            r.expired@ == streams(
                old(self)@.queue_of(addr.host_key()).subrange(
                    0,
                    old(self)@.hit_index(addr.host_key(), now),
                ),
            ),
            final(self)@.wf(),
    {
        proof {
            use_type_invariant(&*self);
        }
        let ghost before = self@;
        assert(before.wf());
        let key = addr.key();
        let config = self.config;
        let mut expired: Vec<u64> = Vec::new();
        let hit = match hosts_take(&mut self.pools, key) {
            Some(queue) => {
                let mut queue = queue;
                let ghost q = queue@;
                proof {
                    lemma_first_fresh(q, 0, now, config);
                }
                let hit = drop_expired_front(&mut queue, &mut expired, now, &config);
                hosts_put(&mut self.pools, key, queue);
                proof {
                    assert(q == before.queue_of(key));
                    assert(expired@ =~= streams(q.subrange(0, first_fresh(q, 0, now, config))));
                    if hit is None {
                        assert(queue@ =~= Seq::empty());
                    }
                    assert(host_queues(self.pools) =~= before.hosts.insert(key, queue@));
                    assert(host_queues(self.pools) =~= before.after_acquire(key, now).hosts);
                }
                hit
            },
            None => {
                proof {
                    let q = before.queue_of(key);
                    assert(expired@ =~= streams(q.subrange(0, 0)));
                    assert(host_queues(self.pools) =~= before.hosts);
                }
                None
            },
        };
        match hit {
            Some(_) => {
                self.connection_hits = up(self.connection_hits);
                self.reused_connections = up(self.reused_connections);
            },
            None => {
                self.connection_misses = up(self.connection_misses);
                self.total_connections = up(self.total_connections);
                self.active_connections = up(self.active_connections);
            },
        }
        Acquired { connection: hit, expired }
    }

    /// Hands a connection to `addr` back at `now`. It is pooled where it
    /// is to be kept alive, pooling is on and the queue of the host is not
    /// full; otherwise the caller closes it.
    pub fn return_connection(&mut self, addr: PeerAddr, stream: u64, keep_alive: bool, now: u64) -> (pooled:
        bool)
        ensures
            final(self)@ == old(self)@.after_return(addr.host_key(), stream, keep_alive, now),
            pooled == old(self)@.takes(addr.host_key(), keep_alive),
            final(self)@.wf(),
    {
        proof {
            use_type_invariant(&*self);
        }
        let ghost before = self@;
        assert(before.wf());
        let key = addr.key();
        assert(self@.hosts == before.hosts);
        if !keep_alive || !self.config.enable_keep_alive {
            self.active_connections = down(self.active_connections);
            return false;
        }
        let mut queue = match hosts_take(&mut self.pools, key) {
            Some(queue) => queue,
            None => VecDeque::new(),
        };
        let pooled = queue.len() < self.config.max_connections_per_host;
        if pooled {
            queue.push_back(PooledConnection::new(stream, now));
        }
        hosts_put(&mut self.pools, key, queue);
        proof {
            assert(host_queues(self.pools) =~= before.after_return(
                key,
                stream,
                keep_alive,
                now,
            ).hosts);
        }
        self.active_connections = down(self.active_connections);
        pooled
    }

    /// Sweeps every host at `now`: expired connections leave their queues
    /// and are handed back to be closed, and a host whose queue is left empty
    /// is forgotten.
    pub fn cleanup_expired_connections(&mut self, now: u64) -> (dropped: Vec<u64>)
        ensures
            final(self)@ == (PoolView {
                hosts: swept(old(self)@.hosts, now, old(self)@.config),
                ..old(self)@
            }),
            exists|keys: Seq<HostKey>|
                enumerates(keys, old(self)@.hosts) && dropped@ == expired_of(
                    old(self)@.hosts,
                    keys,
                    now,
                    old(self)@.config,
                ),
            final(self)@.wf(),
    {
        proof {
            use_type_invariant(&*self);
        }
        let ghost before = self@;
        let config = self.config;
        let keys = hosts_keys(&self.pools);
        let mut dropped: Vec<u64> = Vec::new();
        let ghost done: Set<HostKey> = Set::empty();
        let mut i: usize = 0;
        proof {
            assert(keys@.subrange(0, 0) =~= Seq::empty());
            assert(host_queues(self.pools) =~= swept_in(before.hosts, done, now, config));
        }
        while i < keys.len()
            invariant
                i <= keys.len(),
                before.wf(),
                before.config == config,
                self.config == config,
                self.total_connections == before.total_connections,
                self.active_connections == before.active_connections,
                self.reused_connections == before.reused_connections,
                self.connection_hits == before.connection_hits,
                self.connection_misses == before.connection_misses,
                enumerates(keys@, before.hosts),
                forall|j: int| 0 <= j < keys@.len() ==> (done.contains(#[trigger] keys@[j]) <==> j < i),
                host_queues(self.pools) == swept_in(before.hosts, done, now, config),
                dropped@ == expired_of(before.hosts, keys@.subrange(0, i as int), now, config),
            decreases keys.len() - i,
        {
            let key = keys[i];
            proof {
                use_type_invariant(&*self);
                assert(keys@.to_set().contains(key));
                assert(before.hosts.contains_key(key));
                assert(!done.contains(key));
                assert(keys@.subrange(0, i + 1).drop_last() =~= keys@.subrange(0, i as int));
                assert(keys@.subrange(0, i + 1).last() == key);
            }
            let ghost cur = self@;
            proof {
                assert(cur.wf());
                assert(before.hosts[key].len() <= config.max_connections_per_host);
                let taken = PoolView { hosts: cur.hosts.remove(key), ..cur };
                assert forall|k: HostKey| #[trigger] taken.hosts.contains_key(k) implies taken.hosts[k].len()
                    <= taken.config.max_connections_per_host by {
                    assert(cur.hosts.contains_key(k));
                }
                assert(taken.wf());
            }
            match hosts_take(&mut self.pools, key) {
                Some(queue) => {
                    assert(queue@ == before.hosts[key]);
                    let ghost taken = self@;
                    let kept = drop_expired(queue, &mut dropped, now, &config);
                    if kept.len() > 0 {
                        proof {
                            let put = PoolView { hosts: taken.hosts.insert(key, kept@), ..taken };
                            assert forall|k: HostKey| #[trigger]
                                put.hosts.contains_key(k) implies put.hosts[k].len()
                                <= put.config.max_connections_per_host by {
                                if k != key {
                                    assert(taken.hosts.contains_key(k));
                                }
                            }
                            assert(put.wf());
                        }
                        hosts_put(&mut self.pools, key, kept);
                    }
                },
                None => {
                    assert(false);
                },
            }
            proof {
                let next = done.insert(key);
                assert forall|j: int| 0 <= j < keys@.len() implies (next.contains(
                    #[trigger] keys@[j],
                ) <==> j < i + 1) by {
                    if j != i && keys@[j] == key {
                        assert(keys@[j] == keys@[i as int]);
                    }
                }
                assert(host_queues(self.pools) =~= swept_in(before.hosts, next, now, config));
                done = next;
            }
            i += 1;
        }
        proof {
            assert(keys@.subrange(0, keys@.len() as int) =~= keys@);
            assert forall|k: HostKey| before.hosts.contains_key(k) implies done.contains(k) by {
                assert(keys@.to_set().contains(k));
                let j = choose|j: int| 0 <= j < keys@.len() && keys@[j] == k;
                assert(done.contains(keys@[j]));
            }
            assert(host_queues(self.pools) =~= swept(before.hosts, now, config));
            use_type_invariant(&*self);
            assert(enumerates(keys@, before.hosts));
        }
        dropped
    }

    /// The counts of the pool; the pooled connections are counted host by
    /// host.
    pub fn stats(&self) -> (r: ConnectionStats)
        ensures
            r.total_connections == self@.total_connections,
            r.active_connections == self@.active_connections,
            r.reused_connections == self@.reused_connections,
            r.connection_hits == self@.connection_hits,
            r.connection_misses == self@.connection_misses,
            exists|keys: Seq<HostKey>|
                enumerates(keys, self@.hosts) && r.pooled_connections == clip(
                    pooled_of(self@.hosts, keys),
                ),
    {
        let keys = hosts_keys(&self.pools);
        let mut total: u64 = 0;
        let mut i: usize = 0;
        assert(keys@.subrange(0, 0) =~= Seq::empty());
        while i < keys.len()
            invariant
                i <= keys.len(),
                enumerates(keys@, host_queues(self.pools)),
                total == clip(pooled_of(host_queues(self.pools), keys@.subrange(0, i as int))),
            decreases keys.len() - i,
        {
            let key = keys[i];
            proof {
                assert(keys@.to_set().contains(key));
                assert(keys@.subrange(0, i + 1).drop_last() =~= keys@.subrange(0, i as int));
                assert(keys@.subrange(0, i + 1).last() == key);
            }
            let len: u64 = match hosts_queue_len(&self.pools, key) {
                Some(n) => if n as u128 <= u64::MAX as u128 {
                    n as u64
                } else {
                    u64::MAX
                },
                None => 0,
            };
            total = if total <= u64::MAX - len {
                total + len
            } else {
                u64::MAX
            };
            i += 1;
        }
        assert(keys@.subrange(0, keys@.len() as int) =~= keys@);
        assert(enumerates(keys@, self@.hosts) && total == clip(pooled_of(self@.hosts, keys@)));
        ConnectionStats {
            total_connections: self.total_connections,
            active_connections: self.active_connections,
            pooled_connections: total,
            reused_connections: self.reused_connections,
            connection_hits: self.connection_hits,
            connection_misses: self.connection_misses,
        }
    }

    /// Empties the pool: every pooled connection is handed back to be
    /// closed, host by host, and every host is forgotten.
    pub fn clear(&mut self) -> (dropped: Vec<u64>)
        ensures
            final(self)@ == (PoolView { hosts: no_hosts(), ..old(self)@ }),
            exists|keys: Seq<HostKey>|
                enumerates(keys, old(self)@.hosts) && dropped@ == streams_of(old(self)@.hosts, keys),
            final(self)@.wf(),
    {
        proof {
            use_type_invariant(&*self);
        }
        let ghost before = self@;
        let keys = hosts_keys(&self.pools);
        let mut dropped: Vec<u64> = Vec::new();
        let ghost done: Set<HostKey> = Set::empty();
        let mut i: usize = 0;
        proof {
            assert(keys@.subrange(0, 0) =~= Seq::empty());
            assert(host_queues(self.pools) =~= without(before.hosts, done));
        }
        while i < keys.len()
            invariant
                i <= keys.len(),
                before.wf(),
                self.config == before.config,
                self.total_connections == before.total_connections,
                self.active_connections == before.active_connections,
                self.reused_connections == before.reused_connections,
                self.connection_hits == before.connection_hits,
                self.connection_misses == before.connection_misses,
                enumerates(keys@, before.hosts),
                forall|j: int| 0 <= j < keys@.len() ==> (done.contains(#[trigger] keys@[j]) <==> j < i),
                host_queues(self.pools) == without(before.hosts, done),
                dropped@ == streams_of(before.hosts, keys@.subrange(0, i as int)),
            decreases keys.len() - i,
        {
            let key = keys[i];
            proof {
                use_type_invariant(&*self);
                assert(keys@.to_set().contains(key));
                assert(before.hosts.contains_key(key));
                assert(!done.contains(key));
                assert(keys@.subrange(0, i + 1).drop_last() =~= keys@.subrange(0, i as int));
                assert(keys@.subrange(0, i + 1).last() == key);
            }
            match hosts_take(&mut self.pools, key) {
                Some(queue) => {
                    let mut queue = queue;
                    let ghost q = queue@;
                    let ghost start = dropped@;
                    let ghost n: int = 0;
                    proof {
                        assert(streams(q.subrange(0, 0)) =~= Seq::empty());
                        assert(q.subrange(0, q.len() as int) =~= q);
                        assert(dropped@ =~= start + streams(q.subrange(0, 0)));
                    }
                    loop
                        invariant
                            0 <= n <= q.len(),
                            queue@ == q.subrange(n, q.len() as int),
                            dropped@ == start + streams(q.subrange(0, n)),
                        ensures
                            dropped@ == start + streams(q),
                        decreases q.len() - n,
                    {
                        match queue.pop_front() {
                            Some(conn) => {
                                dropped.push(conn.stream);
                                proof {
                                    assert(queue@ =~= q.subrange(n + 1, q.len() as int));
                                    assert(streams(q.subrange(0, n + 1)) =~= streams(
                                        q.subrange(0, n),
                                    ).push(conn.stream));
                                    assert(dropped@ =~= start + streams(q.subrange(0, n + 1)));
                                    n = n + 1;
                                }
                            },
                            None => {
                                assert(q.subrange(0, n) =~= q);
                                break ;
                            },
                        }
                    }
                },
                None => {
                    assert(false);
                },
            }
            proof {
                let next = done.insert(key);
                assert forall|j: int| 0 <= j < keys@.len() implies (next.contains(
                    #[trigger] keys@[j],
                ) <==> j < i + 1) by {
                    if j != i && keys@[j] == key {
                        assert(keys@[j] == keys@[i as int]);
                    }
                }
                assert(host_queues(self.pools) =~= without(before.hosts, next));
                done = next;
            }
            i += 1;
        }
        proof {
            assert(keys@.subrange(0, keys@.len() as int) =~= keys@);
            assert forall|k: HostKey| before.hosts.contains_key(k) implies done.contains(k) by {
                assert(keys@.to_set().contains(k));
                let j = choose|j: int| 0 <= j < keys@.len() && keys@[j] == k;
                assert(done.contains(keys@[j]));
            }
            assert(host_queues(self.pools) =~= no_hosts());
            use_type_invariant(&*self);
            assert(enumerates(keys@, before.hosts));
        }
        dropped
    }

    /// Shuts the pool down: it is emptied, and every pooled connection is
    /// handed back to be closed.
    pub fn shutdown(&mut self) -> (dropped: Vec<u64>)
        ensures
            final(self)@ == (PoolView { hosts: no_hosts(), ..old(self)@ }),
            exists|keys: Seq<HostKey>|
                enumerates(keys, old(self)@.hosts) && dropped@ == streams_of(old(self)@.hosts, keys),
            final(self)@.wf(),
    {
        self.clear()
    }
}

} // verus!
