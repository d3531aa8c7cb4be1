use atomic_http::options::PeerAddr;
use atomic_http::pool::{
    ConnectionMetadata, ConnectionPool, ConnectionPoolConfig, ConnectionStats, PooledConnection,
};

fn host(port: u16) -> PeerAddr {
    PeerAddr { v6: false, ip: 0x0a000001, port }
}

#[test]
fn presets_are_as_documented() {
    let c = ConnectionPoolConfig::high_performance();
    assert_eq!((c.max_connections_per_host, c.max_idle_time, c.max_lifetime), (128, 300, 1800));
    assert_eq!((c.cleanup_interval, c.enable_keep_alive), (60, true));
    let c = ConnectionPoolConfig::conservative();
    assert_eq!((c.max_connections_per_host, c.max_idle_time, c.max_lifetime), (16, 30, 300));
    assert_eq!((c.cleanup_interval, c.enable_keep_alive), (15, true));
    let c = ConnectionPoolConfig::disabled();
    assert_eq!((c.max_connections_per_host, c.max_idle_time, c.max_lifetime), (0, 0, 0));
    assert_eq!((c.cleanup_interval, c.enable_keep_alive), (30, false));
    let c = ConnectionPoolConfig::new();
    assert_eq!((c.max_connections_per_host, c.max_idle_time, c.max_lifetime), (32, 75, 600));
    assert_eq!(c, ConnectionPoolConfig::default());
    assert_eq!(c, ConnectionPoolConfig::default_config());
}

#[test]
fn builders_set_one_field_each() {
    let c = ConnectionPoolConfig::new()
        .max_connections_per_host(3)
        .idle_timeout(4)
        .max_lifetime(5)
        .cleanup_interval(6)
        .keep_alive(false);
    assert_eq!(
        c,
        ConnectionPoolConfig {
            max_connections_per_host: 3,
            max_idle_time: 4,
            max_lifetime: 5,
            cleanup_interval: 6,
            enable_keep_alive: false,
        }
    );
}

#[test]
fn metadata_expires_by_idle_time_or_age() {
    let mut m = ConnectionMetadata::new(1000);
    assert_eq!(m, ConnectionMetadata { created_at: 1000, last_used: 1000, total_requests: 0 });
    assert!(!m.is_expired(1000 + 5000, 5, 60));
    assert!(m.is_expired(1000 + 5001, 5, 60));
    assert!(!m.is_expired(0, 0, 0));
    assert!(m.is_expired(1001, 0, 60));
    m.update_last_used(50_000);
    assert_eq!(m.total_requests, 1);
    assert!(!m.is_expired(55_000, 5, 60));
    assert!(m.is_expired(61_001, 5, 60));
    let mut c = PooledConnection::new(9, 0);
    c.update_usage(10);
    assert_eq!(c.metadata.last_used, 10);
    assert!(c.is_expired(u64::MAX, u64::MAX / 1000, 0));
    assert!(!c.is_expired(u64::MAX, u64::MAX, u64::MAX));
}

#[test]
fn one_more_than_the_capacity_leaves_exactly_the_capacity_pooled() {
    let max = 4usize;
    let mut pool = ConnectionPool::new(ConnectionPoolConfig::new().max_connections_per_host(max));
    for stream in 0..(max as u64 + 1) {
        let pooled = pool.return_connection(host(80), stream, true, 0);
        assert_eq!(pooled, stream < max as u64);
    }
    assert_eq!(pool.stats().pooled_connections, max as u64);
    for stream in 0..(max as u64) {
        assert_eq!(pool.get_connection(host(80), 1).connection, Some(stream));
    }
    assert_eq!(pool.get_connection(host(80), 1).connection, None);
}

#[test]
fn an_expired_connection_is_never_handed_out() {
    let config = ConnectionPoolConfig::new().idle_timeout(10).max_lifetime(1000);
    let mut pool = ConnectionPool::new(config);
    assert!(pool.return_connection(host(80), 1, true, 0));
    assert!(pool.return_connection(host(80), 2, true, 5_000));
    assert!(pool.return_connection(host(80), 3, true, 9_000));
    let got = pool.get_connection(host(80), 15_000);
    assert_eq!(got.connection, Some(2));
    assert_eq!(got.expired, vec![1]);
    let got = pool.get_connection(host(80), 19_001);
    assert_eq!(got.connection, None);
    assert_eq!(got.expired, vec![3]);
    let stats = pool.stats();
    assert_eq!(stats.connection_hits, 1);
    assert_eq!(stats.reused_connections, 1);
    assert_eq!(stats.connection_misses, 1);
    assert_eq!(stats.total_connections, 1);
    assert_eq!(stats.pooled_connections, 0);
}

#[test]
fn a_connection_at_the_idle_limit_is_still_fresh() {
    let config = ConnectionPoolConfig::new().idle_timeout(10).max_lifetime(1000);
    let mut pool = ConnectionPool::new(config);
    assert!(pool.return_connection(host(80), 1, true, 0));
    assert_eq!(pool.get_connection(host(80), 10_000).connection, Some(1));
    assert!(pool.return_connection(host(80), 1, true, 0));
    assert_eq!(pool.get_connection(host(80), 10_001).connection, None);
}

#[test]
fn connections_are_not_pooled_without_keep_alive() {
    let mut pool = ConnectionPool::new(ConnectionPoolConfig::new());
    assert!(!pool.return_connection(host(80), 1, false, 0));
    assert_eq!(pool.stats().pooled_connections, 0);
    let mut pool = ConnectionPool::new(ConnectionPoolConfig::disabled());
    assert!(!pool.return_connection(host(80), 1, true, 0));
    let mut pool = ConnectionPool::new(ConnectionPoolConfig::new().max_connections_per_host(0));
    assert!(!pool.return_connection(host(80), 1, true, 0));
    assert_eq!(pool.stats().pooled_connections, 0);
    assert_eq!(pool.config().max_connections_per_host, 0);
}

#[test]
fn hosts_have_queues_of_their_own() {
    let mut pool = ConnectionPool::new(ConnectionPoolConfig::new().max_connections_per_host(1));
    assert!(pool.return_connection(host(80), 1, true, 0));
    assert!(pool.return_connection(host(81), 2, true, 0));
    assert!(pool.return_connection(PeerAddr { v6: true, ip: 0x0a000001, port: 80 }, 3, true, 0));
    assert!(!pool.return_connection(host(80), 4, true, 0));
    assert_eq!(pool.stats().pooled_connections, 3);
    assert_eq!(pool.get_connection(host(81), 0).connection, Some(2));
    assert_eq!(pool.get_connection(host(82), 0).connection, None);
    assert_eq!(pool.stats().pooled_connections, 2);
}

#[test]
fn the_sweep_drops_what_is_expired() {
    let config = ConnectionPoolConfig::new().idle_timeout(1).max_lifetime(100);
    let mut pool = ConnectionPool::new(config);
    assert!(pool.return_connection(host(80), 1, true, 0));
    assert!(pool.return_connection(host(80), 2, true, 2_000));
    assert!(pool.return_connection(host(81), 3, true, 0));
    let mut dropped = pool.cleanup_expired_connections(2_500);
    dropped.sort();
    assert_eq!(dropped, vec![1, 3]);
    assert_eq!(pool.stats().pooled_connections, 1);
    assert_eq!(pool.get_connection(host(80), 2_500).connection, Some(2));
    assert_eq!(pool.cleanup_expired_connections(1_000_000), Vec::<u64>::new());
}

#[test]
fn clearing_hands_every_connection_back() {
    let mut pool = ConnectionPool::new(ConnectionPoolConfig::new());
    assert!(pool.return_connection(host(80), 1, true, 0));
    assert!(pool.return_connection(host(81), 2, true, 0));
    assert!(pool.return_connection(host(81), 3, true, 0));
    let mut dropped = pool.clear();
    dropped.sort();
    assert_eq!(dropped, vec![1, 2, 3]);
    assert_eq!(pool.stats().pooled_connections, 0);
    assert!(pool.return_connection(host(80), 4, true, 0));
    assert_eq!(pool.shutdown(), vec![4]);
}

#[test]
fn the_counts_follow_the_lookups() {
    let mut pool = ConnectionPool::new(ConnectionPoolConfig::new());
    assert_eq!(pool.stats().hit_rate_per_mille(), 0);
    assert_eq!(pool.get_connection(host(80), 0).connection, None);
    let stats = pool.stats();
    assert_eq!((stats.total_connections, stats.active_connections), (1, 1));
    assert!(pool.return_connection(host(80), 7, true, 0));
    assert_eq!(pool.stats().active_connections, 0);
    assert!(!pool.return_connection(host(80), 8, false, 0));
    assert_eq!(pool.stats().active_connections, 0);
    assert_eq!(pool.get_connection(host(80), 0).connection, Some(7));
    assert_eq!(pool.get_connection(host(80), 0).connection, None);
    let stats = pool.stats();
    assert_eq!((stats.connection_hits, stats.connection_misses), (1, 2));
    assert_eq!(stats.hit_rate_per_mille(), 333);
    let all = ConnectionStats {
        total_connections: 0,
        active_connections: 0,
        pooled_connections: 0,
        reused_connections: 0,
        connection_hits: u64::MAX,
        connection_misses: 0,
    };
    assert_eq!(all.hit_rate_per_mille(), 1000);
}
