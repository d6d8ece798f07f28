use proxy_core::addr::Addr;
use proxy_core::backend::{BackendProtocol, ConnectionError, Connector};
use proxy_core::backends::{BackendList, BackendMap, Instance};

struct AlwaysOk;

impl Connector<u32> for AlwaysOk {
    fn connect(
        &mut self,
        _addr: &Addr,
        _protocol: BackendProtocol,
        _server_name: Option<&str>,
    ) -> Result<u32, ConnectionError> {
        Ok(7)
    }
}

struct AlwaysFail;

impl Connector<u32> for AlwaysFail {
    fn connect(
        &mut self,
        _addr: &Addr,
        _protocol: BackendProtocol,
        _server_name: Option<&str>,
    ) -> Result<u32, ConnectionError> {
        Err(ConnectionError::ConnectionFailed)
    }
}

fn addr(a: u8, b: u8, c: u8, d: u8, port: u16) -> Addr {
    Addr::from_octets(a, b, c, d, port)
}

#[test]
fn empty_pool_has_no_backend() {
    let mut map = BackendMap::new();
    let mut conn = AlwaysOk;
    let r = map.backend_from_app_id("svc", BackendProtocol::HTTP1, None, &mut conn);
    assert_eq!(r.err(), Some(ConnectionError::NoBackendAvailable));
}

#[test]
fn single_healthy_backend_is_selected() {
    let mut map = BackendMap::new();
    let a = addr(10, 0, 0, 1, 8080);
    map.add_instance("svc", "b1", &a);
    let mut conn = AlwaysOk;
    let (b, sock) = map
        .backend_from_app_id("svc", BackendProtocol::HTTP1, None, &mut conn)
        .expect("selection must succeed");
    assert_eq!(b.address, a);
    assert_eq!(sock, 7);
    assert_eq!(b.active_connections, 1);
}

#[test]
fn add_instance_is_idempotent() {
    let mut map = BackendMap::new();
    let a = addr(10, 0, 0, 1, 80);
    map.add_instance("svc", "b1", &a);
    let b1 = proxy_core::backend::Backend::new("b1", a, 0);
    assert!(map.has_backend("svc", &b1));
    map.add_instance("svc", "b1", &a);
    assert_eq!(map.instances.len(), 1);
    assert_eq!(map.instances[0].list.instances.len(), 1);
    assert_eq!(map.instances[0].list.next_id, 1);
}

#[test]
fn ids_are_monotonic_and_never_reused() {
    let mut list = BackendList::new();
    let a0 = addr(10, 0, 0, 1, 80);
    let a1 = addr(10, 0, 0, 2, 80);
    let a2 = addr(10, 0, 0, 3, 80);
    list.add_instance("b0", &a0);
    list.add_instance("b1", &a1);
    assert_eq!(list.instances[0].id, 0);
    assert_eq!(list.instances[1].id, 1);
    list.remove_instance(&a0);
    list.add_instance("b2", &a2);
    assert_eq!(list.next_id, 3);
    assert_eq!(list.instances[0].id, 1);
    assert_eq!(list.instances[1].id, 2);
}

#[test]
fn remove_instance_keeps_other_entries() {
    let mut map = BackendMap::new();
    let a0 = addr(10, 0, 0, 1, 80);
    let a1 = addr(10, 0, 0, 2, 80);
    map.add_instance("svc", "b0", &a0);
    map.add_instance("svc", "b1", &a1);
    map.remove_instance("svc", &a0);
    let b0 = proxy_core::backend::Backend::new("b0", a0, 0);
    let b1 = proxy_core::backend::Backend::new("b1", a1, 1);
    assert!(!map.has_backend("svc", &b0));
    assert!(map.has_backend("svc", &b1));
    assert_eq!(map.instances[0].list.instances.len(), 1);
    assert_eq!(map.instances[0].list.instances[0].id, 1);
}

#[test]
fn remove_instance_on_unknown_app_is_non_fatal() {
    let mut map = BackendMap::new();
    let a0 = addr(10, 0, 0, 1, 80);
    map.remove_instance("ghost", &a0);
    assert_eq!(map.instances.len(), 0);
}

#[test]
fn empty_list_is_no_backend_available() {
    let mut map = BackendMap::new();
    let a = addr(10, 0, 0, 1, 80);
    map.add_instance("svc", "b1", &a);
    map.remove_instance("svc", &a);
    let mut conn = AlwaysOk;
    let r = map.backend_from_app_id("svc", BackendProtocol::HTTP1, None, &mut conn);
    assert_eq!(r.err(), Some(ConnectionError::NoBackendAvailable));
}

#[test]
fn selection_is_roughly_uniform() {
    let mut map = BackendMap::new();
    for i in 0..3u8 {
        map.add_instance("svc", "b", &addr(10, 0, 0, i, 80));
    }
    let mut counts = [0usize; 3];
    let mut conn = AlwaysOk;
    for _ in 0..3000 {
        let (b, _) = map
            .backend_from_app_id("svc", BackendProtocol::HTTP1, None, &mut conn)
            .expect("selection must succeed");
        counts[b.id as usize] += 1;
    }
    for &c in counts.iter() {
        assert!(c > 700, "distribution too far from uniform: {:?}", counts);
    }
}

#[test]
fn sticky_hit_selects_exactly_that_backend() {
    let mut map = BackendMap::new();
    for i in 0..3u8 {
        map.add_instance("svc", "b", &addr(10, 0, 0, i, 80));
    }
    let mut conn = AlwaysOk;
    for _ in 0..20 {
        let (b, _) = map
            .backend_from_sticky_session("svc", 1, BackendProtocol::HTTP1, None, &mut conn)
            .expect("sticky selection must succeed");
        assert_eq!(b.id, 1);
        assert_eq!(b.address, addr(10, 0, 0, 1, 80));
    }
}

#[test]
fn sticky_miss_falls_back_to_plain_selection() {
    let mut map = BackendMap::new();
    for i in 0..3u8 {
        map.add_instance("svc", "b", &addr(10, 0, 0, i, 80));
    }
    let mut conn = AlwaysOk;
    let (b, _) = map
        .backend_from_sticky_session("svc", 999, BackendProtocol::HTTP1, None, &mut conn)
        .expect("fallback selection must succeed");
    assert!(b.id < 3);
    let r = BackendMap::new().backend_from_sticky_session(
        "svc",
        999,
        BackendProtocol::HTTP1,
        None,
        &mut conn,
    );
    assert_eq!(r.err(), Some(ConnectionError::NoBackendAvailable));
}

#[test]
fn ineligible_sticky_target_falls_back() {
    let mut map = BackendMap::new();
    for i in 0..3u8 {
        map.add_instance("svc", "b", &addr(10, 0, 0, i, 80));
    }
    // a sticky hit makes exactly one attempt per call, so ten failing calls
    // disable backend 1 and only backend 1
    let mut fail = AlwaysFail;
    for _ in 0..10 {
        let r = map.backend_from_sticky_session("svc", 1, BackendProtocol::HTTP1, None, &mut fail);
        assert_eq!(r.err(), Some(ConnectionError::ConnectionFailed));
    }
    assert_eq!(map.instances[0].list.instances[1].failures, 10);
    let mut ok = AlwaysOk;
    for _ in 0..20 {
        let (b, _) = map
            .backend_from_sticky_session("svc", 1, BackendProtocol::HTTP1, None, &mut ok)
            .expect("fallback selection must succeed");
        assert_ne!(b.id, 1);
    }
}

#[test]
fn failures_accumulate_and_disable_a_backend() {
    let mut map = BackendMap::new();
    let a = addr(10, 0, 0, 1, 80);
    map.add_instance("svc", "b1", &a);
    let mut conn = AlwaysFail;
    // each call spends the full retry budget of 3 on the only backend
    for _ in 0..3 {
        let r = map.backend_from_app_id("svc", BackendProtocol::HTTP1, None, &mut conn);
        assert_eq!(r.err(), Some(ConnectionError::NoBackendAvailable));
    }
    assert_eq!(map.instances[0].list.instances[0].failures, 9);
    let r = map.backend_from_app_id("svc", BackendProtocol::HTTP1, None, &mut conn);
    assert_eq!(r.err(), Some(ConnectionError::NoBackendAvailable));
    // the tenth consecutive failure disables the backend for good
    assert_eq!(map.instances[0].list.instances[0].failures, 10);
    let r = map.backend_from_app_id("svc", BackendProtocol::HTTP1, None, &mut conn);
    assert_eq!(r.err(), Some(ConnectionError::NoBackendAvailable));
    assert_eq!(map.instances[0].list.instances[0].failures, 10);
}

#[test]
fn success_resets_consecutive_failures() {
    let mut map = BackendMap::new();
    let a = addr(10, 0, 0, 1, 80);
    map.add_instance("svc", "b1", &a);
    let mut fail = AlwaysFail;
    let _ = map.backend_from_app_id("svc", BackendProtocol::HTTP1, None, &mut fail);
    assert_eq!(map.instances[0].list.instances[0].failures, 3);
    let mut ok = AlwaysOk;
    let _ = map.backend_from_app_id("svc", BackendProtocol::HTTP1, None, &mut ok);
    assert_eq!(map.instances[0].list.instances[0].failures, 0);
}

#[test]
fn close_backend_connection_releases_a_slot() {
    let mut map = BackendMap::new();
    let a = addr(10, 0, 0, 1, 80);
    map.add_instance("svc", "b1", &a);
    let mut conn = AlwaysOk;
    let _ = map.backend_from_app_id("svc", BackendProtocol::HTTP1, None, &mut conn);
    assert_eq!(map.instances[0].list.instances[0].active_connections, 1);
    map.close_backend_connection("svc", &a);
    assert_eq!(map.instances[0].list.instances[0].active_connections, 0);
    map.close_backend_connection("svc", &a);
    assert_eq!(map.instances[0].list.instances[0].active_connections, 0);
    map.close_backend_connection("ghost", &a);
}

#[test]
fn ipv6_endpoints_live_in_the_pool() {
    let mut map = BackendMap::new();
    let a = Addr::from_v6(1, 8080); // ::1
    map.add_instance("svc", "b1", &a);
    let b = proxy_core::backend::Backend::new("b1", a, 0);
    assert!(map.has_backend("svc", &b));
    let mut conn = AlwaysOk;
    let (chosen, _) = map
        .backend_from_app_id("svc", BackendProtocol::HTTP1, None, &mut conn)
        .expect("selection must succeed");
    assert_eq!(chosen.address, a);
    assert_ne!(chosen.address, addr(0, 0, 0, 1, 8080));
    map.remove_instance("svc", &a);
    assert!(!map.has_backend("svc", &b));
}

fn inst(id: &str, ip: &str, port: u16) -> Instance {
    Instance { instance_id: id.to_string(), ip_address: ip.to_string(), port }
}

#[test]
fn import_skips_malformed_addresses() {
    let records = vec![
        inst("b0", "10.0.0.1", 80),
        inst("b1", "10.0.0.300", 80),
        inst("b2", "not an address", 80),
        inst("b3", "01.2.3.4", 80),
        inst("b4", "192.168.0.7", 443),
        inst("b5", "10.0.0.1", 80),
    ];
    let list = BackendList::import_configuration_state(&records);
    assert_eq!(list.instances.len(), 2);
    assert_eq!(list.instances[0].address, addr(10, 0, 0, 1, 80));
    assert_eq!(list.instances[0].instance_id, "b0");
    assert_eq!(list.instances[0].id, 0);
    assert_eq!(list.instances[1].address, addr(192, 168, 0, 7, 443));
    assert_eq!(list.instances[1].id, 1);
    assert_eq!(list.next_id, 2);
}

#[test]
fn import_replaces_named_apps_and_keeps_others() {
    let mut map = BackendMap::new();
    map.add_instance("keep", "k0", &addr(10, 9, 9, 9, 80));
    map.add_instance("swap", "s0", &addr(10, 8, 8, 8, 80));
    let snapshot = vec![
        ("swap".to_string(), vec![inst("s1", "10.1.1.1", 81)]),
        ("fresh".to_string(), vec![inst("f0", "10.2.2.2", 82)]),
    ];
    map.import_configuration_state(&snapshot);
    let kept = proxy_core::backend::Backend::new("k0", addr(10, 9, 9, 9, 80), 0);
    assert!(map.has_backend("keep", &kept));
    let swapped_old = proxy_core::backend::Backend::new("s0", addr(10, 8, 8, 8, 80), 0);
    assert!(!map.has_backend("swap", &swapped_old));
    let swapped_new = proxy_core::backend::Backend::new("s1", addr(10, 1, 1, 1, 81), 0);
    assert!(map.has_backend("swap", &swapped_new));
    let fresh = proxy_core::backend::Backend::new("f0", addr(10, 2, 2, 2, 82), 0);
    assert!(map.has_backend("fresh", &fresh));
}
