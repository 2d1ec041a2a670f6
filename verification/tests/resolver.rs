use split_dns_resolver::cache::ResponseCache;
use split_dns_resolver::dns_server::{CycleDecision, DnsServer};
use split_dns_resolver::msg::extract_query_key;

/// A query datagram: header with the given id, one question, no answers.
fn query_packet(id: u16, labels: &[&str], qtype: u16) -> Vec<u8> {
    let mut v = vec![
        (id >> 8) as u8,
        (id & 0xff) as u8,
        0x01,
        0x00,
        0,
        1,
        0,
        0,
        0,
        0,
        0,
        0,
    ];
    for label in labels {
        v.push(label.len() as u8);
        v.extend_from_slice(label.as_bytes());
    }
    v.push(0);
    v.push((qtype >> 8) as u8);
    v.push((qtype & 0xff) as u8);
    v.push(0);
    v.push(1);
    v
}

/// An answer record pointing back at the question name.
fn answer_record(rtype: u16, rdata: &[u8]) -> Vec<u8> {
    let mut v = vec![0xC0, 0x0C];
    v.push((rtype >> 8) as u8);
    v.push((rtype & 0xff) as u8);
    v.push(0);
    v.push(1);
    v.extend_from_slice(&[0, 0, 0, 60]);
    v.push((rdata.len() >> 8) as u8);
    v.push((rdata.len() & 0xff) as u8);
    v.extend_from_slice(rdata);
    v
}

/// A response datagram: same question, then the given answer records.
fn response_packet(id: u16, labels: &[&str], qtype: u16, rcode: u8, answers: &[Vec<u8>]) -> Vec<u8> {
    let mut v = query_packet(id, labels, qtype);
    v[2] = 0x81;
    v[3] = 0x80 | (rcode & 0x0f);
    v[6] = (answers.len() >> 8) as u8;
    v[7] = (answers.len() & 0xff) as u8;
    for a in answers {
        v.extend_from_slice(a);
    }
    v
}

fn with_id(mut v: Vec<u8>, id: u16) -> Vec<u8> {
    v[0] = (id >> 8) as u8;
    v[1] = (id & 0xff) as u8;
    v
}

#[test]
fn winner_is_first_address_bearing_upstream() {
    // Three of four upstreams return address records, one only a CNAME: the
    // winner is the first address-bearing upstream, whatever its slot's
    // neighbours returned.
    let mut server = DnsServer::new(60, 4);
    let query = query_packet(0x1234, &["example", "com"], 1);
    let (key, client_id) = match server.begin_cycle(&query, 100) {
        CycleDecision::Resolve(k, id) => (k, id),
        _ => panic!("fresh query must go upstream"),
    };
    assert_eq!(client_id, 0x1234);

    let cname = response_packet(
        0x1234,
        &["example", "com"],
        1,
        0,
        &[answer_record(5, &[3, b'w', b'w', b'w', 0xC0, 0x0C])],
    );
    let a1 = response_packet(0x1234, &["example", "com"], 1, 0, &[answer_record(1, &[10, 0, 0, 1])]);
    let a2 = response_packet(0x1234, &["example", "com"], 1, 0, &[answer_record(1, &[10, 0, 0, 2])]);
    let a3 = response_packet(0x1234, &["example", "com"], 1, 0, &[answer_record(1, &[10, 0, 0, 3])]);
    let results = vec![Some(cname), Some(a1.clone()), Some(a2), Some(a3)];

    let reply = server.finish_resolve(key, client_id, results, 100).unwrap();
    assert_eq!(reply, with_id(a1, 0x1234));
}

#[test]
fn cname_wins_only_without_addresses() {
    let mut server = DnsServer::new(60, 3);
    let query = query_packet(0x7777, &["example", "com"], 1);
    let (key, client_id) = match server.begin_cycle(&query, 0) {
        CycleDecision::Resolve(k, id) => (k, id),
        _ => panic!("fresh query must go upstream"),
    };
    let cname_a = response_packet(
        0x7777,
        &["example", "com"],
        1,
        0,
        &[answer_record(5, &[1, b'a', 0xC0, 0x0C])],
    );
    let cname_b = response_packet(
        0x7777,
        &["example", "com"],
        1,
        0,
        &[answer_record(5, &[1, b'b', 0xC0, 0x0C])],
    );
    let results = vec![None, Some(cname_a.clone()), Some(cname_b)];
    let reply = server.finish_resolve(key, client_id, results, 0).unwrap();
    assert_eq!(reply, with_id(cname_a, 0x7777));
}

#[test]
fn all_unusable_means_no_reply_and_no_cache_entry() {
    // Every upstream fails: timeouts, an error code, an empty answer
    // section. Resolution fails, nothing is cached, and the same query goes
    // upstream again.
    let mut server = DnsServer::new(60, 3);
    let query = query_packet(0x4242, &["foo", "invalid"], 1);
    let (key, client_id) = match server.begin_cycle(&query, 5) {
        CycleDecision::Resolve(k, id) => (k, id),
        _ => panic!("fresh query must go upstream"),
    };
    let nxdomain = response_packet(0x4242, &["foo", "invalid"], 1, 3, &[]);
    let empty = response_packet(0x4242, &["foo", "invalid"], 1, 0, &[]);
    let results = vec![None, Some(nxdomain), Some(empty)];
    assert!(server.finish_resolve(key, client_id, results, 5).is_none());

    match server.begin_cycle(&query, 6) {
        CycleDecision::Resolve(_, _) => {}
        _ => panic!("a failed resolution must not fill the cache"),
    }
}

#[test]
fn second_request_is_served_from_cache_with_its_own_id() {
    // The same question twice in quick succession under different ids: both
    // replies carry identical answer content, each under its requester's id,
    // and only the first goes upstream.
    let mut server = DnsServer::new(300, 1);
    let first = query_packet(0x1111, &["example", "com"], 1);
    let second = query_packet(0x2222, &["ExAmPlE", "CoM"], 1);

    let (key, client_id) = match server.begin_cycle(&first, 1000) {
        CycleDecision::Resolve(k, id) => (k, id),
        _ => panic!("fresh query must go upstream"),
    };
    let upstream = response_packet(
        0x1111,
        &["example", "com"],
        1,
        0,
        &[answer_record(1, &[93, 184, 216, 34])],
    );
    let reply1 = server
        .finish_resolve(key, client_id, vec![Some(upstream)], 1000)
        .unwrap();
    assert_eq!(&reply1[0..2], &[0x11, 0x11]);

    let reply2 = match server.begin_cycle(&second, 1001) {
        CycleDecision::Reply(b) => b,
        _ => panic!("the cached answer must serve the second request"),
    };
    assert_eq!(&reply2[0..2], &[0x22, 0x22]);
    assert_eq!(&reply1[2..], &reply2[2..]);
}

#[test]
fn malformed_datagram_is_dropped_between_valid_ones() {
    let mut server = DnsServer::new(300, 1);
    let query = query_packet(0x0101, &["example", "com"], 1);

    let (key, client_id) = match server.begin_cycle(&query, 10) {
        CycleDecision::Resolve(k, id) => (k, id),
        _ => panic!("fresh query must go upstream"),
    };
    let upstream =
        response_packet(0x0101, &["example", "com"], 1, 0, &[answer_record(1, &[1, 2, 3, 4])]);
    server
        .finish_resolve(key, client_id, vec![Some(upstream)], 10)
        .unwrap();

    let truncated = vec![0xDEu8, 0xAD, 0xBE];
    match server.begin_cycle(&truncated, 11) {
        CycleDecision::Discard => {}
        _ => panic!("a truncated header must be dropped silently"),
    }

    match server.begin_cycle(&query, 12) {
        CycleDecision::Reply(_) => {}
        _ => panic!("valid queries must still be served after a bad datagram"),
    }
}

#[test]
fn entry_expires_at_the_ttl_bound() {
    // With a TTL of 10, an answer recorded at 100 is served at 109 and gone
    // at 110.
    let mut server = DnsServer::new(10, 1);
    let query = query_packet(0x5050, &["example", "com"], 1);
    let (key, client_id) = match server.begin_cycle(&query, 100) {
        CycleDecision::Resolve(k, id) => (k, id),
        _ => panic!("fresh query must go upstream"),
    };
    let upstream =
        response_packet(0x5050, &["example", "com"], 1, 0, &[answer_record(1, &[9, 9, 9, 9])]);
    server
        .finish_resolve(key, client_id, vec![Some(upstream)], 100)
        .unwrap();

    match server.begin_cycle(&query, 109) {
        CycleDecision::Reply(_) => {}
        _ => panic!("an entry inside the window must be served"),
    }
    match server.begin_cycle(&query, 110) {
        CycleDecision::Resolve(_, _) => {}
        _ => panic!("an entry at the bound must be treated as absent"),
    }
}

#[test]
fn cache_serves_within_window_and_evicts_after() {
    let mut cache = ResponseCache::new(5);
    let q = query_packet(1, &["example", "com"], 1);
    let key = extract_query_key(&q).unwrap();
    cache.insert(key, vec![1, 2, 3], 50);

    let key2 = extract_query_key(&q).unwrap();
    assert_eq!(cache.get(&key2, 54), Some(vec![1, 2, 3]));
    assert_eq!(cache.get(&key2, 55), None);
    // The expired entry was dropped on the way out.
    assert_eq!(cache.get(&key2, 50), None);
}

#[test]
fn cache_overwrites_and_ignores_a_clock_gone_backwards() {
    let mut cache = ResponseCache::new(5);
    let q = query_packet(1, &["example", "com"], 1);
    let key = extract_query_key(&q).unwrap();
    cache.insert(key, vec![1], 50);
    let key2 = extract_query_key(&q).unwrap();
    cache.insert(key2, vec![2], 52);
    let key3 = extract_query_key(&q).unwrap();
    assert_eq!(cache.get(&key3, 53), Some(vec![2]));
    // A lookup before the insertion time is not inside the window.
    assert_eq!(cache.get(&key3, 40), None);
}

#[test]
fn arbitration_keeps_upstream_order() {
    let server = DnsServer::new(60, 4);
    let a1 = response_packet(9, &["example", "com"], 1, 0, &[answer_record(1, &[1, 1, 1, 1])]);
    let a2 = response_packet(9, &["example", "com"], 1, 0, &[answer_record(1, &[2, 2, 2, 2])]);
    let cname = response_packet(
        9,
        &["example", "com"],
        1,
        0,
        &[answer_record(5, &[1, b'x', 0xC0, 0x0C])],
    );
    let cands = server.parse_dns_responses(vec![
        Some(cname),
        Some(a1.clone()),
        None,
        Some(a2.clone()),
    ]);
    assert_eq!(cands, vec![a1, a2]);
}
