use dnsmark::dns::build_query;
use dnsmark::query::wire::{WireQueryPool, MAX_QUERY};

#[test]
fn roundtrip_id_patch() {
    let mut pool = WireQueryPool::from_pairs(&[("example.com".to_string(), 1)]);
    let mut buf = [0u8; MAX_QUERY];
    let len = pool.write_next_with_id(0xBEEF, &mut buf);
    assert_eq!(buf[0], 0xBE);
    assert_eq!(buf[1], 0xEF);
    assert!(len > 12);
}

#[test]
fn round_robin() {
    let mut pool = WireQueryPool::from_pairs(&[
        ("a.com".to_string(), 1),
        ("b.com".to_string(), 1),
    ]);
    let mut buf = [0u8; MAX_QUERY];
    let l1 = pool.write_next_with_id(1, &mut buf);
    let mut b1 = [0u8; MAX_QUERY];
    b1[..l1].copy_from_slice(&buf[..l1]);
    let _l2 = pool.write_next_with_id(2, &mut buf);
    let l3 = pool.write_next_with_id(3, &mut buf);
    assert_eq!(l3, l1);
    // But for the id, the third query is the first one.
    assert_eq!(&buf[2..l3], &b1[2..l1]);
}

#[test]
fn wire_format_structure() {
    let mut pool = WireQueryPool::from_pairs(&[("www.example.com".to_string(), 1)]);
    let mut buf = [0u8; MAX_QUERY];
    let len = pool.write_next_with_id(0x0042, &mut buf);
    assert!(len >= 12);
    assert_eq!(buf[2], 0x01);
    assert_eq!(buf[3], 0x00);
    assert_eq!(u16::from_be_bytes([buf[4], buf[5]]), 1);
}

#[test]
fn a_pool_writes_what_a_query_is() {
    let pool = WireQueryPool::from_pairs(&[
        ("www.example.com".to_string(), 28),
        ("x.org.".to_string(), 15),
    ]);
    assert_eq!(pool.len(), 2);
    let mut buf = [0u8; MAX_QUERY];
    let n = pool.write_with_index(0, 7, &mut buf);
    assert_eq!(&buf[..n], build_query(7, "www.example.com", 28).as_slice());
    let n = pool.write_with_index(3, 0xFFFF, &mut buf);
    assert_eq!(&buf[..n], build_query(0xFFFF, "x.org.", 15).as_slice());
}

#[test]
fn turns_do_not_care_who_takes_them() {
    let mut pool = WireQueryPool::from_pairs(&[
        ("a.com".to_string(), 1),
        ("bb.com".to_string(), 1),
        ("ccc.com".to_string(), 1),
    ]);
    let mut buf = [0u8; MAX_QUERY];
    let lens: Vec<usize> = (0..6).map(|i| pool.write_next_with_id(i, &mut buf)).collect();
    assert_eq!(lens, vec![23, 24, 25, 23, 24, 25]);
}
