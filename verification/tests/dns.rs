use dnsmark::dns::response::{parse_response, ResponseInfo};
use dnsmark::dns::{build_query, parse_record_type};
use dnsmark::query::builtin::{BuiltinQuerySource, BUILTIN_DOMAINS};
use dnsmark::query::file::{FileQuerySource, LoadError};
use dnsmark::query::random::{RandomQuerySource, SAMPLE};
use dnsmark::query::{parse_entries, QuerySource};

#[test]
fn a_query_byte_by_byte() {
    assert_eq!(
        build_query(0xABCD, "a.bc", 28),
        vec![
            0xAB, 0xCD, 1, 0, 0, 1, 0, 0, 0, 0, 0, 0, // header
            1, b'a', 2, b'b', b'c', 0, // name
            0, 28, 0, 1,
        ]
    );
    // The last dot changes nothing, and the root has no label.
    assert_eq!(build_query(1, "a.bc.", 1), build_query(1, "a.bc", 1));
    assert_eq!(build_query(0, ".", 2)[12..], [0, 0, 2, 0, 1]);
}

#[test]
fn record_types_by_name_and_number() {
    for (name, n) in [
        ("A", 1),
        ("ns", 2),
        ("CNAME", 5),
        ("SOA", 6),
        ("PTR", 12),
        ("MX", 15),
        ("TXT", 16),
        ("aaaa", 28),
        ("SRV", 33),
        ("NAPTR", 35),
        ("DS", 43),
        ("RRSIG", 46),
        ("NSEC", 47),
        ("DNSKEY", 48),
        ("NSEC3", 50),
        ("TLSA", 52),
        ("CAA", 257),
        ("ANY", 255),
        ("64", 64),
        ("65536", 1),
        ("bogus", 1),
    ] {
        assert_eq!(parse_record_type(name), n, "{name}");
    }
}

#[test]
fn a_response_says_its_id_and_code() {
    let mut m = vec![0x12, 0x34, 0x81, 0x85, 0, 0, 0, 0, 0, 0, 0, 0];
    assert_eq!(parse_response(&m), Some(ResponseInfo { id: 0x1234, rcode: 5 }));
    assert_eq!(parse_response(&m[..11]), None);
    m[2] = 0x01;
    assert_eq!(parse_response(&m), None);
}

#[test]
fn a_query_is_not_taken_for_a_response() {
    assert_eq!(parse_response(&build_query(0xFFFF, "example.com", 255)), None);
}

#[test]
fn lists_of_queries() {
    let text = "# comment\nexample.com A\n\nmail.example.org mx\nplain\r\n   \n";
    let v = parse_entries(text);
    let got: Vec<(&str, u16)> = v.iter().map(|e| (e.name.as_str(), e.qtype)).collect();
    assert_eq!(
        got,
        vec![
            ("example.com", 1),
            ("mail.example.org", 15),
            ("plain", 1),
            ("example.com", 1)
        ]
    );
}

#[test]
fn sources_ask_in_turn() {
    let mut s = FileQuerySource::load("a.com A\nb.com AAAA\n").unwrap();
    let names: Vec<String> = (0..3).map(|_| s.next().name).collect();
    assert_eq!(names, vec!["a.com", "b.com", "a.com"]);
    assert_eq!(
        s.all_wire_pairs(),
        vec![("a.com".to_string(), 1), ("b.com".to_string(), 28)]
    );
    assert!(matches!(FileQuerySource::load("# nothing\n"), Err(LoadError::NoEntries)));
    let mut b = BuiltinQuerySource::new("x.com\ny.com\n");
    assert_eq!(b.next().name, "x.com");
    assert_eq!(b.next().name, "y.com");
    assert_eq!(b.all_wire_pairs().len(), 2);
}

#[test]
fn random_names_are_of_one_form_and_differ() {
    let mut r = RandomQuerySource::new("bench.invalid.", 28);
    assert_eq!(
        r.entry_for(0xab).name,
        "000000000000000000000000000000ab.bench.invalid"
    );
    assert_ne!(r.entry_for(1).name, r.entry_for(2).name);
    let a = r.next();
    let b = r.next();
    assert_eq!(a.qtype, 28);
    assert_eq!(a.name.len(), 32 + 1 + 13);
    assert!(a.name[..32].bytes().all(|c| c.is_ascii_hexdigit()));
    assert!(a.name.ends_with(".bench.invalid"));
    assert_ne!(a.name, b.name);
    let pairs = r.all_wire_pairs();
    assert_eq!(pairs.len(), SAMPLE);
    assert_ne!(pairs[0].0, pairs[1].0);
}

#[test]
fn the_corpus_of_the_program_comes_round() {
    let text = |n: usize| (0..n).map(|i| format!("d{i}.com\n")).collect::<String>();
    assert!(BuiltinQuerySource::full(&text(1999)).is_none());
    assert!(BuiltinQuerySource::full(&text(2001)).is_none());
    let mut s = BuiltinQuerySource::full(&text(BUILTIN_DOMAINS)).unwrap();
    assert_eq!(s.all_wire_pairs().len(), 2000);
    for k in 0..4001 {
        assert_eq!(s.next().name, format!("d{}.com", k % 2000));
    }
}
