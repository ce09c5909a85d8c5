use dnsmark::autodetect::{
    all_cores, can_search_routes, cpu_model, cpus_to_probe, detect, iface_for_addr, known_cores,
    numa_node_for_cpu, numa_node_for_iface, physical_cores, physical_cores_numa_sorted, probe_span,
    read_proc_meminfo_avail_mb, read_proc_meminfo_total_and_avail_kb,
};
use dnsmark::config::ServerAddr;

const MEMINFO: &str = "MemTotal:       16384000 kB\n\
                       MemFree:         1000000 kB\n\
                       MemAvailable:    8192512 kB\n\
                       Buffers:               0 kB\n";

fn texts(v: &[&str]) -> Vec<Option<String>> {
    v.iter().map(|s| Some(s.to_string())).collect()
}

#[test]
fn memory_is_read() {
    assert_eq!(read_proc_meminfo_avail_mb(MEMINFO), 8000);
    assert_eq!(read_proc_meminfo_total_and_avail_kb(MEMINFO), (16_384_000, 8_192_512));
    assert_eq!(read_proc_meminfo_avail_mb(""), 0);
    assert_eq!(read_proc_meminfo_avail_mb("MemAvailable: x kB\nMemAvailable: 2048 kB\n"), 0);
    assert_eq!(read_proc_meminfo_total_and_avail_kb("MemTotal:\n"), (0, 0));
}

#[test]
fn the_machine_has_a_processor() {
    let a = detect(MEMINFO, true);
    assert!(a.cpus >= 1);
    assert_eq!(a.mem_mb, 8000);
    assert!(a.xdp_available);
    assert!(cpus_to_probe() >= 2);
}

#[test]
fn hyper_threads_do_not_count() {
    let t = texts(&["0\n", "1\n", "0\n", "1\n", "2\n"]);
    assert_eq!(known_cores(&t), vec![0, 1, 4]);
    assert_eq!(physical_cores(&t), vec![0, 1, 4]);
    let mut gaps = texts(&["x", "3"]);
    gaps.insert(0, None);
    assert_eq!(known_cores(&gaps), vec![2]);
    // Without any file the cores are numbered.
    let cores = physical_cores(&vec![None, None]);
    assert!(!cores.is_empty());
    assert_eq!(cores, (0..cores.len()).collect::<Vec<usize>>());
}

#[test]
fn nodes_are_read() {
    let names = vec!["cache".to_string(), "nodex".to_string(), "node3".to_string()];
    assert_eq!(numa_node_for_cpu(&names), Some(3));
    assert_eq!(numa_node_for_cpu(&vec!["cache".to_string()]), None);
    assert_eq!(numa_node_for_iface("1\n"), Some(1));
    assert_eq!(numa_node_for_iface("-1\n"), None);
    assert_eq!(numa_node_for_iface("-0"), Some(0));
    assert_eq!(numa_node_for_iface("-"), None);
    assert_eq!(numa_node_for_iface("2147483648"), None);
    assert_eq!(numa_node_for_iface("2147483647"), Some(2147483647));
    assert_eq!(numa_node_for_iface("-+0"), None);
}

#[test]
fn cores_of_the_node_come_first() {
    let cores = vec![0, 1, 2, 3, 4];
    let nodes = vec![Some(0), Some(1), Some(0), None, Some(1)];
    assert_eq!(
        physical_cores_numa_sorted(cores.clone(), &nodes, Some(1)),
        vec![1, 4, 0, 2, 3]
    );
    assert_eq!(physical_cores_numa_sorted(cores.clone(), &nodes, None), cores);
    let mut sorted = physical_cores_numa_sorted(cores.clone(), &nodes, Some(0));
    sorted.sort();
    assert_eq!(sorted, cores);
}

const ROUTES: &str = "Iface Destination Gateway Flags RefCnt Use Metric Mask MTU Window IRTT\n\
                      eth0 00000000 0100000A 0003 0 0 0 00000000 0 0 0\n\
                      eth1 0000010A 00000000 0001 0 0 0 0000FFFF 0 0 0\n\
                      short\n";

#[test]
fn a_route_leads_to_its_interface() {
    let near = ServerAddr::V4([10, 1, 2, 3]);
    assert!(can_search_routes(ROUTES, &near));
    assert_eq!(iface_for_addr(ROUTES, &near), Some("eth1".to_string()));
    let far = ServerAddr::V4([8, 8, 8, 8]);
    assert_eq!(iface_for_addr(ROUTES, &far), Some("eth0".to_string()));
    assert_eq!(iface_for_addr(ROUTES, &ServerAddr::V4([127, 0, 0, 1])), None);
    assert_eq!(iface_for_addr(ROUTES, &ServerAddr::V6([1; 16])), None);
    assert_eq!(iface_for_addr("", &far), None);
}

#[test]
fn a_line_cut_off_before_its_mask_cannot_be_searched() {
    let cut = "head\neth0 00000000 0100000A 0003\n";
    assert!(!can_search_routes(cut, &ServerAddr::V4([8, 8, 8, 8])));
    assert!(can_search_routes(cut, &ServerAddr::V4([127, 0, 0, 1])));
    assert!(can_search_routes(cut, &ServerAddr::V6([0; 16])));
    // A route that is found before that line ends the search.
    let early = "head\neth9 0000010A 00000000 0001 0 0 0 0000FFFF\neth0 00000000 01 0003\n";
    assert!(can_search_routes(early, &ServerAddr::V4([10, 1, 2, 3])));
}

#[test]
fn twice_as_many_processors_are_looked_at() {
    assert_eq!(probe_span(0), 0);
    assert_eq!(probe_span(12), 24);
    assert_eq!(probe_span(usize::MAX / 2), usize::MAX - 1);
    assert_eq!(probe_span(usize::MAX / 2 + 1), usize::MAX);
    assert_eq!(cpus_to_probe() % 2, 0);
}

#[test]
fn without_core_files_every_core_counts() {
    assert_eq!(all_cores(0), Vec::<usize>::new());
    assert_eq!(all_cores(4), vec![0, 1, 2, 3]);
    let found = physical_cores(&vec![None, None]);
    assert_eq!(found, all_cores(found.len()));
}

#[test]
fn the_model_of_the_processor_is_read() {
    let text = "processor\t: 0\nmodel\t\t: 62\nmodel name\t:  Xeon E5 v2 \nmodel name\t: other\n";
    assert_eq!(cpu_model(text), Some("Xeon E5 v2".to_string()));
    assert_eq!(cpu_model("model name Xeon\n"), None);
    assert_eq!(cpu_model(""), None);
}
