# dnsmark

A DNS load generator. Its logic is a library whose behaviour is stated in contracts and
proved by Verus; a thin program around it does the input and output.

- `src/` is the library.
  - `config`, `autodetect`, `simd`, `governor`: what a run is asked for and what the machine is.
  - `dns`, `query`: messages, responses and where queries come from.
  - `transport`: pacing, in-flight tables and accounting of the UDP, TCP, TLS and AF_XDP
    workers, frame layouts, rings, and the wire-latency probe.
  - `engine`: the search for the ceiling, the counters of NICs, several NICs at once, comparisons.
  - `stats`, `output`: counters, latency histograms, figures and verdicts.
  - `text`: the reading of text that the others share.
- `tests/` runs the library on concrete values.
- `app/` holds `main`: arguments, sockets, rings in kernel memory, threads, terminal and files.
  What is floating point (rates, milliseconds, shares) is computed there from exact integers.

Times in the library are nanoseconds on one clock that the caller reads. Rates are counts
over spans, so nothing is rounded before it is shown.

The program reads its list of two thousand names from `assets/builtin_corpus.txt` and the
object of its XDP program from `ebpf/dns_xdp_client.o`.
`DNSMARK_XDP_TX=0`, `DNSMARK_VLAN`, `DNSMARK_WARMUP` and `DNSMARK_RAMP_PRIME` tune a run.
