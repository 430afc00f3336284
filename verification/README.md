# uptimemaster

A network uptime monitor that probes endpoints (TCP, UDP, ICMP, HTTP, HTTPS,
ARP) on a schedule and exports the results as Prometheus metrics.

## Layout

- `src/` is the verified library (Verus). It holds the monitor's logic with
  its contracts:
  - `config` — endpoint settings, their checks, defaults, the load order of a
    configuration directory and the merging of its files;
  - `resolver` — hosts and ports of targets, URLs and DNS server settings, the
    choice between the system resolver and custom servers, and the targets an
    endpoint's probes go to;
  - `scheduler` — each endpoint's schedule, the probe run against each resolved
    address, and what a probe cycle records;
  - `probe` — the decisions of an HTTP probe (port, status, body checks,
    certificate expiry);
  - `arp` — MAC addresses, ARP request frames and replies, the choice of
    interface;
  - `metrics` — label sets of the series and the per-endpoint up/down history;
  - `labels` — ordering and merging of label sets;
  - `watcher`, `capability`, `text`, `ip`, `defaults` — file-change events, the
    raw-socket capability, text helpers, addresses and default settings.
- `app/` is the daemon around the library: command line, file and network I/O,
  the async probe loop, the DNS resolver, the Prometheus registry and server.
- `tests/` runs the library on concrete values.

The laws that hold across functions are public proof functions named `law_*`.
