# ztunnel

The rules of a node proxy for sandboxed workloads, as a verified library, and the
ordinary code around it.

## Layout

- `src/` is the library. Every function states what it returns or changes, and Verus
  proves it.
  - `capsule`, `bytebuf`: HTTP datagrams in capsules, on a byte stream.
  - `extensions`: egress policies and policies on TLS server names.
  - `rbac`: traffic policies, their evaluation, and their agreement with the
    firewall rules made of them.
  - `sandbox`: sandboxes, their discovery, their store and their tokens.
  - `state`: workloads, services and their configurations.
  - `xds`: updates of the state, from the control plane or a local file.
  - `firewall`: rules for iptables and nftables, the choice of the tool, and the
    controllers that keep rules up to date.
  - `proxy`: outgoing connections with their routes, and UDP sessions with their queues.
  - `probe`: health probes on behalf of applications.
  - `net`, `text`, `table`, `index`, `labels`, `time`: what the others share.
- `tests/` runs the library on concrete values.
- `app/` does input and output: sockets, child processes, clocks, metrics and files.

Properties that relate several functions stand beside them as proof functions whose
names start with `law_`.

## What is trusted

A few calls into outside crates and the standard library (byte buffers, network
prefixes, Base64, regular expressions, HTTP status codes) carry contracts
that are believed, not proved. Each says in its documentation what it claims.
