# edge-lb

The decisions of an L4 load balancer agent, verified with Verus. Gateways forward
traffic to backends over a VXLAN overlay and mark it with a DSCP codepoint; backends
send replies back to the gateway that a mark names. A pair of gateways watches each
other, shares an address and copies flows.

The library (`src/`) reads plain values and gives plain values back: it plans, parses,
checks and decides. What goes on for a while, such as a switch of the active gateway or
the watch over the redirect cache, is a state that says what to do next and takes what
came of it.

The program (`app/`) reads the host and calls the library. It watches the peer, probes
targets, serves figures, runs the load generator and shows routes, filters, snapshots and
what redirecting would rest on. Of setting up a gateway or a backend it shows the plan; it
does not carry it out, and it runs neither as a daemon.

| Module | What it decides |
| --- | --- |
| `text`, `net`, `bytes`, `nla`, `order`, `ranked_set`, `table`, `digest` | text, addresses, numbers in bytes, netlink attributes, orders and sets, digests |
| `config`, `cli`, `access` | what a node is configured to be, and who may ask it |
| `redirect` | whether and how packets may skip the kernel's routing: routes, leases, admission, publication |
| `linux` | policy routes and their ownership, return paths, traffic filters |
| `native` | listeners, targets and their health, probes, flows, snapshots, replication between gateways, taking over the shared address |
| `bfd` | watching the peer, and electing the active gateway |
| `role` | setting up, repairing and tearing down gateways and backends |
| `metrics` | the figures that are served |
| `bench`, `default_route` | the load generator, and the device of the default route |

What is not proved is stated where it is used: calls into other crates stand behind
small functions whose comments name the call and what is taken on trust.
