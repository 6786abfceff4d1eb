# xdp_fw

An XDP packet filter with a terminal console, whose logic is verified with Verus.

The XDP program judges each IPv4 frame against a table of up to 256 rules
(source/destination networks, ports, protocol, action) and logs every
decision to a ring buffer. The console program loads it, shows the logged
decisions, and edits the rule table through typed commands such as
`block port 22 proto tcp from 10.0.0.0/8`, `rules`, `remove 1.2.3.4`.

## Layout

- `src/` is the verified library.
  - `rules` — rules, flow keys, netmasks, and when a rule matches a flow.
  - `firewall` — the decisions of the packet path: the verdict and log
    record for a frame, given the rule map and the rule count. The XDP
    object that runs in the kernel is built separately and loaded from the
    file `xdp-fw`; nothing here ties that object to this code.
  - `logs` — the record the packet path logs, and its decoding.
  - `table` — the rule table as the console edits it (insert, remove,
    remove all, remove by address, listing).
  - `text` — characters, numbers and IPv4 addresses as text.
  - `util` — CIDR parsing and the text of a rule in the listing.
  - `command` — the console's command language: grammar and errors.
  - `app`, `event`, `cli` — the console's state, what commands and keys do
    to it, and the command line options.
  - `guarantees`, `letter_case` — properties that span several functions.
- `app/` is the program around the library: loading and attaching the XDP
  program, the rule and log maps, the terminal, and the event loop.
- `tests/` runs the library on concrete inputs.
