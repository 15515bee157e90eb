# ianvs

A presence monitor for a home network: it watches which devices (MAC addresses) are
connected, tells a Discord channel when a known user arrives or leaves, and asks about
devices it does not know, letting users claim them or mute them.

- `src/` is the library, written in Verus and verified: MAC address text, the sets and maps
  the monitor keeps, the decision of what to report when the connected devices change, the
  association requests, the persisted associations file and its last-write-wins merge, the
  two stores' computations, the configuration values, the Discord texts and button ids, and
  the reading of `arp-scan` output and of the kernel's ARP table.
- `app/` is the program around it: the main loop, Discord (serenity), the file and git
  stores (serde_json, git2), the network scans (tokio process, procfs) and the environment
  configuration (envy).
- `tests/` exercises the library.
