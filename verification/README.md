# fing

fing scans local IPv4 networks and says what the hosts on them are. It combines ARP,
OUI, DNS, mDNS, NetBIOS, UPnP, DHCP, SNMP, LLDP, CDP, SMB, HTTP, and TLS evidence.

The project has two parts.

- `src/` is a library written in Verus. It holds the codecs, the parsers, the device
  model, the identity rules, the decisions of a scan, and what the live view shows.
  Every function states what it returns, and Verus proves it.
- `app/` is the program around it: arguments, sockets, raw frames, files, the terminal.
  It performs the actions that the library decides on and reports back what happened.

## Library

| Module | Content |
| --- | --- |
| `addr`, `bytes`, `ber`, `text`, `text_map`, `same`, `sort` | addresses and networks, byte and text handling, BER, sorting |
| `model` | devices, names, guesses, services, evidence |
| `net` | interfaces, target networks, the default route |
| `discovery` | ARP frames, neighbor tables, the sweep; `cdp`, `lldp`, and the listener `l2` |
| `enrich` | `mdns`, `netbios`, `oui`, `rdns` |
| `dhcp` | lease files of ISC dhcpd, dnsmasq, and systemd |
| `probes` | `deep` (ports, HTTP, TLS), `smb`, `snmp`, `upnp` |
| `identity_rules` | rules that turn evidence into guesses |
| `scanner` | how evidence is applied (`apply`), one scan (`session`), several interfaces and rounds (`multi`), passive neighbors (`passive`) |
| `store` | what an earlier scan still says of a device |
| `output` | masking, source codes, table and CSV export, and the live view (`live`) |
| `cli` | what the arguments ask for |

A scan is a state machine. `scanner::session::ScanSession::step` takes what the
surroundings report and gives back the events to show and the next action, so that the
whole course of a scan is verified while `app/` does the input and output.

Confidences are counted in hundredths and instants in nanoseconds. Texts are sequences
of characters in contracts, and every structure has a view of mathematical values.

Proof functions whose names begin with `law_` state what holds across calls: what is
written reads back, evidence never crosses the scanned range, merging loses nothing, a
sweep ends, a masked address hides its lower half, and the like.

Calls into other crates (`chrono`, `comfy-table`, `csv`, `hex`, `ipnet`, `quick-xml`,
`reqwest` for URLs, `serde_json`, `sha2`, `x509-parser`) go through functions whose contracts are
taken on trust; each says in its comment what it claims.
