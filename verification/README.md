# zerosni

An SNI-inspecting TCP transparent proxy. It reads the TLS ClientHello of each redirected connection,
looks the server name up through a UDP resolver, and passes the stream on to the address found. A
table of rules changes the resolver, the destination or the firewall mark per hostname, and can have
connections decrypted and mirrored.

`src/` is a library in which the decisions about a connection are stated as contracts and proved with
Verus. It does no input or output.

| Module | What it decides |
| --- | --- |
| `hello` | whether a connection begins with a ClientHello, and which server that names |
| `rule_table`, `rule_laws` | which rule a hostname selects |
| `route` | the resolver or address, firewall mark and interception for a hostname |
| `session` | what is done for a client, step by step |
| `resolver`, `dns`, `dns_laws` | resolver addresses, queries, when they are repeated or given up, and what is taken from replies |
| `connect` | which address is tried next, and whether a connection is under way |
| `proxy_header` | the PROXY protocol header, version 1 |
| `relay` | what goes to the server and to the mirror |
| `certificate` | the authority and the certificates it issues |
| `arp` | the hardware address of a peer |
| `addr`, `addr_laws`, `text` | addresses as integers, and texts |
| `outside` | the calls into other crates, with what is relied on |

`outside` and the top of `text` hold everything that is believed rather than proved.

`app/` is the program: sockets, files, signals, TLS sessions and the command line. It also holds what is
decided outside the library and so not proved: when the rule table is read again and put in place of
the old one, the waiting between the steps of a query, and the caches of addresses, certificates and
hardware addresses. `tests/` runs the library on concrete values.

## Rules

```json
{
  "www.example.com": { "direct": "10.0.1.2:8443", "fwmark": 1 },
  "*.apple.com": { "resolver": "udp://1.1.1.1" },
  "*": { "fwmark": 3 }
}
```

An exact hostname comes before every wildcard, the longest suffix before shorter ones, and `*` last.
What a rule leaves out is taken from the command line.

## Mirror stream

Each chunk of an intercepted connection is one frame: `0x00` from the client or `0x01` from the
server, the size as four bytes with the least significant first, and the bytes.
