# whistle

A debugging proxy for HTTP, HTTPS and WebSocket. Rules rewrite or answer the requests that pass
through it, exchanges are captured, and a dashboard shows them and edits the rules.

The logic is a library that is verified with [Verus](https://github.com/verus-lang/verus). The
functions under `src/` have contracts, all but the one that reads the clock, and what holds across
functions is stated as a proof function whose name begins with `law_`. The program `w2r` under `app/`
is ordinary Rust: it owns the sockets, the files and the log, performs what the library decides, and
hands back what happened.

## Layout

| Module | What it is about |
| --- | --- |
| `seqs`, `text` | sequences of characters, and the text functions that the rest is built from |
| `regexes`, `pattern`, `operation`, `rules`, `sources` | the rule language: patterns, operations, rule sets, what they say of a request, and the files that a rule text takes in |
| `headers`, `message` | header fields, hop-by-hop fields, lengths |
| `inspect`, `rewrite`, `action` | what operations change in heads, bodies, addresses and pace, and which requests they answer |
| `capture`, `frames` | the records of exchanges, and WebSocket frames |
| `exchange`, `intake`, `forward`, `relay` | the life of an exchange, step by step |
| `socks`, `wire` | SOCKS, tunnels through other proxies, plugins and composed requests |
| `tls` | the authority and the certificates that it makes for hosts |
| `store`, `panel`, `form`, `sessions`, `routes` | the dashboard: what can be edited, what is shown, and where |
| `config`, `pid` | the configuration, and the file that tells of a running proxy |

## Use

```
w2r start --port 8899 --rules rules.txt
w2r ca export whistle-rs-ca.pem
w2r status
w2r stop
```

A rule is a pattern and one or more operations on one line:

```
example.com/api  host://127.0.0.1:8080
*.example.com    resHeaders://x-debug=1 resDelay://500
/\.png$/         statusCode://404
```

A line that begins with `@`, such as `@more.txt` or `@include more.txt`, takes in the rules of
another file.

The files of the dashboard's front ends are read from `assets/`, or from the directory that
`WHISTLE_ASSETS` names.
