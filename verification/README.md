# rust_proxy

A reverse SOCKS5 tunnel. Agents behind firewalls dial a public server; the server opens ports for
SOCKS5 and HTTP proxy clients and hands each client's connection to the port's agent. A dashboard
shows the agents and the ports, opens and closes ports, bans addresses, and asks an Android agent
for a new public address.

## Layout

* `src/` is the library, verified with Verus. It holds the wire formats, the state machines of both
  sides, the rules of the dashboard, bans and sessions. It does no input or output: bytes, times and
  random draws are handed in as plain values, and channels, counters and limits are known by
  handles.
* `app/` is the program around it: sockets, TLS, files, the command line and the Android service.
* `tests/` runs the library.

## What is trusted

The shared maps are `dashmap::DashMap`s, JSON is read and written by `serde_json`, base64 by
`base64`, SHA-256 by `sha2`, QR codes are drawn by `qrcode`, and `rustls` judges host names. Each
of their functions that the library calls stands behind a small wrapper whose contract is believed,
as do the few functions of the standard library that decode UTF-8 and word the faults of texts;
the wrappers are in `registry`, `json`, `base64_codec`, `tls`, `tunnel::qr` and `text`.

## Running

```text
rust_proxy server -c 8080 -a 8081 -p <agent password> --admin-password <admin password>
rust_proxy agent -s <server>:8080 -a <name> -p <agent password> --fingerprint <fingerprint>
```

The dashboard's page is read from `web_ui.html` in the working directory.
