# doh_proxy

A DNS-over-HTTPS proxy: it receives DNS queries over UDP and forwards each
one as an HTTPS request to Cloudflare's or Google's DNS-over-HTTPS service.

- `src/` is the verified library (Verus): the resolvers and the request text
  (`resolver`), decimal rendering of type codes (`decimal`), the proxy's
  configuration (`config`), building DNS query messages (`query`), judging a
  received datagram (`request`), and the state machine of one forwarded
  exchange (`exchange`).
- `app/` is the program around it: sockets, TLS, the thread pool, logging.
- `tests/` runs the library on concrete inputs.
