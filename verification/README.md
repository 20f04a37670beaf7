# brz_http_server

A bounded HTTP/1.1 server for short-lived request and response frames, written
and verified with Verus.

`src/` is the library. It holds every rule of the server: where a request head
ends and what is read next, which requests are accepted, how templates match and
which route answers, what a handler's value becomes on the wire, how answers are
counted and logged, and what the route annotations expand to. Each function has
a contract, and properties that hold across functions are stated as proof
functions whose names begin with `law_`.

`app/` is the runtime around it: sockets, tasks and timeouts, JSON, byte streams
and token streams. It carries out what the library decides and hands plain
values back.

| module | what it holds |
| --- | --- |
| `text`, `params`, `route` | texts, decoding of components and queries, templates |
| `methods`, `router`, `registry` | method sets, the table of routes, collections of APIs |
| `request`, `response`, `headers`, `reply` | requests, responses, and what becomes one |
| `extract`, `body`, `rejection` | inputs of a function, bodies, refused bindings |
| `auth`, `cors`, `filter` | principals, cross-origin policy, filters |
| `server` | limits and framing; `receive`, `connection` and `write` decide step by step |
| `api_metrics` | counters and log lines |
| `macros` | route and registry declarations, from syntax to a plan of the code |
| `arena` | frames of the arena that bodies and heads live in |

What is taken from outside crates on trust stands in the source beside the
function that calls it, with a comment that says what is claimed.
