# hype

An HTTP/1.1 toolkit with a load balancer: message parsing, headers, bodies
and their chunked framing, cookies, routing, load-balancing policies, and the
configuration of a file server and of a load balancer.

- `src/` is the library, verified with Verus. Each function states what it
  computes in its contract; the laws of the library (the parser's state
  machine, reading back what was written, the order of load-balancing picks,
  the route that wins) are proof functions or clauses of those contracts.
- A `Body` is a value: the bytes or chunks received and the length
  announced. A `SharedBody` is a handle on a body behind a lock: its clones
  refer to the same body, so one side can fill it while another streams it.
- `app/` is the program around it: the asynchronous server and client, the
  connection tracker, the handlers that read the file system, and reading
  configuration files from disk.
- `tests/` exercises the library on concrete values.
