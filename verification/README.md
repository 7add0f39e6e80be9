# netmon

A network monitor for Linux that shows traffic per thread and can block
processes. The library in `src/` holds the logic, verified with Verus; `app/`
is the window, the threads and the system calls around it.

- `capture`: Ethernet, IP, TCP and UDP headers to flow records; the capture loop.
- `resolver`: sockets from the kernel or from `/proc/net`, joined with the
  processes that hold them; the throttled cache that answers who owns a flow.
- `aggregator`: the running account per thread, connection and interface;
  snapshots and CSV history.
- `controller`: nftables rules, and the sessions that set and remove them.
- `ui`: texts, sorting, selection, and what user actions change.
- `text`, `number`, `net`, `sort`, `table`, `collections`: what the rest is
  built on.

Times are nanoseconds on a monotonic clock and are passed in. The library reads
no file, opens no socket and starts no program: it says what is to be read or
run and takes the result.
