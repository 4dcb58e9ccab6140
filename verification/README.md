# edepot

A host defense system: connection events are routed by source address to
workers, whose rule engines count them over sliding windows and ban the
addresses (or networks) that pass a rule's threshold; bans go to nftables
sets and to an SQLite audit store.

## Layout

- `src/` — the library, verified with Verus:
  - `net`, `text`: addresses and networks as integers; the text conversions
    taken from std and `ipnet`.
  - `config`, `cli`: the configuration and its validation; the command line.
  - `event`, `collector`, `xdp`: events, the raw kernel event layout, and the
    decisions of the kernel SYN filter.
  - `rules` (`sliding_window`, `state`, `engine`): rules, counting, banning,
    clean-up and the memory limit.
  - `dispatcher`, `worker`: routing by source address and the worker's steps.
  - `nft`: the bookkeeping of nftables bans and the meaning of its answers.
  - `storage`: the audit records and the clean-up cutoff.
  - `env_check`: what each reading of the host means.
- `app/` — the program: command line, files, nftables and SQLite calls,
  tasks and channels.
- `tests/` — tests of the library.
