# autolsm

Decision logic of a daemon that learns SELinux policy from what programs do, verified with Verus.

Kernel programs observe file, socket and process accesses of chosen control groups; the audit log
reports what SELinux denied. Both are brought to access patterns, which a policy generator turns
into rules. Rules that pass the validator are installed as a policy module. An installation that
fails leaves the modules before it in place, and the module installed last can be taken back.

## Layout

- `src/` is the library. Its contracts are proved, except those of the items in `outside`, which
  are believed. The calls of `outside` that read a clock, and the methods of the trait
  `PolicyGenerator`, promise nothing.
  - `common` the records that pass between the stages, and the layout of kernel events
  - `observer` what the kernel programs do at their hooks
  - `audit` denials in the audit log, and what is let through of them
  - `resolver` security contexts of processes, remembered in a bounded cache
  - `normalizer`, `window` access patterns, each counted in one place per window
  - `llm`, `simple_gen` policy generators: requests, answers, and what becomes of them
  - `validator` which rules may be installed
  - `selinux`, `store`, `grouping` rules as modules, their installation and history
  - `approval` the rules that were installed so far
  - `state_machine` learning and enforcing
  - `text`, `number`, `order`, `bytes`, `double`, `type_set`, `lru_model` what the others are made
    with
  - `outside` the calls into other crates; what is claimed of them there is believed, not proved
- `tests/` runs the library on concrete values.
- `app/` is the daemon around the library: arguments, files, processes, the network and the loops.

Properties that hold of several functions together are proof functions whose names begin with
`law_`.
