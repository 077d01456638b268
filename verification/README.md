# zkm_core_executor

A verified executor for a MIPS zero-knowledge virtual machine.

A program runs twice. A fast interpreter (`minimal`) runs it on live memory and logs the value of
every word before it is accessed. The log is cut into chunks; `splicing` walks over the chunks,
measures how large the tables of the prover get, and cuts the run into shards; `tracing` replays a
shard from its part of the log and records its events. `pipeline` ties the three together, and
proves that what is recorded is the run: every instruction that retires outside unconstrained
blocks once, in order, with the state that the interpreter had. This is proved of runs in which no
chunk and no shard starts inside an unconstrained block, and in which no such block runs the clock
past the end of its chunk or shard; a replay cannot repeat the others.

| module | what it holds |
| --- | --- |
| `machine`, `vm` | the machine in mathematical terms, and the instructions |
| `core_vm`, `sources` | the executable machine, on live memory or on a log |
| `minimal`, `splicing`, `tracing`, `pipeline` | the stages of a run |
| `chips` | which events an instruction leaves in a record |
| `replay`, `course`, `laws` | what holds of runs, replays and whole pipelines |
| `memory`, `state` | paged memory, copy on write, guest memory |
| `precompiles`, `bigint`, `keccak`, `sha256`, `hook` | the precompiled operations and the hooks |
| `record`, `split`, `boundary`, `cost`, `events` | the record of a shard, how it is split, its public values, what it costs |
| `aot` | compilation to x86-64, and what the compiled code does |

`collections`, `bigint`, `hook` and `precompiles` hold the calls into other crates; `cost` and
`split` hold one call into the standard library each. Their contracts are not proved here; each
says what it takes from the function that it calls.

`app/` is the host side: errors with messages, compiled programs loaded into the process, printing.
`tests/` runs the library, compiled code included, on a model of the host.
