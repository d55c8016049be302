# pv — Pressure Valve

Intelligent process lifecycle management. pv treats a process as an *intent*
with a lifecycle: it works out what each process is trying to accomplish,
foresees exhaustion before it happens, and suspends, resumes, detaches and
migrates work accordingly.

What pv decides and what it says is a library that Verus verifies. What touches
the machine is ordinary Rust around it.

## Layout

`src/` is the verified library.

| Modules | What they hold |
|---------|----------------|
| `text`, `path`, `scan`, `fixed`, `order` | texts as sequences of characters, paths by their components, splitting and searching, decimal numbers and rounding, stable orders |
| `procfs`, `pressure`, `storage` | what the kernel's files say, the pressure of each resource, how full filesystems are |
| `intent`, `label`, `recommend`, `policy` | what work is, what deserves grace, what is advised, what rules hit |
| `cgroup`, `suspend`, `enforce` | freezing and releasing, step by step; policy hits carried out |
| `migrate`, `relocate`, `session` | moving work to another host, detached sessions |
| `daemon`, `notify`, `display` | habits, valves and their cooldowns, cards and colours |
| `live`, `groq`, `net` | the live view, streaming inference, runs of curl |
| `commands`, `doctor`, `update`, `log` | what each verb says, the preflight, self-update, log lines |
| `bench` | a simulated benchmark for choosing a model |

Work that alternates with the outside world is a state machine: a run is begun
and then told how each act went, and every turn says what to print and what to
do next. `suspend`, `enforce`, `migrate`, `relocate` and `update` are such runs;
`daemon::Daemon` and `live::Live` are ticked.

Quantities are exact integers. Load and stalls are in thousandths, shares of the
processor and learned averages in billionths, temperatures in thousandths of a
degree, moments in nanoseconds.

Public proof functions state what holds of the library as a whole, such as that
recycled process ids are never signalled, that protected work is never suspended
by a policy, or that quoting is undone by the shell.

`app/` is the program: arguments, files, processes, the terminal, and the copies
of records that are read and written as TOML. Run under the name `pv_bench` it
prints the benchmark. `tests/` runs the library on concrete values.
