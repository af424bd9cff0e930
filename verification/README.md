# scx_simulator

A simulator for `sched_ext` schedulers. A scenario lists CPUs, tasks, control
groups and things that happen; the simulator runs it against a scheduler in
logical time and leaves a trace, from which it writes Perfetto files and
summaries.

The library in `src/` is verified with Verus. Its functions state in contracts
what they return and change, and what holds of the simulator as a whole stands
in public proof functions whose names begin with `law_`. A scheduler may answer
anything; of it and of an observer it is assumed only that they keep account of
what they were asked and shown, and that the text of a CPU mask depends on the
mask and the number of CPUs alone.

## Layout

| Modules | What they hold |
| --- | --- |
| `types`, `text`, `scenario`, `trace` | identifiers, texts, scenarios, the record of a run |
| `event_queue` | pending events and who goes first |
| `state`, `sim_state` | CPUs, tasks, queues; the state of a running simulation |
| `lifecycle`, `engine`, `progress`, `calls` | setting up and winding up, the event loop, what every step keeps, the order of calls |
| `wake`, `dispatch`, `run_task`, `stop_task`, `cpu_events`, `cgroup_events` | what each event does |
| `cgroup`, `cgroup_bw` | the hierarchy of control groups and their bandwidth |
| `layered`, `layered_config`, `layered_control`, `layered_alloc`, `layered_xnuma` | layers: rules, configuration files, the control loop |
| `perfetto`, `summary`, `clock_mode`, `debugger` | what is written and said |
| `run_options`, `replay`, `scheduler_path`, `sched_config`, `scheduler_manifest`, `chaos` | what the programs decide |
| `atomic_types`, `backend` | turns and preemption of concurrent callbacks |

`tests/` runs the library. `app/` holds the programs around it: command lines,
files, loaded schedulers, threads, and floating-point measurements.

## How a simulation runs

The state keeps a stack of pieces of work. A step takes the topmost piece and
gives the next state and a request: go on, call the scheduler, ask for a number,
or stop. `Simulator::run` makes the steps and hands each request to an
implementation of `Scheduler`. A scheduler may answer anything; answers that name
a CPU or a timer that does not exist are turned into a scheduler error.

## What is believed without proof

Calls into other crates stand behind small functions. Contracts are believed of
the protobuf messages of a trace (`perfetto`), of the quoting of a text and of the
wording of parse errors (`text`). Of the random numbers that order simultaneous
events (`event_queue`) nothing is claimed.
