# conrt

A small container runtime whose rules are proved with Verus. One daemon starts
containers, keeps their logs, serves followers and attached clients, and cleans
up behind containers that exit. It runs on io_uring, on a single thread.

## Layout

- `src/` is the library. Every item of it is verified; it does no I/O.
  - `lines`, `log`: splitting output into lines, the bounded log of a container
    and the pipes of those who follow it.
  - `frame`, `protocol`, `text`, `cstring`: the frames on the stream socket, the
    requests and their answers, texts and C strings.
  - `sys`, `container`: argument vectors, wait statuses, and the steps that set
    up a container's root and its id maps.
  - `daemon`: the daemon's state, what each request and frame calls for, how a
    container is started and what is undone when a step fails.
  - `reactor`: the same service as one dispatch over completions, without tasks.
  - `client`: what the command line client decides.
  - `coio`: the task runtime: tasks, operations and their completions, buffer
    pools with borrow tracking, messages with control data, notifications.
  - `coiote`: a smaller runtime with per-task operation state.
- `app/` is the program: system calls, the ring, JSON, the command line.
- `tests/` runs the library on concrete values.

## Reading the contracts

Each stateful type has a view, and its contracts say how one view follows from
another: `DaemonState` is viewed as `daemon::State`, `Board` as `BoardState`,
`Runtime` as `Sched`. Laws that span several operations are public proof
functions next to the definitions that they speak of.

The library trusts a handful of outside functions: the wait status tests of
`libc`, the buffer id of an `io-uring` completion, and lossy UTF-8 decoding.
