# workbench

The rules of a distributed workbench: a controller that keeps sessions, leases, tasks, artifacts,
generations, transactions and handoffs, routes requests to executors and to other controllers, and
shows what happens to an operator.

- `src/` is the library. It is written in Verus, and every function in it is proved against its
  contract. Time, fresh names and the answers of other nodes are arguments, so each rule holds
  whatever they are. What is believed of other crates stands in `src/codec.rs`.
- `tests/` runs the library on concrete values.
- `app/` is the program around the library: the command line, sockets, files, the database, threads
  and the desktop. It makes the calls and hands what came back to the library.

Where to start:

| module | rules of |
| --- | --- |
| `lease`, `driver`, `resource` | who may write, and how that passes on |
| `task`, `task_requests`, `invoke`, `execution` | work that is done once, and what its outcome means |
| `session`, `controller`, `state` | which controller governs a session |
| `approval`, `read_grant`, `operator` | leave that is given, and used once |
| `generation`, `datapack`, `transaction`, `evidence` | what is built, activated and kept |
| `relay`, `process`, `probe` | transfers and processes |
| `dashboard`, `query`, `snapshot`, `runs`, `observe` | what is shown |
| `cli`, `fabric`, `hook`, `logs` | what the program is asked to do |
| `application`, `launch`, `windows`, `cdp` | applications on a desktop |
