# verilator_simulation_manager

Runs many simulations of a Verilator testbench from the same starting point and fuzzes their
inputs: a fork server spawns forks of the simulation, each fork runs one input and leaves its
coverage map in shared memory, and inputs that reach new coverage are mutated into new inputs.

The library in `src/` is verified with Verus:

- `mutator`: input shapes and the bit, nibble and byte flips and the cycle clone and removal
  mutations, each with its exact effect; laws: every flip undoes itself and changes its input,
  removing a cloned cycle gives the input back.
- `fuzzer`: fuzzing inputs, feedback, and the mutator that queues every new mutation once.
- `fuzz_server`: the decisions of the fuzzing loop (which input runs next, when to refill the
  queue, what new coverage does), with the invariant that every input is one row of the width.
- `wire`, `socket_protocol`, `vl_fork_server::message`: the wire format of the protocol messages
  (two versions), with round-trip and "whole messages or nothing" laws.
- `socket_protocol::MessageChannel`, `vl_fork_server::message_channel`: channels that keep
  received bytes and hand out whole messages.
- `vl_fork_server::fork_table`: the forks and the activation table shared with them.
- `monitor`: progress monitors.

The program in `app/` does the input and output: it spawns the simulation, talks to it over UNIX
sockets, maps the shared memory, and prints progress.
