# elevator_control

Control logic for a group of cooperating elevators, verified with Verus.

Each controller keeps a picture of the whole group (the world view: every
elevator's state and cab orders, the shared hall orders, and write counters
and session numbers that order updates), merges the pictures its peers
broadcast, moves orders through their life cycle once every live elevator
has acknowledged them, asks a hall request assigner which hall orders to
serve, and drives its car.

## Layout

- `src/` – the verified library.
  - `memory/` – orders, elevator records, the hall order queue, the world
    view with its merge, and the memory keeper's event step.
  - `hallorder_decision.rs` – the assigner question and the reading of its
    answer.
  - `hardware_execution.rs` – one tick of the hardware thread: lights,
    door, travel, and the commands for the memory thread.
  - `hardware.rs` – the single-loop car controller (requests, lights, door
    and next stop).
  - `message.rs`, `message/` – messages between threads and their
    conversions.
  - `elevator_id.rs` – the elevator identifier.
  - `laws.rs` – properties that span several functions, proved.
- `tests/` – tests on concrete values.
- `app/` – the program around the library: threads, channels, the TCP
  link to the elevator hardware, UDP broadcast, and the assigner process.
