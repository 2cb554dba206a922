# cyw43_bluetooth

The host side of the Bluetooth transport of the CYW43 chips, which pass HCI
packets through two circular buffers in memory that the host and the Bluetooth
core share.

The library in `src/` decides everything and performs nothing. Each operation
(bringing the core up, sending a packet, handling an interrupt) is a state
machine: it hands out a list of actions, such as reads and writes on the bus,
and goes on when it gets the replies. What each step does is stated exactly, over
spec functions that give the next state and the actions, and is proved with
Verus. `app/` performs the actions on an async bus and connects the library to
the HCI traits of `bt_hci`.

| Module | What it holds |
| --- | --- |
| `action`, `report` | actions, replies, diagnostics and faults |
| `memory` | a model of the memory behind the bus |
| `ring`, `pointer` | the circular buffers, the frames in them, and their pointers |
| `firmware`, `upload` | firmware images and their upload |
| `host_ctrl`, `poll` | the host control register, and waiting for the status register |
| `init`, `tx`, `rx` | bringing the core up, sending and receiving packets |
| `repro`, `diff`, `sentinel`, `probe` | diagnostics for test packets and damaged data |
| `hci`, `packet` | HCI packets between the channels and the host stack |
| `runner` | the transport as a whole |
| `bring_up` | what bringing the core up leaves behind |
| `arrival`, `sending` | sent packets arrive, and sending ends |
| `delivery` | received packets are handed over in order |
| `passage`, `interrupt`, `turns`, `sampling` | what an interrupt leads to, and how often packets are probed |
| `footprint`, `cache` | what is written where, and the cached register |

The laws that span several operations are the public proof functions whose names
start with `law_`.
