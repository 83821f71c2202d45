# rs-modbus

A Modbus master and slave: RTU, ASCII and TCP framing, over TCP, UDP and serial
lines. The rules of the protocol are a Verus library; sockets, ports, timers and
tasks are ordinary Rust around it.

## The library (`src/`)

Nothing in it touches a socket, a port or a clock. The caller reports what
happened (bytes arrived, a timer ran out, a write failed) and does what the
library answers (write these bytes, start that timer, tell this waiter).

- `error`, `types`, `vars`: error and exception codes, data units, constants.
- `utils`: CRC, LRC, address ranges, packing of coils and registers, RTU length
  prediction, connection ids.
- `layers::application`: the framings `tcp`, `ascii` and `rtu`. Each has a
  mathematical model of its byte stream (`tcp_scan`, `ascii_run`, `rtu_flush` and
  `rtu_feed`), which its layer is proved to follow.
- `layers::physical`: the life cycles of TCP clients and servers, UDP sockets and
  serial ports.
- `master`, `master_session`: requests, the checks for their answers, and the
  routing of frames to the requests that wait for them.
- `slave`: what a request asks of a model (`plan`), what it is answered (`answer`,
  `identification`), the steps in which it is carried out (`steps`), the locks it
  needs (`locks`), the queues of the connections (`queue`), and the slave itself.
- `exchange`: what holds of a master and a slave together, such as that a master
  reads back what the model behind the slave told.

Functions whose names begin with `law_` state what holds across several calls.

## The rest

- `app/`: the asynchronous layers, master and slave over tokio and serialport.
- `tests/`: the library on concrete values.

## Conventions

- A request whose span reaches beyond the last address is outside of what
  `slave::plan::plan_request` accepts; `slave::plan::addresses_fit` tells. A slave
  refuses it, unless its model takes care of it first.
- Concurrent masters and slaves need Modbus TCP;
  `layers::application::supports_concurrency` tells.
- Models of a slave and predictors of frame lengths are traits that the users of
  the library implement. What is proved holds whatever they say. Models are called
  by whoever runs `slave::steps::RequestRun`, which tells when and with what.
