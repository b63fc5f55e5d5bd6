# Micro-Hermes

A small layer-7 load balancer whose dispatch follows the status of its workers. Each worker stamps
its loop entry and publishes how many events are pending and how many connections it holds. A
scheduling pass filters the workers by time, connections and events, and publishes the survivors as
a bitmap. Each new connection is then hashed over the survivors only. Two baselines, a plain hash and
last-registered-first wake-up, run beside it.

`src/` is the verified library. Every piece of outside work (a clock, a sleep, a socket, a file) is
named by an action that a state machine asks for, and comes back as an event.

| Modules | What they hold |
|---|---|
| `wst`, `shm` | worker status, accept queues, the published bitmap |
| `scheduler`, `policy_pass`, `bits` | the scheduling passes and bitmaps |
| `dispatcher`, `kernel`, `policy` | the choice of a worker, in userspace and in the kernel |
| `workload`, `generator`, `worker`, `poll` | the simulation |
| `lb_worker`, `conn_table`, `loader`, `wire` | the load balancer and its protocol |
| `client`, `bench` | the load generator |
| `metrics`, `lb_metrics`, `summary`, `csv`, `order`, `text` | rows, files and figures |

`app/` drives the library: `sim` runs one simulation, `lb` the load balancer, `bench` the load
generator. `app/hermes_select.rs` is the kernel's selection program. It is built on its own, for the
kernel's target, and follows `kernel::try_select`; `lb` is given the object file.
Averages and standard deviations are computed in `app/`, in floating point.
