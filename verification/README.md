# netstack_sim

A discrete-time simulator of a multi-core server that receives network
requests. Each request needs some ticks of forwarding, of network-stack
processing and of application processing, and the server spreads this work
over its cores in one of four layouts:

1. a forwarding core hands each request to the next idle worker, and the
   workers run stack and application under a per-flow lock;
2. the NIC's indirection table picks a worker by flow, which runs both phases;
3. one network-stack core hands its finished requests to application cores in
   round-robin order;
4. several network-stack cores, each with its own group of application cores.

The library is written in Verus. Every function in `src/` is verified,
except the few small wrappers in `outside` that call into outside crates
(`rand`, `arrayvec`, `rustc_serialize`); their contracts are trusted, and
each says in its doc comment what it claims:

- `request`: a request and its three phases;
- `worker_core`: one core's tick (`Core::schedule`) and its queues;
- `sweep`, `dispatch`: one tick of a group of workers, and of the cores that
  feed them in round-robin order;
- `config`: the settings of a run and the requests they describe;
- `config_json`: reading those settings from the JSON text of `config.json`;
- `simulation`: building the server, one tick of the whole machine
  (`Simulation::step`) and a whole run (`Simulation::run`);
- `laws`, `conservation`, `counting`, `outcomes`: properties proved of all
  of this, such as that no request is ever lost or made up, that one flow is
  never on two workers at once, that the per-core counts add up, and that
  finished and dropped requests carry the right marks;
- `outside`: the calls into `rand`, `arrayvec` and `rustc_serialize`, with
  the contracts they are trusted to meet.

`app/` reads the text of `config.json`, shows progress bars and prints the results.
