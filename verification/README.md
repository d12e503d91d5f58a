# tcp_proxy

A raw TCP proxy with health checks and load balancing. The decision logic is a
Verus-verified library under `src/`; the program around it (configuration file,
sockets, timers, metrics) is under `app/`.

- `src/domain.rs`: target endpoints (`host:port`) and app names, with their validation.
- `src/config.rs`: the configuration model and `validate_config`.
- `src/balancer/`: round-robin and weighted-random strategies, with the laws they obey
  (turn-taking and fairness; picks proportional to weights).
- `src/health/`: passive, TCP-connect and TCP-send-expect health checks as state machines
  (failure counters that saturate at a threshold, recovery, probe scheduling).
- `src/worker.rs`: which targets a client connection may still try.
- `src/time.rs`: spans of time in the layout of `std::time::Duration`.
- `app/`: `main`, reading `config.json`, the accept loops, the probes and the
  health-check loop.
