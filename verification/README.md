# rustopus

HTTP request orchestration for API wrapper crates: per-API rate limiting,
bounded concurrency, and retry/backoff driven by a pluggable policy. The
decisions are verified with [Verus](https://github.com/verus-lang/verus).

## Layout

- `src/` makes every decision and does no waiting. `Arm::send` yields a
  `Flight`; its `step` turns each `Event` into the next `Action`.
  - `flight`: one request on its way. `arm`: the settings of an API and their
    builder. `brain`: the pause that all requests of an arm share.
  - `policy`: what a response means, and how `Retry-After` is read. `span`: what
    a log may show of a request.
  - `backoff`: how long to wait. `double`: double-precision arithmetic on
    integers, with `natural` for large ones.
  - `error`, `outcome`, `status`, `transport`, `duration`, `text`: the values
    that these work on.
  - `backoff_laws`, `policy_laws`, `flight_laws`: what holds of the library as a
    whole, for every input and every history of a request.
- `app/` performs the actions on Tokio: slots, clock, sleeping, the rate limiter,
  the network and tracing.
- `tests/` drives the library against a simulated clock.

## What is taken on trust

`bytes`, `governor`, `http`, `rand`, `reqwest` and `std` are called through
declarations whose contracts are not proved. Each says in its doc comment which
function it speaks of and what it claims.

## Numbers

A backoff factor is a double-precision number (`Factor::from_bits(f.to_bits())`),
and delays are computed step by step as double precision has them. What is
promised outright is exact to the nanosecond at any size: the first delay, every
doubled one, a constant one and the cap. Doubling goes on up to the cap; the
powers of other factors stop at the 32nd.
